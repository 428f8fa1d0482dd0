use vstd::prelude::*;

verus! {

/// Why a completion signal could not be taken.
#[derive(Debug, Clone, Copy, PartialEq, Eq, Structural)]
pub enum SignalError {
    /// The signal was already taken: a second completion where only one is possible.
    AlreadyTaken,
}

/// A slot that holds at most one pending completion signal, taken once.
#[derive(Debug)]
pub struct CompletionSlot<T> {
    pub pending: Option<T>,
}

/// `after` and `r` are what taking the signal from `before` leaves and returns.
pub open spec fn takes_signal<T>(
    before: CompletionSlot<T>,
    after: CompletionSlot<T>,
    r: Result<T, SignalError>,
) -> bool {
    match before.pending {
        Some(t) => r == Ok::<T, SignalError>(t) && after.pending is None,
        None => r == Err::<T, SignalError>(SignalError::AlreadyTaken) && after.pending is None,
    }
}

impl<T> CompletionSlot<T> {
    /// A slot holding the signal `signal`, ready to be taken once.
    pub fn arm(signal: T) -> (s: Self)
        ensures
            s.pending == Some(signal),
    {
        CompletionSlot { pending: Some(signal) }
    }

    /// Whether the signal is still pending.
    pub fn is_armed(&self) -> (r: bool)
        ensures
            r == self.pending is Some,
    {
        self.pending.is_some()
    }

    /// Takes the pending signal; taking it a second time is an error.
    pub fn take(&mut self) -> (r: Result<T, SignalError>)
        ensures
            takes_signal(*old(self), *final(self), r),
    {
        match self.pending.take() {
            Some(t) => Ok(t),
            None => Err(SignalError::AlreadyTaken),
        }
    }
}

/// Of two takes from an armed slot, the first gets the signal and the second
/// fails.
pub proof fn lemma_second_take_fails<T>(
    s0: CompletionSlot<T>,
    s1: CompletionSlot<T>,
    s2: CompletionSlot<T>,
    r1: Result<T, SignalError>,
    r2: Result<T, SignalError>,
)
    requires
        s0.pending is Some,
        takes_signal(s0, s1, r1),
        takes_signal(s1, s2, r2),
    ensures
        r1 == Ok::<T, SignalError>(s0.pending->Some_0),
        r2 == Err::<T, SignalError>(SignalError::AlreadyTaken),
{
}

/// What the token acquisition does next.
#[derive(Debug, Clone, Copy, PartialEq, Eq, Structural)]
pub enum AuthStep {
    /// The cached token is valid: build the client from it.
    UseCachedToken,
    /// Run the authorization handshake, then read the cache again.
    Authorize,
}

/// The token acquisition's decision after reading the token cache.
pub fn next_auth_step(cached_token_valid: bool) -> (r: AuthStep)
    ensures
        cached_token_valid ==> r == AuthStep::UseCachedToken,
        !cached_token_valid ==> r == AuthStep::Authorize,
{
    if cached_token_valid {
        AuthStep::UseCachedToken
    } else {
        AuthStep::Authorize
    }
}

} // verus!
