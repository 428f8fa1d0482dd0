use vstd::prelude::*;

use crate::bytes::{bytes_eq, copy_bytes};
use crate::records::{
    available_in, decode_track_markets, decoded_markets, markets_include, opt_views, target_market,
    target_market_spec, unavailable_marker, unavailable_marker_bytes,
};
use crate::tree::{lookup, Tree};

verus! {

/// Why no track was picked.
#[derive(Debug, Clone, Copy, PartialEq, Eq, Structural)]
pub enum SelectError {
    /// The feature has no label namespace.
    UnknownFeature,
    /// A track record that had to be read does not decode.
    MalformedRecord,
    /// Every track is labelled or ineligible.
    NoMoreTracks,
}

/// A track offered for labelling: its key and its stored metadata record.
#[derive(Debug)]
pub struct TrackChoice {
    pub id: Vec<u8>,
    pub details: Vec<u8>,
}

/// What the scan does with one track record.
#[derive(Debug, Clone, Copy, PartialEq, Eq, Structural)]
pub enum Verdict {
    Skip,
    Pick,
    Fail,
}

/// The scan's decision on the track `id` with metadata record `details`: skip
/// it when it is labelled, when it has no feature vector or only the
/// unavailable marker, or when it is not available in the target market;
/// fail when its metadata must be read and does not decode.
pub open spec fn verdict(
    labels: Seq<(Seq<u8>, Seq<u8>)>,
    features: Seq<(Seq<u8>, Seq<u8>)>,
    id: Seq<u8>,
    details: Seq<u8>,
) -> Verdict {
    if lookup(labels, id).is_some() {
        Verdict::Skip
    } else {
        match lookup(features, id) {
            None => Verdict::Skip,
            Some(v) => if v == unavailable_marker() {
                Verdict::Skip
            } else {
                match decoded_markets(details) {
                    None => Verdict::Fail,
                    Some(m) => if markets_include(m, target_market_spec()) {
                        Verdict::Pick
                    } else {
                        Verdict::Skip
                    },
                }
            },
        }
    }
}

/// The outcome of scanning the metadata records from position `i` on: the
/// position of the first one picked, or the error that ends the scan.
pub open spec fn scan(
    details: Seq<(Seq<u8>, Seq<u8>)>,
    labels: Seq<(Seq<u8>, Seq<u8>)>,
    features: Seq<(Seq<u8>, Seq<u8>)>,
    i: int,
) -> Result<int, SelectError>
    decreases details.len() - i,
{
    if 0 <= i < details.len() {
        match verdict(labels, features, details[i].0, details[i].1) {
            Verdict::Skip => scan(details, labels, features, i + 1),
            Verdict::Pick => Ok(i),
            Verdict::Fail => Err(SelectError::MalformedRecord),
        }
    } else {
        Err(SelectError::NoMoreTracks)
    }
}

/// The selector's decision on one track; `markets` is what its metadata record
/// decoded to.
pub fn judge_track(
    labelled: bool,
    feature_vector: Option<&Vec<u8>>,
    markets: &Option<Option<Vec<Vec<u8>>>>,
) -> (r: Verdict)
    ensures
        r == (if labelled {
            Verdict::Skip
        } else {
            match feature_vector {
                None => Verdict::Skip,
                Some(v) => if v@ == unavailable_marker() {
                    Verdict::Skip
                } else {
                    match *markets {
                        None => Verdict::Fail,
                        Some(m) => if markets_include(opt_views(m), target_market_spec()) {
                            Verdict::Pick
                        } else {
                            Verdict::Skip
                        },
                    }
                },
            }
        }),
{
    if labelled {
        return Verdict::Skip;
    }
    match feature_vector {
        None => Verdict::Skip,
        Some(v) => {
            if bytes_eq(v, &unavailable_marker_bytes()) {
                Verdict::Skip
            } else {
                match markets {
                    None => Verdict::Fail,
                    Some(m) => {
                        if available_in(m, &target_market()) {
                            Verdict::Pick
                        } else {
                            Verdict::Skip
                        }
                    },
                }
            }
        },
    }
}

/// Picks the next track to label for a feature: the first track, in store
/// order, that is not labelled for it, has an available feature vector and is
/// available in the target market.
pub fn random_untrained_track_for_feature(
    details: &Tree,
    features: &Tree,
    labels: Option<&Tree>,
) -> (r: Result<TrackChoice, SelectError>)
    requires
        details.wf(),
        features.wf(),
        labels matches Some(l) ==> l.wf(),
    ensures
        labels is None ==> r == Err::<TrackChoice, SelectError>(SelectError::UnknownFeature),
        labels matches Some(l) ==> match scan(details@, l@, features@, 0) {
            Ok(i) => r matches Ok(c) && c.id@ == details@[i].0 && c.details@ == details@[i].1,
            Err(e) => r == Err::<TrackChoice, SelectError>(e),
        },
{
    let l = match labels {
        None => return Err(SelectError::UnknownFeature),
        Some(l) => l,
    };
    let mut i: usize = 0;
    while i < details.entries.len()
        invariant
            details.wf(),
            features.wf(),
            labels == Some(l),
            l.wf(),
            0 <= i <= details@.len(),
            details@.len() == details.entries@.len(),
            scan(details@, l@, features@, 0) == scan(details@, l@, features@, i as int),
        decreases details@.len() - i,
    {
        let id = &details.entries[i].0;
        let record = &details.entries[i].1;
        assert(details@[i as int] == (id@, record@));
        let verdict = if l.contains_key(id) {
            Verdict::Skip
        } else {
            match features.get(id) {
                None => Verdict::Skip,
                Some(v) => {
                    if bytes_eq(v, &unavailable_marker_bytes()) {
                        Verdict::Skip
                    } else {
                        let markets = decode_track_markets(record);
                        judge_track(false, Some(v), &markets)
                    }
                },
            }
        };
        assert(verdict == crate::selector::verdict(l@, features@, id@, record@));
        match verdict {
            Verdict::Pick => {
                return Ok(TrackChoice { id: copy_bytes(id), details: copy_bytes(record) });
            },
            Verdict::Fail => {
                return Err(SelectError::MalformedRecord);
            },
            Verdict::Skip => {},
        }
        i = i + 1;
    }
    Err(SelectError::NoMoreTracks)
}

/// Where the scan picks a position, the record there is picked by `verdict`.
proof fn lemma_scan_picks(
    details: Seq<(Seq<u8>, Seq<u8>)>,
    labels: Seq<(Seq<u8>, Seq<u8>)>,
    features: Seq<(Seq<u8>, Seq<u8>)>,
    i: int,
)
    requires
        0 <= i,
    ensures
        scan(details, labels, features, i) matches Ok(j) ==> i <= j < details.len()
            && verdict(labels, features, details[j].0, details[j].1) == Verdict::Pick,
    decreases details.len() - i,
{
    if 0 <= i < details.len() {
        lemma_scan_picks(details, labels, features, i + 1);
    }
}

/// A track that the selector offers for a feature has no label for that
/// feature, has a feature vector that is not the unavailable marker, and is
/// available in the target market.
pub proof fn lemma_selected_track_is_eligible(details: Tree, features: Tree, labels: Tree)
    ensures
        scan(details@, labels@, features@, 0) matches Ok(i) ==> {
            &&& 0 <= i < details@.len()
            &&& labels.spec_get(details@[i].0).is_none()
            &&& features.spec_get(details@[i].0) matches Some(v) && v != unavailable_marker()
            &&& decoded_markets(details@[i].1) matches Some(m) && markets_include(m, target_market_spec())
        },
{
    lemma_scan_picks(details@, labels@, features@, 0);
}

} // verus!
