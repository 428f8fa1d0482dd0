use vstd::prelude::*;

use crate::bytes::{bytes_eq, copy_bytes};
use crate::records::{unavailable_marker, unavailable_marker_bytes, views};
use crate::tree::{has_key, Tree};

verus! {

/// How many track ids one feature-vector request carries.
pub const FEATURE_BATCH: usize = 100;

/// The ids of a list of batches, in order.
pub open spec fn flatten(batches: Seq<Seq<Seq<u8>>>) -> Seq<Seq<u8>>
    decreases batches.len(),
{
    if batches.len() == 0 {
        seq![]
    } else {
        flatten(batches.drop_last()) + batches.last()
    }
}

pub open spec fn batches_view(b: Seq<Vec<Vec<u8>>>) -> Seq<Seq<Seq<u8>>> {
    b.map_values(|c: Vec<Vec<u8>>| views(c@))
}

/// `batches` splits `ids` in order into runs of `size`, the last one possibly shorter.
pub open spec fn is_chunking(batches: Seq<Seq<Seq<u8>>>, ids: Seq<Seq<u8>>, size: int) -> bool {
    &&& flatten(batches) == ids
    &&& forall|c: int| 0 <= c < batches.len() ==> 0 < #[trigger] batches[c].len() <= size
    &&& forall|c: int| 0 <= c < batches.len() - 1 ==> #[trigger] batches[c].len() == size
}

/// Splits `ids` in order into batches of `size`, the last one possibly shorter.
pub fn chunk_ids(ids: &Vec<Vec<u8>>, size: usize) -> (r: Vec<Vec<Vec<u8>>>)
    requires
        size > 0,
    ensures
        is_chunking(batches_view(r@), views(ids@), size as int),
{
    let mut r: Vec<Vec<Vec<u8>>> = Vec::new();
    let mut start: usize = 0;
    assert(batches_view(r@) =~= seq![]);
    while start < ids.len()
        invariant
            size > 0,
            0 <= start <= ids@.len(),
            flatten(batches_view(r@)) == views(ids@).subrange(0, start as int),
            forall|c: int| 0 <= c < r@.len() ==> 0 < #[trigger] batches_view(r@)[c].len() <= size,
            start < ids@.len() ==> forall|c: int|
                0 <= c < r@.len() ==> #[trigger] batches_view(r@)[c].len() == size,
            forall|c: int| 0 <= c < r@.len() - 1 ==> #[trigger] batches_view(r@)[c].len() == size,
        decreases ids@.len() - start,
    {
        let end: usize = if ids.len() - start < size {
            ids.len()
        } else {
            start + size
        };
        let mut chunk: Vec<Vec<u8>> = Vec::new();
        let mut i: usize = start;
        while i < end
            invariant
                start <= i <= end <= ids@.len(),
                views(chunk@) == views(ids@).subrange(start as int, i as int),
            decreases end - i,
        {
            let b = copy_bytes(&ids[i]);
            let ghost prev = chunk@;
            chunk.push(b);
            assert(chunk@ == prev.push(b));
            assert(views(chunk@) =~= views(prev).push(ids@[i as int]@));
            i = i + 1;
            assert(views(chunk@) =~= views(ids@).subrange(start as int, i as int));
        }
        let ghost before = batches_view(r@);
        r.push(chunk);
        proof {
            assert(batches_view(r@) =~= before.push(views(chunk@)));
            assert(batches_view(r@).drop_last() =~= before);
            assert(views(ids@).subrange(0, end as int) =~= views(ids@).subrange(0, start as int)
                + views(ids@).subrange(start as int, end as int));
        }
        start = end;
    }
    assert(views(ids@).subrange(0, ids@.len() as int) =~= views(ids@));
    r
}

/// The keys of the first `n` metadata records that have no feature-vector record, in order.
pub open spec fn missing(
    details: Seq<(Seq<u8>, Seq<u8>)>,
    features: Seq<(Seq<u8>, Seq<u8>)>,
    n: int,
) -> Seq<Seq<u8>>
    decreases n,
{
    if n <= 0 {
        seq![]
    } else {
        let rest = missing(details, features, n - 1);
        if has_key(features, details[n - 1].0) {
            rest
        } else {
            rest.push(details[n - 1].0)
        }
    }
}

/// The tracks whose feature vectors are still to be fetched: each metadata
/// key, in store order, that has no feature-vector record.
pub fn missing_feature_ids(details: &Tree, features: &Tree) -> (r: Vec<Vec<u8>>)
    requires
        features.wf(),
    ensures
        views(r@) == missing(details@, features@, details@.len() as int),
{
    let mut r: Vec<Vec<u8>> = Vec::new();
    let mut i: usize = 0;
    assert(views(r@) =~= seq![]);
    while i < details.entries.len()
        invariant
            features.wf(),
            0 <= i <= details@.len(),
            details@.len() == details.entries@.len(),
            views(r@) == missing(details@, features@, i as int),
        decreases details@.len() - i,
    {
        let id = &details.entries[i].0;
        assert(details@[i as int].0 == id@);
        if !features.contains_key(id) {
            r.push(copy_bytes(id));
            assert(views(r@) =~= missing(details@, features@, i + 1));
        }
        i = i + 1;
    }
    r
}

/// The requests for missing feature vectors: the missing ids in batches of
/// `FEATURE_BATCH`.
pub fn plan_feature_fetch(details: &Tree, features: &Tree) -> (r: Vec<Vec<Vec<u8>>>)
    requires
        features.wf(),
    ensures
        is_chunking(
            batches_view(r@),
            missing(details@, features@, details@.len() as int),
            FEATURE_BATCH as int,
        ),
{
    let ids = missing_feature_ids(details, features);
    chunk_ids(&ids, FEATURE_BATCH)
}

/// The record to store for `id` from a service answer: the first answer
/// entry for `id`, else the unavailable marker.
pub open spec fn answer_for(answer: Seq<(Seq<u8>, Seq<u8>)>, id: Seq<u8>, i: int) -> Seq<u8>
    decreases answer.len() - i,
{
    if 0 <= i < answer.len() {
        if answer[i].0 == id {
            answer[i].1
        } else {
            answer_for(answer, id, i + 1)
        }
    } else {
        unavailable_marker()
    }
}

fn answer_value(answer: &Vec<(Vec<u8>, Vec<u8>)>, id: &Vec<u8>) -> (r: Vec<u8>)
    ensures
        r@ == answer_for(crate::tree::records_of(answer@), id@, 0),
{
    let ghost s = crate::tree::records_of(answer@);
    let mut i: usize = 0;
    while i < answer.len()
        invariant
            0 <= i <= answer@.len(),
            s == crate::tree::records_of(answer@),
            answer_for(s, id@, 0) == answer_for(s, id@, i as int),
        decreases answer@.len() - i,
    {
        assert(s[i as int] == (answer@[i as int].0@, answer@[i as int].1@));
        if bytes_eq(&answer[i].0, id) {
            return copy_bytes(&answer[i].1);
        }
        i = i + 1;
    }
    unavailable_marker_bytes()
}

/// Whether `id` is one of `batch`.
pub open spec fn in_batch(batch: Seq<Seq<u8>>, id: Seq<u8>) -> bool {
    exists|j: int| 0 <= j < batch.len() && #[trigger] batch[j] == id
}

/// The answer entries for a batch; no answer holds no entry.
pub open spec fn answer_entries(answer: Option<Vec<(Vec<u8>, Vec<u8>)>>) -> Seq<(Seq<u8>, Seq<u8>)> {
    match answer {
        Some(a) => crate::tree::records_of(a@),
        None => Seq::empty(),
    }
}

/// Stores the service's answer for one batch: each id of the batch gets the
/// feature vector the answer holds for it (ids and encoded vectors), or the
/// unavailable marker where it holds none. Where the service answered with
/// nothing at all, every id of the batch gets the marker. Keys outside the
/// batch keep their records.
pub fn record_fetched_features(
    features: &mut Tree,
    batch: &Vec<Vec<u8>>,
    answer: Option<Vec<(Vec<u8>, Vec<u8>)>>,
)
    requires
        old(features).wf(),
    ensures
        final(features).wf(),
        forall|j: int|
            0 <= j < batch@.len() ==> final(features).spec_get(#[trigger] batch@[j]@) == Some(
                answer_for(answer_entries(answer), batch@[j]@, 0),
            ),
        answer is None ==> forall|j: int|
            0 <= j < batch@.len() ==> final(features).spec_get(#[trigger] batch@[j]@) == Some(
                unavailable_marker(),
            ),
        forall|k: Seq<u8>|
            !in_batch(views(batch@), k) ==> final(features).spec_get(k) == old(features).spec_get(
                k,
            ),
{
    let ghost entries = answer_entries(answer);
    let answer = match answer {
        None => Vec::new(),
        Some(a) => a,
    };
    assert(crate::tree::records_of(answer@) =~= entries);
    let ghost a = crate::tree::records_of(answer@);
    let ghost start = *features;
    let mut i: usize = 0;
    while i < batch.len()
        invariant
            features.wf(),
            0 <= i <= batch@.len(),
            a == crate::tree::records_of(answer@),
            forall|j: int|
                0 <= j < i ==> features.spec_get(#[trigger] batch@[j]@) == Some(
                    answer_for(a, batch@[j]@, 0),
                ),
            forall|k: Seq<u8>|
                !in_batch(views(batch@).subrange(0, i as int), k) ==> features.spec_get(k)
                    == start.spec_get(k),
        decreases batch@.len() - i,
    {
        let v = answer_value(&answer, &batch[i]);
        let ghost prev = *features;
        features.insert(copy_bytes(&batch[i]), v);
        proof {
            assert forall|j: int| 0 <= j < i + 1 implies features.spec_get(#[trigger] batch@[j]@)
                == Some(answer_for(a, batch@[j]@, 0)) by {
                if j < i && batch@[j]@ != batch@[i as int]@ {
                    assert(prev.spec_get(batch@[j]@) == Some(answer_for(a, batch@[j]@, 0)));
                }
            }
            assert forall|k: Seq<u8>|
                !in_batch(views(batch@).subrange(0, i + 1), k) implies features.spec_get(k)
                == start.spec_get(k) by {
                if k == batch@[i as int]@ {
                    assert(views(batch@).subrange(0, i + 1)[i as int] == k);
                }
                if in_batch(views(batch@).subrange(0, i as int), k) {
                    let j = choose|j: int|
                        0 <= j < i && #[trigger] views(batch@).subrange(0, i as int)[j] == k;
                    assert(views(batch@).subrange(0, i + 1)[j] == k);
                }
            }
        }
        i = i + 1;
    }
    assert(views(batch@).subrange(0, batch@.len() as int) =~= views(batch@));
    assert(entries.len() == 0 ==> forall|j: int|
        0 <= j < batch@.len() ==> answer_for(entries, #[trigger] batch@[j]@, 0) == unavailable_marker());
}

/// Whether a metadata key is in `missing` exactly when it has no feature-vector record.
proof fn lemma_missing_members(
    details: Seq<(Seq<u8>, Seq<u8>)>,
    features: Seq<(Seq<u8>, Seq<u8>)>,
    n: int,
)
    requires
        0 <= n <= details.len(),
    ensures
        forall|j: int|
            0 <= j < missing(details, features, n).len() ==> !has_key(
                features,
                #[trigger] missing(details, features, n)[j],
            ),
        forall|i: int|
            0 <= i < n && !has_key(features, #[trigger] details[i].0) ==> in_batch(
                missing(details, features, n),
                details[i].0,
            ),
    decreases n,
{
    if n > 0 {
        lemma_missing_members(details, features, n - 1);
        let rest = missing(details, features, n - 1);
        let m = missing(details, features, n);
        assert forall|i: int|
            0 <= i < n && !has_key(features, #[trigger] details[i].0) implies in_batch(
            m,
            details[i].0,
        ) by {
            if i < n - 1 {
                let j = choose|j: int| 0 <= j < rest.len() && #[trigger] rest[j] == details[i].0;
                assert(m[j] == rest[j]);
            } else {
                assert(m[rest.len() as int] == details[i].0);
            }
        }
        assert forall|j: int| 0 <= j < m.len() implies !has_key(features, #[trigger] m[j]) by {
            if j < rest.len() {
                assert(m[j] == rest[j]);
            }
        }
    }
}

/// Fetching is asked only for tracks that have no feature-vector record.
pub proof fn lemma_fetch_only_missing(details: Tree, features: Tree)
    ensures
        forall|j: int|
            0 <= j < missing(details@, features@, details@.len() as int).len() ==> !has_key(
                features@,
                #[trigger] missing(details@, features@, details@.len() as int)[j],
            ),
{
    lemma_missing_members(details@, features@, details@.len() as int);
}

/// Once a run has stored a record for every id it asked for, keeping the
/// records that were there, a second run over the same tracks finds no id
/// missing and plans no batch, so it stores nothing and the feature-vector
/// namespace stays as it is.
pub proof fn lemma_second_run_fetches_nothing(details: Tree, before: Tree, after: Tree, size: int)
    requires
        forall|k: Seq<u8>| has_key(before@, k) ==> has_key(after@, k),
        forall|k: Seq<u8>|
            in_batch(missing(details@, before@, details@.len() as int), k) ==> has_key(after@, k),
    ensures
        missing(details@, after@, details@.len() as int) == Seq::<Seq<u8>>::empty(),
        forall|batches: Seq<Seq<Seq<u8>>>|
            is_chunking(batches, missing(details@, after@, details@.len() as int), size)
                ==> #[trigger] batches.len() == 0,
{
    lemma_missing_members(details@, before@, details@.len() as int);
    lemma_missing_members(details@, after@, details@.len() as int);
    let m = missing(details@, after@, details@.len() as int);
    if m.len() > 0 {
        lemma_missing_index(details@, after@, details@.len() as int, 0);
        let i = choose|i: int| 0 <= i < details@.len() && details@[i].0 == m[0];
        assert(!has_key(after@, m[0]));
        if !has_key(before@, details@[i].0) {
            assert(in_batch(missing(details@, before@, details@.len() as int), details@[i].0));
        }
    }
    assert(m =~= Seq::<Seq<u8>>::empty());
    assert forall|batches: Seq<Seq<Seq<u8>>>| is_chunking(batches, m, size) implies #[trigger] batches.len()
        == 0 by {
        if batches.len() > 0 {
            assert(0 < batches[batches.len() - 1].len());
            assert(flatten(batches) == flatten(batches.drop_last()) + batches.last());
        }
    }
}

/// Every entry of `missing` is the key of some metadata record.
proof fn lemma_missing_index(
    details: Seq<(Seq<u8>, Seq<u8>)>,
    features: Seq<(Seq<u8>, Seq<u8>)>,
    n: int,
    j: int,
)
    requires
        0 <= n <= details.len(),
        0 <= j < missing(details, features, n).len(),
    ensures
        exists|i: int| 0 <= i < n && details[i].0 == missing(details, features, n)[j],
    decreases n,
{
    let rest = missing(details, features, n - 1);
    if j < rest.len() {
        lemma_missing_index(details, features, n - 1, j);
        let i = choose|i: int| 0 <= i < n - 1 && details[i].0 == rest[j];
        assert(details[i].0 == missing(details, features, n)[j]);
    } else {
        assert(details[n - 1].0 == missing(details, features, n)[j]);
    }
}

/// The value stored under `k` after writing the first `n` of `tracks` (each an
/// optional key and a record) over a namespace where `k` held `before`;
/// tracks without a key are not stored.
pub open spec fn stored_after(
    tracks: Seq<(Option<Seq<u8>>, Seq<u8>)>,
    before: Option<Seq<u8>>,
    k: Seq<u8>,
    n: int,
) -> Option<Seq<u8>>
    decreases n,
{
    if n <= 0 {
        before
    } else if tracks[n - 1].0 == Some(k) {
        Some(tracks[n - 1].1)
    } else {
        stored_after(tracks, before, k, n - 1)
    }
}

pub open spec fn keyed_view(t: Seq<(Option<Vec<u8>>, Vec<u8>)>) -> Seq<(Option<Seq<u8>>, Seq<u8>)> {
    t.map_values(
        |e: (Option<Vec<u8>>, Vec<u8>)|
            (
                match e.0 {
                    Some(k) => Some(k@),
                    None => None,
                },
                e.1@,
            ),
    )
}

/// Writes the metadata record of every track that has a key, in order, each
/// over any earlier record of the same key.
pub fn record_tracks(details: &mut Tree, tracks: &Vec<(Option<Vec<u8>>, Vec<u8>)>)
    requires
        old(details).wf(),
    ensures
        final(details).wf(),
        forall|k: Seq<u8>|
            #[trigger] final(details).spec_get(k) == stored_after(
                keyed_view(tracks@),
                old(details).spec_get(k),
                k,
                tracks@.len() as int,
            ),
{
    let ghost start = *details;
    let ghost tv = keyed_view(tracks@);
    let mut i: usize = 0;
    while i < tracks.len()
        invariant
            details.wf(),
            0 <= i <= tracks@.len(),
            tv == keyed_view(tracks@),
            forall|k: Seq<u8>|
                #[trigger] details.spec_get(k) == stored_after(tv, start.spec_get(k), k, i as int),
        decreases tracks@.len() - i,
    {
        match &tracks[i].0 {
            Some(id) => {
                assert(tv[i as int].0 == Some(id@));
                details.insert(copy_bytes(id), copy_bytes(&tracks[i].1));
            },
            None => {
                assert(tv[i as int].0 is None);
            },
        }
        i = i + 1;
    }
}

} // verus!
