use vstd::prelude::*;

use crate::tree::Tree;

verus! {

/// The stored form of a rating: a single byte.
pub fn label_record(rating: u8) -> (r: Vec<u8>)
    ensures
        r@ == seq![rating],
{
    let r = vec![rating];
    assert(r@ =~= seq![rating]);
    r
}

/// `after` is `before` with the label of `track_id` set to `rating`, and every
/// other label as it was.
pub open spec fn records_rating(before: Tree, after: Tree, track_id: Seq<u8>, rating: u8) -> bool {
    &&& after.wf()
    &&& after.spec_get(track_id) == Some(seq![rating])
    &&& forall|k: Seq<u8>| k != track_id ==> after.spec_get(k) == before.spec_get(k)
}

/// Records a rating of a track for a feature, replacing any earlier one.
pub fn rate_feature_for_track(labels: &mut Tree, track_id: Vec<u8>, rating: u8)
    requires
        old(labels).wf(),
    ensures
        records_rating(*old(labels), *final(labels), track_id@, rating),
{
    labels.insert(track_id, label_record(rating));
}

/// After a track is rated twice for a feature, the second rating is the one
/// stored.
pub proof fn lemma_latest_rating_wins(
    t0: Tree,
    t1: Tree,
    t2: Tree,
    track_id: Seq<u8>,
    first: u8,
    second: u8,
)
    requires
        records_rating(t0, t1, track_id, first),
        records_rating(t1, t2, track_id, second),
    ensures
        t2.spec_get(track_id) == Some(seq![second]),
        forall|k: Seq<u8>| k != track_id ==> t2.spec_get(k) == t0.spec_get(k),
{
}

} // verus!
