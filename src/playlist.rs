use vstd::prelude::*;

use crate::bytes::copy_bytes;
use crate::populate::{batches_view, chunk_ids, flatten, is_chunking};
use crate::records::views;

verus! {

/// How many tracks one playlist write carries.
pub const PLAYLIST_BATCH: usize = 100;

/// The last `n` items, newest first: the list reversed and cut to `n`.
pub fn newest_first(items: &Vec<Vec<u8>>, n: usize) -> (r: Vec<Vec<u8>>)
    ensures
        r@.len() == if n < items@.len() {
            n as int
        } else {
            items@.len() as int
        },
        forall|k: int| 0 <= k < r@.len() ==> #[trigger] r@[k]@ == items@[items@.len() - 1 - k]@,
{
    let mut r: Vec<Vec<u8>> = Vec::new();
    let mut i: usize = items.len();
    while i > 0 && r.len() < n
        invariant
            0 <= i <= items@.len(),
            r@.len() == items@.len() - i,
            r@.len() <= n,
            forall|k: int| 0 <= k < r@.len() ==> #[trigger] r@[k]@ == items@[items@.len() - 1 - k]@,
        decreases i,
    {
        i = i - 1;
        r.push(copy_bytes(&items[i]));
    }
    r
}

proof fn lemma_flatten_prefix_len(b: Seq<Seq<Seq<u8>>>, c: int)
    requires
        0 <= c <= b.len(),
    ensures
        flatten(b.subrange(0, c)).len() <= flatten(b).len(),
    decreases b.len(),
{
    if c < b.len() {
        assert(b.drop_last().subrange(0, c) =~= b.subrange(0, c));
        lemma_flatten_prefix_len(b.drop_last(), c);
    } else {
        assert(b.subrange(0, c) =~= b);
    }
}

/// The writes that fill a playlist with `ids`: the ids in batches of
/// `PLAYLIST_BATCH`, each with the position at which its first id goes.
pub fn playlist_writes(ids: &Vec<Vec<u8>>) -> (r: Vec<(usize, Vec<Vec<u8>>)>)
    ensures
        is_chunking(
            batches_view(r@.map_values(|w: (usize, Vec<Vec<u8>>)| w.1)),
            views(ids@),
            PLAYLIST_BATCH as int,
        ),
        forall|c: int|
            0 <= c < r@.len() ==> #[trigger] r@[c].0 == flatten(
                batches_view(r@.map_values(|w: (usize, Vec<Vec<u8>>)| w.1)).subrange(0, c),
            ).len(),
{
    let batches = chunk_ids(ids, PLAYLIST_BATCH);
    let ghost bv = batches_view(batches@);
    let mut r: Vec<(usize, Vec<Vec<u8>>)> = Vec::new();
    let total: usize = ids.len();
    let mut offset: usize = 0;
    let mut c: usize = 0;
    assert(bv.subrange(0, 0) =~= Seq::<Seq<Seq<u8>>>::empty());
    while c < batches.len()
        invariant
            bv == batches_view(batches@),
            total == ids@.len(),
            is_chunking(bv, views(ids@), PLAYLIST_BATCH as int),
            0 <= c <= batches@.len(),
            r@.len() == c,
            batches_view(r@.map_values(|w: (usize, Vec<Vec<u8>>)| w.1)) == bv.subrange(0, c as int),
            offset == flatten(bv.subrange(0, c as int)).len(),
            forall|j: int|
                0 <= j < c ==> #[trigger] r@[j].0 == flatten(bv.subrange(0, j)).len(),
        decreases batches@.len() - c,
    {
        let mut batch: Vec<Vec<u8>> = Vec::new();
        let mut i: usize = 0;
        while i < batches[c].len()
            invariant
                c < batches@.len(),
                0 <= i <= batches@[c as int]@.len(),
                views(batch@) == views(batches@[c as int]@).subrange(0, i as int),
            decreases batches@[c as int]@.len() - i,
        {
            let b = copy_bytes(&batches[c][i]);
            let ghost prev = batch@;
            batch.push(b);
            assert(views(batch@) =~= views(prev).push(batches@[c as int]@[i as int]@));
            i = i + 1;
            assert(views(batch@) =~= views(batches@[c as int]@).subrange(0, i as int));
        }
        assert(views(batches@[c as int]@).subrange(0, i as int) =~= views(batches@[c as int]@));
        proof {
            assert(bv.subrange(0, c + 1).drop_last() =~= bv.subrange(0, c as int));
            lemma_flatten_prefix_len(bv, c + 1);
            assert(bv.subrange(0, c + 1).last() == bv[c as int]);
            assert(flatten(bv.subrange(0, c + 1)) == flatten(bv.subrange(0, c as int)) + bv[c as int]);
            assert(bv[c as int] == views(batches@[c as int]@));
            assert(views(batch@).len() == batch@.len());
            assert(flatten(bv).len() == ids@.len());
        }
        let len = batch.len();
        let ghost before = r@;
        r.push((offset, batch));
        proof {
            assert(r@.map_values(|w: (usize, Vec<Vec<u8>>)| w.1) =~= before.map_values(
                |w: (usize, Vec<Vec<u8>>)| w.1,
            ).push(batch));
            assert(batches_view(r@.map_values(|w: (usize, Vec<Vec<u8>>)| w.1)) =~= bv.subrange(
                0,
                c + 1,
            ));
        }
        offset = offset + len;
        c = c + 1;
    }
    assert(bv.subrange(0, c as int) =~= bv);
    r
}

} // verus!
