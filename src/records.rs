use vstd::prelude::*;

use crate::bytes::{concat, strip_prefix};

verus! {

/// Name of the namespace that holds each track's metadata (`track_details`).
pub open spec fn details_tree_spec() -> Seq<u8> {
    seq![116u8, 114, 97, 99, 107, 95, 100, 101, 116, 97, 105, 108, 115]
}

/// Name of the namespace that holds each track's audio-feature vector (`track_features`).
pub open spec fn features_tree_spec() -> Seq<u8> {
    seq![116u8, 114, 97, 99, 107, 95, 102, 101, 97, 116, 117, 114, 101, 115]
}

/// Prefix of every label namespace (`input/`).
pub open spec fn label_prefix_spec() -> Seq<u8> {
    seq![105u8, 110, 112, 117, 116, 47]
}

/// The stored form of a feature vector that the music service does not have (`null`).
pub open spec fn unavailable_marker() -> Seq<u8> {
    seq![110u8, 117, 108, 108]
}

/// The market that a track must be available in to be offered for labelling (`PL`).
pub open spec fn target_market_spec() -> Seq<u8> {
    seq![80u8, 76]
}

pub fn details_tree_name() -> (r: Vec<u8>)
    ensures
        r@ == details_tree_spec(),
{
    let r = vec![116u8, 114, 97, 99, 107, 95, 100, 101, 116, 97, 105, 108, 115];
    assert(r@ =~= details_tree_spec());
    r
}

pub fn features_tree_name() -> (r: Vec<u8>)
    ensures
        r@ == features_tree_spec(),
{
    let r = vec![116u8, 114, 97, 99, 107, 95, 102, 101, 97, 116, 117, 114, 101, 115];
    assert(r@ =~= features_tree_spec());
    r
}

pub fn label_prefix() -> (r: Vec<u8>)
    ensures
        r@ == label_prefix_spec(),
{
    let r = vec![105u8, 110, 112, 117, 116, 47];
    assert(r@ =~= label_prefix_spec());
    r
}

pub fn unavailable_marker_bytes() -> (r: Vec<u8>)
    ensures
        r@ == unavailable_marker(),
{
    let r = vec![110u8, 117, 108, 108];
    assert(r@ =~= unavailable_marker());
    r
}

pub fn target_market() -> (r: Vec<u8>)
    ensures
        r@ == target_market_spec(),
{
    let r = vec![80u8, 76];
    assert(r@ =~= target_market_spec());
    r
}

/// Name of the label namespace of feature `feature`.
pub open spec fn label_tree_spec(feature: Seq<u8>) -> Seq<u8> {
    label_prefix_spec() + feature
}

/// Name of the namespace that holds the labels of `feature`.
pub fn feature_tree_name(feature: &Vec<u8>) -> (r: Vec<u8>)
    ensures
        r@ == label_tree_spec(feature@),
{
    concat(&label_prefix(), feature)
}

/// The declared feature names among the store's namespace names, in the
/// store's order: each name that carries the label prefix, without it.
pub open spec fn features_of(names: Seq<Seq<u8>>) -> Seq<Seq<u8>>
    decreases names.len(),
{
    if names.len() == 0 {
        seq![]
    } else {
        let rest = features_of(names.drop_last());
        let n = names.last();
        if n.len() >= label_prefix_spec().len() && n.subrange(0, label_prefix_spec().len() as int)
            == label_prefix_spec() {
            rest.push(n.subrange(label_prefix_spec().len() as int, n.len() as int))
        } else {
            rest
        }
    }
}

/// Lists the declared features, given the names of the store's namespaces.
pub fn list_features(tree_names: &Vec<Vec<u8>>) -> (r: Vec<Vec<u8>>)
    ensures
        views(r@) == features_of(views(tree_names@)),
{
    let prefix = label_prefix();
    let mut r: Vec<Vec<u8>> = Vec::new();
    let mut i: usize = 0;
    while i < tree_names.len()
        invariant
            0 <= i <= tree_names@.len(),
            prefix@ == label_prefix_spec(),
            views(r@) == features_of(
                views(tree_names@.subrange(0, i as int)),
            ),
        decreases tree_names@.len() - i,
    {
        let ghost pre = views(tree_names@.subrange(0, i as int));
        let ghost post = views(tree_names@.subrange(0, i + 1));
        assert(post.drop_last() =~= pre);
        assert(post.last() == tree_names@[i as int]@);
        match strip_prefix(&tree_names[i], &prefix) {
            Some(f) => {
                r.push(f);
                assert(views(r@) =~= features_of(post));
            },
            None => {
                assert(views(r@) =~= features_of(post));
            },
        }
        i = i + 1;
    }
    assert(tree_names@.subrange(0, tree_names@.len() as int) =~= tree_names@);
    r
}

/// The views of a sequence of byte strings.
pub open spec fn views(v: Seq<Vec<u8>>) -> Seq<Seq<u8>> {
    v.map_values(|s: Vec<u8>| s@)
}

/// What decoding a stored track record yields: `None` where the bytes are
/// not a track, else the list of markets the track is available in, if the
/// record carries one.
pub uninterp spec fn decoded_markets(record: Seq<u8>) -> Option<Option<Seq<Seq<u8>>>>;

/// What decoding a stored feature-vector record yields: `None` where the
/// bytes are malformed, else whether a feature vector is present.
pub uninterp spec fn decoded_availability(record: Seq<u8>) -> Option<bool>;

pub open spec fn markets_view(m: Option<Option<Vec<Vec<u8>>>>) -> Option<Option<Seq<Seq<u8>>>> {
    match m {
        None => None,
        Some(o) => Some(opt_views(o)),
    }
}

/// Relies on `serde_json::from_slice` decoding an `rspotify::model::SimplifiedTrack`,
/// of which only `available_markets` is kept, each market as its UTF-8 bytes.
#[verifier::external_body]
pub(crate) fn decode_track_markets(record: &Vec<u8>) -> (r: Option<Option<Vec<Vec<u8>>>>)
    ensures
        markets_view(r) == decoded_markets(record@),
{
    match serde_json::from_slice::<rspotify::model::SimplifiedTrack>(record) {
        Ok(track) => Some(
            track.available_markets.map(|ms| ms.into_iter().map(String::into_bytes).collect()),
        ),
        Err(_) => None,
    }
}

/// Relies on `serde_json::from_slice` decoding an
/// `Option<rspotify::model::AudioFeatures>`: whether it succeeds, and whether a
/// vector is present. serde_json's `deserialize_option` reads the literal
/// `null` as `None`.
#[verifier::external_body]
pub(crate) fn decode_feature_availability(record: &Vec<u8>) -> (r: Option<bool>)
    ensures
        r == decoded_availability(record@),
        record@ == unavailable_marker() ==> r == Some(false),
{
    match serde_json::from_slice::<Option<rspotify::model::AudioFeatures>>(record) {
        Ok(Some(_)) => Some(true),
        Ok(None) => Some(false),
        Err(_) => None,
    }
}

/// Whether a market list read from a track record includes `market`.
pub open spec fn markets_include(markets: Option<Seq<Seq<u8>>>, market: Seq<u8>) -> bool {
    match markets {
        None => false,
        Some(ms) => list_has(ms, market),
    }
}

/// The view of an optional list of byte strings.
pub open spec fn opt_views(m: Option<Vec<Vec<u8>>>) -> Option<Seq<Seq<u8>>> {
    match m {
        None => None,
        Some(v) => Some(views(v@)),
    }
}

/// Whether `m` occurs in `ms`.
pub open spec fn list_has(ms: Seq<Seq<u8>>, m: Seq<u8>) -> bool {
    exists|i: int| 0 <= i < ms.len() && #[trigger] ms[i] == m
}

/// Whether a decoded market list includes `market`; a track without a list
/// is available nowhere.
pub fn available_in(markets: &Option<Vec<Vec<u8>>>, market: &Vec<u8>) -> (r: bool)
    ensures
        r == markets_include(opt_views(*markets), market@),
{
    match markets {
        None => false,
        Some(ms) => {
            let ghost mv = views(ms@);
            assert(opt_views(*markets) == Some(mv));
            let mut i: usize = 0;
            while i < ms.len()
                invariant
                    0 <= i <= ms@.len(),
                    mv == views(ms@),
                    opt_views(*markets) == Some(mv),
                    forall|j: int| 0 <= j < i ==> ms@[j]@ != market@,
                decreases ms@.len() - i,
            {
                if crate::bytes::bytes_eq(&ms[i], market) {
                    assert(ms@[i as int]@ == market@);
                    assert(mv[i as int] == market@);
                    assert(list_has(mv, market@));
                    return true;
                }
                i = i + 1;
            }
            assert(!list_has(mv, market@)) by {
                assert forall|j: int| 0 <= j < mv.len() implies mv[j] != market@ by {
                    assert(mv[j] == ms@[j]@);
                }
            }
            false
        },
    }
}

} // verus!
