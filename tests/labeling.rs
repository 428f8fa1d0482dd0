use track_labeler::dataset::{
    feature_dataset_for_fitting, feature_dataset_for_prediction, DatasetError,
};
use track_labeler::rating::{label_record, rate_feature_for_track};
use track_labeler::records::{
    available_in, details_tree_name, feature_tree_name, features_tree_name, list_features,
    unavailable_marker_bytes,
};
use track_labeler::selector::{judge_track, random_untrained_track_for_feature, SelectError, Verdict};
use track_labeler::tree::Tree;

const T1: &str = "4iV5W9uYEdYUVa79Axb7Rh";
const T2: &str = "1301WleyT98MSxVHPZCA6M";
const T3: &str = "6rqhFgbbKwnb9MLmUQDhG6";

fn track_json(id: &str, markets: Option<&[&str]>) -> Vec<u8> {
    let markets = match markets {
        None => "null".to_string(),
        Some(ms) => format!(
            "[{}]",
            ms.iter().map(|m| format!("\"{}\"", m)).collect::<Vec<_>>().join(",")
        ),
    };
    format!(
        "{{\"artists\":[],\"available_markets\":{},\"disc_number\":1,\"duration_ms\":201000,\
         \"explicit\":false,\"external_urls\":{{}},\"id\":\"{}\",\"is_local\":false,\
         \"name\":\"song\",\"preview_url\":null,\"track_number\":1}}",
        markets, id
    )
    .into_bytes()
}

fn features_json(id: &str) -> Vec<u8> {
    format!(
        "{{\"acousticness\":0.5,\"analysis_url\":\"https://example.com/a\",\"danceability\":0.7,\
         \"duration_ms\":201000,\"energy\":0.9,\"id\":\"{}\",\"instrumentalness\":0.1,\"key\":5,\
         \"liveness\":0.2,\"loudness\":-5.5,\"mode\":1,\"speechiness\":0.05,\"tempo\":128.0,\
         \"time_signature\":4,\"track_href\":\"https://example.com/t\",\"valence\":0.6}}",
        id
    )
    .into_bytes()
}

fn key(id: &str) -> Vec<u8> {
    id.as_bytes().to_vec()
}

fn tree(records: Vec<(Vec<u8>, Vec<u8>)>) -> Tree {
    Tree::from_records(records)
}

#[test]
fn first_eligible_track_is_offered_then_none_after_rating() {
    let details = tree(vec![
        (key(T1), track_json(T1, Some(&["DE", "PL"]))),
        (key(T2), track_json(T2, Some(&["PL"]))),
    ]);
    let features = tree(vec![(key(T1), features_json(T1))]);
    let mut labels = Tree::new();
    let choice = random_untrained_track_for_feature(&details, &features, Some(&labels)).unwrap();
    assert_eq!(choice.id, key(T1));
    assert_eq!(choice.details, track_json(T1, Some(&["DE", "PL"])));
    rate_feature_for_track(&mut labels, key(T1), 1);
    let next = random_untrained_track_for_feature(&details, &features, Some(&labels));
    assert!(matches!(next, Err(SelectError::NoMoreTracks)));
}

#[test]
fn labelled_track_is_not_offered_again() {
    let details = tree(vec![
        (key(T1), track_json(T1, Some(&["PL"]))),
        (key(T2), track_json(T2, Some(&["PL"]))),
    ]);
    let features = tree(vec![(key(T1), features_json(T1)), (key(T2), features_json(T2))]);
    let labels = tree(vec![(key(T1), vec![0])]);
    let choice = random_untrained_track_for_feature(&details, &features, Some(&labels)).unwrap();
    assert_eq!(choice.id, key(T2));
}

#[test]
fn unavailable_feature_vector_is_never_offered() {
    let details = tree(vec![
        (key(T1), track_json(T1, Some(&["PL"]))),
        (key(T2), track_json(T2, Some(&["PL"]))),
    ]);
    let features = tree(vec![(key(T1), b"null".to_vec()), (key(T2), features_json(T2))]);
    let labels = Tree::new();
    let choice = random_untrained_track_for_feature(&details, &features, Some(&labels)).unwrap();
    assert_eq!(choice.id, key(T2));
}

#[test]
fn tracks_outside_the_market_are_skipped() {
    let details = tree(vec![
        (key(T1), track_json(T1, Some(&["DE"]))),
        (key(T2), track_json(T2, None)),
        (key(T3), track_json(T3, Some(&["US", "PL"]))),
    ]);
    let features = tree(vec![
        (key(T1), features_json(T1)),
        (key(T2), features_json(T2)),
        (key(T3), features_json(T3)),
    ]);
    let choice = random_untrained_track_for_feature(&details, &features, Some(&Tree::new())).unwrap();
    assert_eq!(choice.id, key(T3));
}

#[test]
fn undeclared_feature_is_reported() {
    let details = tree(vec![(key(T1), track_json(T1, Some(&["PL"])))]);
    let features = tree(vec![(key(T1), features_json(T1))]);
    let r = random_untrained_track_for_feature(&details, &features, None);
    assert!(matches!(r, Err(SelectError::UnknownFeature)));
}

#[test]
fn malformed_track_record_stops_the_scan() {
    let details = tree(vec![
        (key(T1), b"{\"name\": 3}".to_vec()),
        (key(T2), track_json(T2, Some(&["PL"]))),
    ]);
    let features = tree(vec![(key(T1), features_json(T1)), (key(T2), features_json(T2))]);
    let r = random_untrained_track_for_feature(&details, &features, Some(&Tree::new()));
    assert!(matches!(r, Err(SelectError::MalformedRecord)));
}

#[test]
fn malformed_record_of_a_skipped_track_is_not_read() {
    let details = tree(vec![
        (key(T1), b"not json".to_vec()),
        (key(T2), track_json(T2, Some(&["PL"]))),
    ]);
    let features = tree(vec![(key(T2), features_json(T2))]);
    let choice = random_untrained_track_for_feature(&details, &features, Some(&Tree::new())).unwrap();
    assert_eq!(choice.id, key(T2));
}

#[test]
fn empty_catalog_has_no_more_tracks() {
    let r = random_untrained_track_for_feature(&Tree::new(), &Tree::new(), Some(&Tree::new()));
    assert!(matches!(r, Err(SelectError::NoMoreTracks)));
}

#[test]
fn judge_track_cases() {
    let v = features_json(T1);
    let pl = Some(Some(vec![b"PL".to_vec()]));
    assert_eq!(judge_track(true, Some(&v), &pl), Verdict::Skip);
    assert_eq!(judge_track(false, None, &pl), Verdict::Skip);
    assert_eq!(judge_track(false, Some(&unavailable_marker_bytes()), &pl), Verdict::Skip);
    assert_eq!(judge_track(false, Some(&v), &None), Verdict::Fail);
    assert_eq!(judge_track(false, Some(&v), &Some(None)), Verdict::Skip);
    assert_eq!(judge_track(false, Some(&v), &Some(Some(vec![b"DE".to_vec()]))), Verdict::Skip);
    assert_eq!(judge_track(false, Some(&v), &pl), Verdict::Pick);
}

#[test]
fn market_membership() {
    assert!(available_in(&Some(vec![b"DE".to_vec(), b"PL".to_vec()]), &b"PL".to_vec()));
    assert!(!available_in(&Some(vec![b"PLX".to_vec()]), &b"PL".to_vec()));
    assert!(!available_in(&Some(vec![]), &b"PL".to_vec()));
    assert!(!available_in(&None, &b"PL".to_vec()));
}

#[test]
fn second_rating_replaces_the_first() {
    let mut labels = Tree::new();
    rate_feature_for_track(&mut labels, key(T1), 1);
    rate_feature_for_track(&mut labels, key(T2), 7);
    rate_feature_for_track(&mut labels, key(T1), 0);
    assert_eq!(labels.get(&key(T1)), Some(&vec![0u8]));
    assert_eq!(labels.get(&key(T2)), Some(&vec![7u8]));
    assert_eq!(labels.entries.len(), 2);
    assert_eq!(label_record(255), vec![255u8]);
}

#[test]
fn fitting_rows_follow_labels_with_available_vectors() {
    let features = tree(vec![
        (key(T1), features_json(T1)),
        (key(T2), b"null".to_vec()),
        (key(T3), features_json(T3)),
    ]);
    let labels = tree(vec![
        (key(T3), vec![0]),
        (key(T2), vec![1]),
        (key(T1), vec![200]),
        (b"unknown".to_vec(), vec![1]),
    ]);
    let rows = feature_dataset_for_fitting(&features, &labels).unwrap();
    assert_eq!(rows.len(), 2);
    assert_eq!(rows[0].id, key(T3));
    assert!(!rows[0].target);
    assert_eq!(rows[0].vector, features_json(T3));
    assert_eq!(rows[1].id, key(T1));
    assert!(rows[1].target);
}

#[test]
fn fitting_fails_on_malformed_vector_or_label() {
    let features = tree(vec![(key(T1), b"{\"energy\": 1}".to_vec())]);
    let labels = tree(vec![(key(T1), vec![1])]);
    assert!(matches!(
        feature_dataset_for_fitting(&features, &labels),
        Err(DatasetError::MalformedRecord)
    ));
    let features = tree(vec![(key(T1), features_json(T1))]);
    let labels = tree(vec![(key(T1), vec![])]);
    assert!(matches!(
        feature_dataset_for_fitting(&features, &labels),
        Err(DatasetError::MalformedRecord)
    ));
}

#[test]
fn fitting_with_no_labels_is_empty() {
    let features = tree(vec![(key(T1), features_json(T1))]);
    assert_eq!(feature_dataset_for_fitting(&features, &Tree::new()).unwrap().len(), 0);
}

#[test]
fn prediction_rows_cover_available_vectors_only() {
    let features = tree(vec![
        (key(T1), features_json(T1)),
        (key(T2), b"null".to_vec()),
        (key(T3), features_json(T3)),
    ]);
    let rows = feature_dataset_for_prediction(&features).unwrap();
    assert_eq!(rows.len(), 2);
    assert_eq!(rows[0].id, key(T1));
    assert_eq!(rows[1].id, key(T3));
    assert_eq!(rows[1].vector, features_json(T3));
}

#[test]
fn prediction_fails_on_malformed_vector() {
    let features = tree(vec![(key(T1), features_json(T1)), (key(T2), b"[1,2]".to_vec())]);
    assert!(matches!(
        feature_dataset_for_prediction(&features),
        Err(DatasetError::MalformedRecord)
    ));
}

#[test]
fn namespace_names() {
    assert_eq!(details_tree_name(), b"track_details".to_vec());
    assert_eq!(features_tree_name(), b"track_features".to_vec());
    assert_eq!(feature_tree_name(&b"energetic".to_vec()), b"input/energetic".to_vec());
    let names = vec![
        b"__sled__default".to_vec(),
        b"track_details".to_vec(),
        b"input/energetic".to_vec(),
        b"input/".to_vec(),
        b"inpu".to_vec(),
        b"input/workout".to_vec(),
    ];
    assert_eq!(
        list_features(&names),
        vec![b"energetic".to_vec(), b"".to_vec(), b"workout".to_vec()]
    );
}

#[test]
fn tree_keeps_one_record_per_key() {
    let t = tree(vec![
        (key(T1), vec![1]),
        (key(T2), vec![2]),
        (key(T1), vec![3]),
    ]);
    assert_eq!(t.entries, vec![(key(T1), vec![3]), (key(T2), vec![2])]);
    assert!(t.contains_key(&key(T2)));
    assert!(!t.contains_key(&key(T3)));
    assert_eq!(t.get(&key(T3)), None);
}

#[test]
fn unavailable_label_contributes_no_row() {
    let features = tree(vec![(key(T1), features_json(T1)), (key(T2), b"null".to_vec())]);
    let with = tree(vec![(key(T2), vec![1]), (key(T1), vec![3])]);
    let without = tree(vec![(key(T1), vec![3])]);
    let a = feature_dataset_for_fitting(&features, &with).unwrap();
    let b = feature_dataset_for_fitting(&features, &without).unwrap();
    assert_eq!(a.len(), 1);
    assert_eq!(b.len(), 1);
    assert_eq!(a[0].id, b[0].id);
    assert_eq!(a[0].vector, b[0].vector);
    assert_eq!(a[0].target, b[0].target);
}
