use track_labeler::playlist::{newest_first, playlist_writes, PLAYLIST_BATCH};
use track_labeler::populate::{
    chunk_ids, missing_feature_ids, plan_feature_fetch, record_fetched_features, record_tracks,
    FEATURE_BATCH,
};
use track_labeler::signal::{next_auth_step, AuthStep, CompletionSlot, SignalError};
use track_labeler::tree::Tree;

fn id(n: usize) -> Vec<u8> {
    format!("track{:04}", n).into_bytes()
}

fn catalog(n: usize) -> Tree {
    Tree::from_records((0..n).map(|i| (id(i), b"{}".to_vec())).collect())
}

#[test]
fn missing_ids_come_in_batches_of_one_hundred() {
    let details = catalog(250);
    let features = Tree::new();
    let plan = plan_feature_fetch(&details, &features);
    assert_eq!(FEATURE_BATCH, 100);
    assert_eq!(plan.len(), 3);
    assert_eq!(plan[0].len(), 100);
    assert_eq!(plan[1].len(), 100);
    assert_eq!(plan[2].len(), 50);
    assert_eq!(plan[2][49], id(249));
}

#[test]
fn known_feature_vectors_are_not_fetched_again() {
    let details = catalog(5);
    let features = Tree::from_records(vec![(id(1), b"null".to_vec()), (id(3), b"{}".to_vec())]);
    assert_eq!(missing_feature_ids(&details, &features), vec![id(0), id(2), id(4)]);
}

#[test]
fn second_population_run_changes_nothing() {
    let details = catalog(150);
    let mut features = Tree::from_records(vec![(id(7), b"{\"x\":7}".to_vec())]);
    for batch in plan_feature_fetch(&details, &features) {
        let answer: Vec<(Vec<u8>, Vec<u8>)> =
            batch.iter().skip(1).map(|k| (k.clone(), b"{\"v\":1}".to_vec())).collect();
        record_fetched_features(&mut features, &batch, Some(answer));
    }
    assert_eq!(features.entries.len(), 150);
    assert_eq!(features.get(&id(0)), Some(&b"null".to_vec()));
    assert_eq!(features.get(&id(7)), Some(&b"{\"x\":7}".to_vec()));
    assert_eq!(features.get(&id(8)), Some(&b"{\"v\":1}".to_vec()));
    let snapshot = features.entries.clone();
    let plan = plan_feature_fetch(&details, &features);
    assert!(plan.is_empty());
    assert_eq!(features.entries, snapshot);
}

#[test]
fn missing_answer_marks_the_batch_unavailable() {
    let mut features = Tree::from_records(vec![(id(1), b"{}".to_vec())]);
    record_fetched_features(&mut features, &vec![id(2), id(3)], None);
    assert_eq!(
        features.entries,
        vec![
            (id(1), b"{}".to_vec()),
            (id(2), b"null".to_vec()),
            (id(3), b"null".to_vec())
        ]
    );
}

#[test]
fn empty_answers_are_not_fetched_again() {
    let details = catalog(3);
    let mut features = Tree::new();
    for batch in plan_feature_fetch(&details, &features) {
        record_fetched_features(&mut features, &batch, None);
    }
    assert!(plan_feature_fetch(&details, &features).is_empty());
    assert_eq!(features.get(&id(2)), Some(&b"null".to_vec()));
}

#[test]
fn answer_entries_are_matched_by_id() {
    let mut features = Tree::new();
    let answer = vec![(id(3), b"three".to_vec()), (id(2), b"two".to_vec())];
    record_fetched_features(&mut features, &vec![id(1), id(2), id(3)], Some(answer));
    assert_eq!(features.get(&id(1)), Some(&b"null".to_vec()));
    assert_eq!(features.get(&id(2)), Some(&b"two".to_vec()));
    assert_eq!(features.get(&id(3)), Some(&b"three".to_vec()));
}

#[test]
fn tracks_without_id_are_not_stored() {
    let mut details = catalog(1);
    let tracks = vec![
        (Some(id(0)), b"new".to_vec()),
        (None, b"orphan".to_vec()),
        (Some(id(5)), b"five".to_vec()),
    ];
    record_tracks(&mut details, &tracks);
    record_tracks(&mut details, &tracks);
    assert_eq!(
        details.entries,
        vec![(id(0), b"new".to_vec()), (id(5), b"five".to_vec())]
    );
}

#[test]
fn chunking_edges() {
    assert!(chunk_ids(&vec![], 100).is_empty());
    let ids: Vec<Vec<u8>> = (0..200).map(id).collect();
    let c = chunk_ids(&ids, 100);
    assert_eq!(c.len(), 2);
    assert_eq!(c[1][0], id(100));
}

#[test]
fn playlist_keeps_newest_hundred_in_batches() {
    let ids: Vec<Vec<u8>> = (0..130).map(id).collect();
    let newest = newest_first(&ids, 100);
    assert_eq!(newest.len(), 100);
    assert_eq!(newest[0], id(129));
    assert_eq!(newest[99], id(30));
    assert_eq!(newest_first(&ids[..3].to_vec(), 100), vec![id(2), id(1), id(0)]);
    let writes = playlist_writes(&ids);
    assert_eq!(PLAYLIST_BATCH, 100);
    assert_eq!(writes.len(), 2);
    assert_eq!(writes[0].0, 0);
    assert_eq!(writes[1].0, 100);
    assert_eq!(writes[1].1.len(), 30);
}

#[test]
fn completion_signal_is_taken_once() {
    let mut slot = CompletionSlot::arm(42u32);
    assert!(slot.is_armed());
    assert_eq!(slot.take(), Ok(42));
    assert!(!slot.is_armed());
    assert_eq!(slot.take(), Err(SignalError::AlreadyTaken));
}

#[test]
fn auth_step_follows_token_cache() {
    assert_eq!(next_auth_step(true), AuthStep::UseCachedToken);
    assert_eq!(next_auth_step(false), AuthStep::Authorize);
}
