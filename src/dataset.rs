use vstd::prelude::*;

use crate::bytes::copy_bytes;
use crate::records::{decode_feature_availability, decoded_availability, unavailable_marker};
use crate::selector::{lemma_selected_track_is_eligible, scan};
use crate::tree::{lemma_lookup_at, lookup, Tree};

verus! {

/// Why a dataset could not be assembled.
#[derive(Debug, Clone, Copy, PartialEq, Eq, Structural)]
pub enum DatasetError {
    /// A stored feature vector or label does not have the expected shape.
    MalformedRecord,
}

/// One row of the fitting dataset: a labelled track's key, its stored
/// feature vector, and whether the label is positive.
#[derive(Debug)]
pub struct LabelledRow {
    pub id: Vec<u8>,
    pub vector: Vec<u8>,
    pub target: bool,
}

/// One row of the prediction dataset: a track's key and its stored feature vector.
#[derive(Debug)]
pub struct TrackRow {
    pub id: Vec<u8>,
    pub vector: Vec<u8>,
}

pub open spec fn labelled_view(rows: Seq<LabelledRow>) -> Seq<(Seq<u8>, Seq<u8>, bool)> {
    rows.map_values(|r: LabelledRow| (r.id@, r.vector@, r.target))
}

pub open spec fn track_view(rows: Seq<TrackRow>) -> Seq<(Seq<u8>, Seq<u8>)> {
    rows.map_values(|r: TrackRow| (r.id@, r.vector@))
}

/// What a stored feature-vector record holds: `None` where it is malformed,
/// else whether it holds a vector. The unavailable marker holds none.
pub open spec fn vector_state(record: Seq<u8>) -> Option<bool> {
    if record == unavailable_marker() {
        Some(false)
    } else {
        decoded_availability(record)
    }
}

/// Whether a stored feature-vector record holds a vector.
pub open spec fn vector_available(record: Seq<u8>) -> bool {
    vector_state(record) == Some(true)
}

/// What one label record `(id, label)` contributes to the fitting dataset.
pub open spec fn fitting_step(
    features: Seq<(Seq<u8>, Seq<u8>)>,
    id: Seq<u8>,
    label: Seq<u8>,
) -> Result<Option<(Seq<u8>, Seq<u8>, bool)>, DatasetError> {
    match lookup(features, id) {
        None => Ok(None),
        Some(v) => match vector_state(v) {
            None => Err(DatasetError::MalformedRecord),
            Some(false) => Ok(None),
            Some(true) => if label.len() == 0 {
                Err(DatasetError::MalformedRecord)
            } else {
                Ok(Some((id, v, label[0] > 0)))
            },
        },
    }
}

/// The fitting dataset built from the first `n` label records.
pub open spec fn fitting_rows(
    labels: Seq<(Seq<u8>, Seq<u8>)>,
    features: Seq<(Seq<u8>, Seq<u8>)>,
    n: int,
) -> Result<Seq<(Seq<u8>, Seq<u8>, bool)>, DatasetError>
    decreases n,
{
    if n <= 0 {
        Ok(seq![])
    } else {
        match fitting_rows(labels, features, n - 1) {
            Err(e) => Err(e),
            Ok(rows) => match fitting_step(features, labels[n - 1].0, labels[n - 1].1) {
                Err(e) => Err(e),
                Ok(None) => Ok(rows),
                Ok(Some(row)) => Ok(rows.push(row)),
            },
        }
    }
}

/// The prediction dataset built from the first `n` feature-vector records.
pub open spec fn prediction_rows(features: Seq<(Seq<u8>, Seq<u8>)>, n: int) -> Result<
    Seq<(Seq<u8>, Seq<u8>)>,
    DatasetError,
>
    decreases n,
{
    if n <= 0 {
        Ok(seq![])
    } else {
        match prediction_rows(features, n - 1) {
            Err(e) => Err(e),
            Ok(rows) => match vector_state(features[n - 1].1) {
                None => Err(DatasetError::MalformedRecord),
                Some(false) => Ok(rows),
                Some(true) => Ok(rows.push(features[n - 1])),
            },
        }
    }
}

/// Once the fitting dataset fails on a prefix, it fails on every longer one.
proof fn lemma_fitting_error_stays(
    labels: Seq<(Seq<u8>, Seq<u8>)>,
    features: Seq<(Seq<u8>, Seq<u8>)>,
    n: int,
    m: int,
)
    requires
        0 <= n <= m,
        fitting_rows(labels, features, n) is Err,
    ensures
        fitting_rows(labels, features, m) == fitting_rows(labels, features, n),
    decreases m - n,
{
    if n < m {
        lemma_fitting_error_stays(labels, features, n, m - 1);
    }
}

/// Once the prediction dataset fails on a prefix, it fails on every longer one.
proof fn lemma_prediction_error_stays(features: Seq<(Seq<u8>, Seq<u8>)>, n: int, m: int)
    requires
        0 <= n <= m,
        prediction_rows(features, n) is Err,
    ensures
        prediction_rows(features, m) == prediction_rows(features, n),
    decreases m - n,
{
    if n < m {
        lemma_prediction_error_stays(features, n, m - 1);
    }
}

/// Assembles the rows for fitting a classifier of one feature: for each label
/// record in store order whose track has an available feature vector, that
/// vector with the label read as a boolean (nonzero is positive).
pub fn feature_dataset_for_fitting(features: &Tree, labels: &Tree) -> (r: Result<
    Vec<LabelledRow>,
    DatasetError,
>)
    requires
        features.wf(),
    ensures
        match fitting_rows(labels@, features@, labels@.len() as int) {
            Ok(rows) => r matches Ok(v) && labelled_view(v@) == rows,
            Err(e) => r matches Err(e2) && e2 == e,
        },
{
    let mut rows: Vec<LabelledRow> = Vec::new();
    assert(labelled_view(rows@) =~= seq![]);
    let mut i: usize = 0;
    while i < labels.entries.len()
        invariant
            features.wf(),
            0 <= i <= labels@.len(),
            labels@.len() == labels.entries@.len(),
            fitting_rows(labels@, features@, i as int) == Ok::<
                Seq<(Seq<u8>, Seq<u8>, bool)>,
                DatasetError,
            >(labelled_view(rows@)),
        decreases labels@.len() - i,
    {
        let id = &labels.entries[i].0;
        let label = &labels.entries[i].1;
        assert(labels@[i as int] == (id@, label@));
        match features.get(id) {
            None => {},
            Some(v) => {
                match decode_feature_availability(v) {
                    None => {
                        proof {
                            lemma_fitting_error_stays(labels@, features@, i + 1, labels@.len() as int);
                        }
                        return Err(DatasetError::MalformedRecord);
                    },
                    Some(false) => {},
                    Some(true) => {
                        if label.len() == 0 {
                            proof {
                                lemma_fitting_error_stays(labels@, features@, i + 1, labels@.len() as int);
                            }
                            return Err(DatasetError::MalformedRecord);
                        }
                        let row = LabelledRow {
                            id: copy_bytes(id),
                            vector: copy_bytes(v),
                            target: label[0] > 0,
                        };
                        rows.push(row);
                    },
                }
            },
        }
        assert(labelled_view(rows@) =~= match fitting_rows(labels@, features@, i + 1) {
            Ok(s) => s,
            Err(_) => seq![],
        });
        i = i + 1;
    }
    Ok(rows)
}

/// Assembles the rows for scoring every known track: each feature-vector
/// record in store order that holds a vector, tagged with its track's key.
pub fn feature_dataset_for_prediction(features: &Tree) -> (r: Result<Vec<TrackRow>, DatasetError>)
    ensures
        match prediction_rows(features@, features@.len() as int) {
            Ok(rows) => r matches Ok(v) && track_view(v@) == rows,
            Err(e) => r matches Err(e2) && e2 == e,
        },
{
    let mut rows: Vec<TrackRow> = Vec::new();
    assert(track_view(rows@) =~= seq![]);
    let mut i: usize = 0;
    while i < features.entries.len()
        invariant
            0 <= i <= features@.len(),
            features@.len() == features.entries@.len(),
            prediction_rows(features@, i as int) == Ok::<Seq<(Seq<u8>, Seq<u8>)>, DatasetError>(
                track_view(rows@),
            ),
        decreases features@.len() - i,
    {
        let id = &features.entries[i].0;
        let v = &features.entries[i].1;
        assert(features@[i as int] == (id@, v@));
        match decode_feature_availability(v) {
            None => {
                proof {
                    lemma_prediction_error_stays(features@, i + 1, features@.len() as int);
                }
                return Err(DatasetError::MalformedRecord);
            },
            Some(false) => {},
            Some(true) => {
                rows.push(TrackRow { id: copy_bytes(id), vector: copy_bytes(v) });
            },
        }
        assert(track_view(rows@) =~= match prediction_rows(features@, i + 1) {
            Ok(s) => s,
            Err(_) => seq![],
        });
        i = i + 1;
    }
    Ok(rows)
}

/// Number of the first `n` label records whose track has an available feature vector.
pub open spec fn labelled_available_count(
    labels: Seq<(Seq<u8>, Seq<u8>)>,
    features: Seq<(Seq<u8>, Seq<u8>)>,
    n: int,
) -> nat
    decreases n,
{
    if n <= 0 {
        0
    } else {
        labelled_available_count(labels, features, n - 1) + match lookup(features, labels[n - 1].0) {
            Some(v) => if vector_available(v) {
                1nat
            } else {
                0nat
            },
            None => 0nat,
        }
    }
}

/// Number of the first `n` feature-vector records that hold a vector.
pub open spec fn available_count(features: Seq<(Seq<u8>, Seq<u8>)>, n: int) -> nat
    decreases n,
{
    if n <= 0 {
        0
    } else {
        available_count(features, n - 1) + if vector_available(features[n - 1].1) {
            1nat
        } else {
            0nat
        }
    }
}

proof fn lemma_fitting_rows_prefix(
    labels: Seq<(Seq<u8>, Seq<u8>)>,
    features: Seq<(Seq<u8>, Seq<u8>)>,
    n: int,
)
    requires
        0 <= n <= labels.len(),
    ensures
        fitting_rows(labels, features, n) matches Ok(rows) ==> {
            &&& rows.len() == labelled_available_count(labels, features, n)
            &&& forall|k: int|
                #![trigger rows[k]]
                0 <= k < rows.len() ==> exists|j: int|
                    0 <= j < n && #[trigger] labels[j].0 == rows[k].0 && labels[j].1.len() > 0
                        && rows[k].2 == (labels[j].1[0] > 0) && lookup(features, rows[k].0) == Some(
                        rows[k].1,
                    ) && vector_available(rows[k].1)
        },
    decreases n,
{
    if n > 0 {
        lemma_fitting_rows_prefix(labels, features, n - 1);
        if let Ok(rows) = fitting_rows(labels, features, n) {
            let prev = fitting_rows(labels, features, n - 1)->Ok_0;
            assert forall|k: int| #![trigger rows[k]] 0 <= k < rows.len() implies exists|j: int|
                0 <= j < n && #[trigger] labels[j].0 == rows[k].0 && labels[j].1.len() > 0
                    && rows[k].2 == (labels[j].1[0] > 0) && lookup(features, rows[k].0) == Some(
                    rows[k].1,
                ) && vector_available(rows[k].1) by {
                if k < prev.len() {
                    assert(rows[k] == prev[k]);
                    let j = choose|j: int|
                        0 <= j < n - 1 && #[trigger] labels[j].0 == prev[k].0 && labels[j].1.len()
                            > 0 && prev[k].2 == (labels[j].1[0] > 0) && lookup(features, prev[k].0)
                            == Some(prev[k].1) && vector_available(prev[k].1);
                    assert(labels[j].0 == rows[k].0);
                } else {
                    assert(labels[n - 1].0 == rows[k].0);
                }
            }
        }
    }
}

/// The fitting dataset has one row for each label record of the feature whose
/// track has an available feature vector, and each row's target is whether
/// that record's label byte is nonzero.
pub proof fn lemma_fitting_rows_follow_labels(features: Tree, labels: Tree)
    ensures
        fitting_rows(labels@, features@, labels@.len() as int) matches Ok(rows) ==> {
            &&& rows.len() == labelled_available_count(labels@, features@, labels@.len() as int)
            &&& forall|k: int|
                #![trigger rows[k]]
                0 <= k < rows.len() ==> exists|j: int|
                    0 <= j < labels@.len() && #[trigger] labels@[j].0 == rows[k].0
                        && labels@[j].1.len() > 0 && rows[k].2 == (labels@[j].1[0] > 0)
                        && features.spec_get(rows[k].0) == Some(rows[k].1) && vector_available(
                        rows[k].1,
                    )
        },
{
    lemma_fitting_rows_prefix(labels@, features@, labels@.len() as int);
}

proof fn lemma_prediction_rows_prefix(features: Seq<(Seq<u8>, Seq<u8>)>, n: int)
    requires
        0 <= n <= features.len(),
    ensures
        prediction_rows(features, n) matches Ok(rows) ==> {
            &&& rows.len() == available_count(features, n)
            &&& forall|k: int|
                #![trigger rows[k]]
                0 <= k < rows.len() ==> exists|j: int|
                    0 <= j < n && #[trigger] features[j] == rows[k] && vector_available(rows[k].1)
        },
    decreases n,
{
    if n > 0 {
        lemma_prediction_rows_prefix(features, n - 1);
        if let Ok(rows) = prediction_rows(features, n) {
            let prev = prediction_rows(features, n - 1)->Ok_0;
            assert forall|k: int| #![trigger rows[k]] 0 <= k < rows.len() implies exists|j: int|
                0 <= j < n && #[trigger] features[j] == rows[k] && vector_available(rows[k].1) by {
                if k < prev.len() {
                    assert(rows[k] == prev[k]);
                    let j = choose|j: int|
                        0 <= j < n - 1 && #[trigger] features[j] == prev[k] && vector_available(
                            prev[k].1,
                        );
                    assert(features[j] == rows[k]);
                } else {
                    assert(features[n - 1] == rows[k]);
                }
            }
        }
    }
}

/// The prediction dataset has one row for each stored feature vector that is
/// available, whatever the labels, and each row is such a record.
pub proof fn lemma_prediction_rows_cover_available(features: Tree)
    ensures
        prediction_rows(features@, features@.len() as int) matches Ok(rows) ==> {
            &&& rows.len() == available_count(features@, features@.len() as int)
            &&& forall|k: int|
                #![trigger rows[k]]
                0 <= k < rows.len() ==> exists|j: int|
                    0 <= j < features@.len() && #[trigger] features@[j] == rows[k]
                        && vector_available(rows[k].1)
        },
{
    lemma_prediction_rows_prefix(features@, features@.len() as int);
}

/// A track whose stored feature vector is the unavailable marker is never
/// offered for labelling, for any feature, and is in neither dataset.
pub proof fn lemma_unavailable_track_excluded(
    details: Tree,
    features: Tree,
    labels: Tree,
    id: Seq<u8>,
)
    requires
        features.wf(),
        features.spec_get(id) == Some(unavailable_marker()),
    ensures
        scan(details@, labels@, features@, 0) matches Ok(i) ==> details@[i].0 != id,
        fitting_rows(labels@, features@, labels@.len() as int) matches Ok(rows) ==> forall|k: int|
            0 <= k < rows.len() ==> #[trigger] rows[k].0 != id,
        prediction_rows(features@, features@.len() as int) matches Ok(rows) ==> forall|k: int|
            0 <= k < rows.len() ==> #[trigger] rows[k].0 != id,
{
    lemma_selected_track_is_eligible(details, features, labels);
    lemma_fitting_rows_follow_labels(features, labels);
    lemma_prediction_rows_cover_available(features);
    if let Ok(rows) = prediction_rows(features@, features@.len() as int) {
        assert forall|k: int| 0 <= k < rows.len() implies #[trigger] rows[k].0 != id by {
            let j = choose|j: int|
                0 <= j < features@.len() && #[trigger] features@[j] == rows[k] && vector_available(
                    rows[k].1,
                );
            lemma_lookup_at(features@, j);
        }
    }
}

/// Every stored feature-vector record other than the unavailable marker
/// decodes to a present vector.
pub open spec fn vectors_decode(features: Seq<(Seq<u8>, Seq<u8>)>) -> bool {
    forall|i: int|
        0 <= i < features.len() && #[trigger] features[i].1 != unavailable_marker()
            ==> decoded_availability(features[i].1) == Some(true)
}

/// Every label record holds at least one byte.
pub open spec fn labels_nonempty(labels: Seq<(Seq<u8>, Seq<u8>)>) -> bool {
    forall|i: int| 0 <= i < labels.len() ==> #[trigger] labels[i].1.len() > 0
}

/// The first `n` label records, in order, whose track has a feature-vector
/// record other than the marker, each as its key, that record, and whether
/// its label byte is nonzero.
pub open spec fn present_labelled(
    labels: Seq<(Seq<u8>, Seq<u8>)>,
    features: Seq<(Seq<u8>, Seq<u8>)>,
    n: int,
) -> Seq<(Seq<u8>, Seq<u8>, bool)>
    decreases n,
{
    if n <= 0 {
        seq![]
    } else {
        let rest = present_labelled(labels, features, n - 1);
        match lookup(features, labels[n - 1].0) {
            Some(v) => if v != unavailable_marker() {
                rest.push((labels[n - 1].0, v, labels[n - 1].1[0] > 0))
            } else {
                rest
            },
            None => rest,
        }
    }
}

/// The first `n` feature-vector records, in order, other than the marker.
pub open spec fn present_vectors(features: Seq<(Seq<u8>, Seq<u8>)>, n: int) -> Seq<
    (Seq<u8>, Seq<u8>),
>
    decreases n,
{
    if n <= 0 {
        seq![]
    } else {
        let rest = present_vectors(features, n - 1);
        if features[n - 1].1 != unavailable_marker() {
            rest.push(features[n - 1])
        } else {
            rest
        }
    }
}

/// Under `vectors_decode`, a value that `lookup` finds is available unless it is the marker.
proof fn lemma_found_value_decodes(features: Seq<(Seq<u8>, Seq<u8>)>, k: Seq<u8>)
    requires
        crate::tree::keys_unique(features),
        vectors_decode(features),
    ensures
        lookup(features, k) matches Some(v) ==> (v != unavailable_marker() ==> vector_available(v)),
{
    if lookup(features, k) is Some {
        let i = choose|i: int| 0 <= i < features.len() && #[trigger] features[i].0 == k;
        lemma_lookup_at(features, i);
        assert(features[i].1 != unavailable_marker() ==> decoded_availability(features[i].1) == Some(
            true,
        ));
    }
}

proof fn lemma_fitting_rows_present(
    labels: Seq<(Seq<u8>, Seq<u8>)>,
    features: Seq<(Seq<u8>, Seq<u8>)>,
    n: int,
)
    requires
        0 <= n <= labels.len(),
        crate::tree::keys_unique(features),
        vectors_decode(features),
        labels_nonempty(labels),
    ensures
        fitting_rows(labels, features, n) == Ok::<Seq<(Seq<u8>, Seq<u8>, bool)>, DatasetError>(
            present_labelled(labels, features, n),
        ),
    decreases n,
{
    if n > 0 {
        lemma_fitting_rows_present(labels, features, n - 1);
        lemma_found_value_decodes(features, labels[n - 1].0);
        assert(labels[n - 1].1.len() > 0);
    }
}

/// Where every label holds a byte and every stored vector other than the
/// marker decodes, the fitting dataset is exactly the label records, in
/// order, whose track has an available feature vector: one row each, with
/// row i's target the i-th such record's label byte being nonzero.
pub proof fn lemma_fitting_rows_are_present_labels(features: Tree, labels: Tree)
    requires
        features.wf(),
        vectors_decode(features@),
        labels_nonempty(labels@),
    ensures
        fitting_rows(labels@, features@, labels@.len() as int) == Ok::<
            Seq<(Seq<u8>, Seq<u8>, bool)>,
            DatasetError,
        >(present_labelled(labels@, features@, labels@.len() as int)),
{
    lemma_fitting_rows_present(labels@, features@, labels@.len() as int);
}

proof fn lemma_prediction_rows_present(features: Seq<(Seq<u8>, Seq<u8>)>, n: int)
    requires
        0 <= n <= features.len(),
        vectors_decode(features),
    ensures
        prediction_rows(features, n) == Ok::<Seq<(Seq<u8>, Seq<u8>)>, DatasetError>(
            present_vectors(features, n),
        ),
    decreases n,
{
    if n > 0 {
        lemma_prediction_rows_present(features, n - 1);
        assert(features[n - 1].1 != unavailable_marker() ==> decoded_availability(features[n - 1].1)
            == Some(true));
    }
}

/// Where every stored vector other than the marker decodes, the prediction
/// dataset is exactly the feature-vector records other than the marker, in
/// order: one row per track with an available vector.
pub proof fn lemma_prediction_rows_are_present_vectors(features: Tree)
    requires
        vectors_decode(features@),
    ensures
        prediction_rows(features@, features@.len() as int) == Ok::<
            Seq<(Seq<u8>, Seq<u8>)>,
            DatasetError,
        >(present_vectors(features@, features@.len() as int)),
{
    lemma_prediction_rows_present(features@, features@.len() as int);
}

proof fn lemma_fitting_rows_same_prefix(
    a: Seq<(Seq<u8>, Seq<u8>)>,
    b: Seq<(Seq<u8>, Seq<u8>)>,
    features: Seq<(Seq<u8>, Seq<u8>)>,
    m: int,
)
    requires
        0 <= m <= a.len(),
        m <= b.len(),
        forall|i: int| 0 <= i < m ==> a[i] == b[i],
    ensures
        fitting_rows(a, features, m) == fitting_rows(b, features, m),
    decreases m,
{
    if m > 0 {
        lemma_fitting_rows_same_prefix(a, b, features, m - 1);
        assert(a[m - 1] == b[m - 1]);
    }
}

proof fn lemma_fitting_rows_without(
    labels: Seq<(Seq<u8>, Seq<u8>)>,
    features: Seq<(Seq<u8>, Seq<u8>)>,
    p: int,
    n: int,
)
    requires
        0 <= p < n <= labels.len(),
        fitting_step(features, labels[p].0, labels[p].1) == Ok::<
            Option<(Seq<u8>, Seq<u8>, bool)>,
            DatasetError,
        >(None),
    ensures
        fitting_rows(labels.remove(p), features, n - 1) == fitting_rows(labels, features, n),
    decreases n,
{
    let r = labels.remove(p);
    if n == p + 1 {
        lemma_fitting_rows_same_prefix(r, labels, features, p);
    } else {
        lemma_fitting_rows_without(labels, features, p, n - 1);
        assert(r[n - 2] == labels[n - 1]);
    }
}

/// Removing the label record of a track whose stored feature vector is the
/// unavailable marker leaves the fitting dataset as it is: such a track
/// contributes no row and no target.
pub proof fn lemma_unavailable_label_contributes_nothing(features: Tree, labels: Tree, p: int)
    requires
        0 <= p < labels@.len(),
        features.spec_get(labels@[p].0) == Some(unavailable_marker()),
    ensures
        fitting_rows(labels@.remove(p), features@, labels@.len() - 1) == fitting_rows(
            labels@,
            features@,
            labels@.len() as int,
        ),
{
    lemma_fitting_rows_without(labels@, features@, p, labels@.len() as int);
}

} // verus!
