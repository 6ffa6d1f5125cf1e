//! The upload engine: planning which layer files go to remote storage and
//! folding the per-layer outcomes back into the task.

use vstd::prelude::*;

use crate::index::RemoteTimeline;
use crate::paths::PathSet;
use crate::queue::{LayersUpload, SyncData};

verus! {

/// What happened to one planned layer upload.
///
/// A layer whose local file disappeared before the upload — and is still
/// gone — was removed by local GC: its content is no longer needed, and the
/// upload engine treats the disappearance as success. A layer whose open
/// failed while the file still exists is a real error.
#[derive(Clone, Copy, Debug, PartialEq, Eq, Structural)]
pub enum LayerUploadOutcome {
    Uploaded,
    MissingLocalGone,
    MissingLocalStillExists,
    Failed,
}

/// One planned layer and its outcome.
#[derive(Debug)]
pub struct LayerUploadResult {
    pub path: Vec<u8>,
    pub outcome: LayerUploadOutcome,
}

/// The result of an upload pass over one timeline.
#[derive(Debug)]
pub enum UploadedTimeline {
    /// Some layer failed; the carried task holds the bumped retry count and
    /// the progress kept so far, and must go back into the sync queue.
    FailedAndRescheduled(SyncData<LayersUpload>, PathSet),
    /// Every layer was either uploaded or benignly gone.
    Successful(SyncData<LayersUpload>),
}

/// The paths of the first `n` results whose outcome is `Uploaded`.
pub open spec fn uploaded_paths(rs: Seq<LayerUploadResult>, n: int) -> Set<Seq<u8>> {
    Set::new(
        |s: Seq<u8>|
            exists|i: int|
                0 <= i < n && i < rs.len() && rs[i].path@ == s && rs[i].outcome
                    is Uploaded,
    )
}

/// The paths of the first `n` results whose outcome is `MissingLocalGone`.
pub open spec fn gone_paths(rs: Seq<LayerUploadResult>, n: int) -> Set<Seq<u8>> {
    Set::new(
        |s: Seq<u8>|
            exists|i: int|
                0 <= i < n && i < rs.len() && rs[i].path@ == s && rs[i].outcome
                    is MissingLocalGone,
    )
}

/// The paths of the first `n` results that count as errors.
pub open spec fn failed_paths(rs: Seq<LayerUploadResult>, n: int) -> Set<Seq<u8>> {
    Set::new(
        |s: Seq<u8>|
            exists|i: int|
                0 <= i < n && i < rs.len() && rs[i].path@ == s && (rs[i].outcome
                    is MissingLocalStillExists || rs[i].outcome is Failed),
    )
}

/// Whether any of the results counts as an error.
pub open spec fn any_failed(rs: Seq<LayerUploadResult>) -> bool {
    exists|i: int|
        0 <= i < rs.len() && ((#[trigger] rs[i].outcome) is MissingLocalStillExists || rs[i].outcome
            is Failed)
}

/// Plans an upload pass: the layers still to upload, minus those the remote
/// timeline already stores.
pub fn plan_timeline_upload(remote_timeline: Option<&RemoteTimeline>, upload_data: &SyncData<
    LayersUpload,
>) -> (r: PathSet)
    requires
        upload_data.data.wf(),
        match remote_timeline {
            Some(rt) => rt.wf(),
            None => true,
        },
    ensures
        r.wf(),
        r@ =~= match remote_timeline {
            Some(rt) => upload_data.data.layers_to_upload@.difference(rt.timeline_layers@),
            None => upload_data.data.layers_to_upload@,
        },
{
    match remote_timeline {
        Some(rt) => upload_data.data.layers_to_upload.difference(rt.stored_files()),
        None => {
            let empty = PathSet::new();
            let r = upload_data.data.layers_to_upload.difference(&empty);
            proof {
                assert(r@ =~= upload_data.data.layers_to_upload@);
            }
            r
        },
    }
}

/// Folds the per-layer outcomes into the task.
///
/// Uploaded layers move from `layers_to_upload` to `uploaded_layers`;
/// benignly gone layers leave `layers_to_upload`. With no errors the task is
/// `Successful` with nothing left to upload and the retry count and metadata
/// unchanged; otherwise the retry count is bumped and the task is handed
/// back for rescheduling together with the set of failed layers.
pub fn upload_timeline_layers(upload_data: SyncData<LayersUpload>, results: Vec<
    LayerUploadResult,
>) -> (r: UploadedTimeline)
    requires
        upload_data.data.wf(),
        upload_data.retries < u32::MAX,
    ensures
        match r {
            UploadedTimeline::Successful(d) => {
                &&& !any_failed(results@)
                &&& d.retries == upload_data.retries
                &&& d.data.wf()
                &&& d.data.layers_to_upload@ =~= Set::<Seq<u8>>::empty()
                &&& d.data.uploaded_layers@ =~= upload_data.data.uploaded_layers@ + uploaded_paths(
                    results@,
                    results@.len() as int,
                )
                &&& d.data.metadata == upload_data.data.metadata
            },
            UploadedTimeline::FailedAndRescheduled(d, failed) => {
                &&& any_failed(results@)
                &&& d.retries == upload_data.retries + 1
                &&& d.data.wf()
                &&& d.data.layers_to_upload@ =~= upload_data.data.layers_to_upload@.difference(
                    uploaded_paths(results@, results@.len() as int),
                ).difference(gone_paths(results@, results@.len() as int))
                &&& d.data.uploaded_layers@ =~= upload_data.data.uploaded_layers@ + uploaded_paths(
                    results@,
                    results@.len() as int,
                )
                &&& d.data.metadata == upload_data.data.metadata
                &&& failed.wf()
                &&& failed@ =~= failed_paths(results@, results@.len() as int)
            },
        },
{
    let SyncData { retries, data } = upload_data;
    let LayersUpload { mut layers_to_upload, mut uploaded_layers, metadata } = data;
    let ghost to_upload0 = layers_to_upload@;
    let ghost uploaded0 = uploaded_layers@;
    let mut failed = PathSet::new();
    let mut has_errors = false;
    let mut i: usize = 0;
    while i < results.len()
        invariant
            i <= results@.len(),
            layers_to_upload.wf(),
            uploaded_layers.wf(),
            failed.wf(),
            layers_to_upload@ =~= to_upload0.difference(
                uploaded_paths(results@, i as int),
            ).difference(gone_paths(results@, i as int)),
            uploaded_layers@ =~= uploaded0 + uploaded_paths(results@, i as int),
            failed@ =~= failed_paths(results@, i as int),
            has_errors == exists|j: int|
                0 <= j < i && ((#[trigger] results@[j].outcome) is MissingLocalStillExists
                    || results@[j].outcome is Failed),
        decreases results@.len() - i,
    {
        let res = &results[i];
        match res.outcome {
            LayerUploadOutcome::Uploaded => {
                layers_to_upload.remove(&res.path);
                uploaded_layers.insert(res.path.clone());
            },
            LayerUploadOutcome::MissingLocalGone => {
                layers_to_upload.remove(&res.path);
            },
            LayerUploadOutcome::MissingLocalStillExists => {
                failed.insert(res.path.clone());
                has_errors = true;
            },
            LayerUploadOutcome::Failed => {
                failed.insert(res.path.clone());
                has_errors = true;
            },
        }
        i += 1;
        proof {
            assert(layers_to_upload@ =~= to_upload0.difference(
                uploaded_paths(results@, i as int),
            ).difference(gone_paths(results@, i as int)));
            assert(uploaded_layers@ =~= uploaded0 + uploaded_paths(results@, i as int));
            assert(failed@ =~= failed_paths(results@, i as int));
        }
    }
    if !has_errors {
        let empty = PathSet::new();
        UploadedTimeline::Successful(
            SyncData {
                retries,
                data: LayersUpload {
                    layers_to_upload: empty,
                    uploaded_layers,
                    metadata,
                },
            },
        )
    } else {
        UploadedTimeline::FailedAndRescheduled(
            SyncData {
                retries: retries + 1,
                data: LayersUpload { layers_to_upload, uploaded_layers, metadata },
            },
            failed,
        )
    }
}

/// Law: after a successful upload pass whose results uploaded every planned
/// layer — all of `layers_to_upload` minus what the remote already stored —
/// the uploaded layers include the whole plan, nothing is left to upload,
/// and the retry count is unchanged.
///
/// A planned layer that local GC deleted mid-pass (`MissingLocalGone`) is
/// excluded by the first premise: such a layer ends in neither set.
pub proof fn lemma_upload_success_covers_plan(
    pre: SyncData<LayersUpload>,
    stored: Set<Seq<u8>>,
    results: Seq<LayerUploadResult>,
    d: SyncData<LayersUpload>,
)
    requires
        // every planned layer was uploaded
        forall|s: Seq<u8>|
            pre.data.layers_to_upload@.difference(stored).contains(s) ==> uploaded_paths(
                results,
                results.len() as int,
            ).contains(s),
        // the pass succeeded with outcome `d`
        !any_failed(results),
        d.retries == pre.retries,
        d.data.layers_to_upload@ =~= Set::<Seq<u8>>::empty(),
        d.data.uploaded_layers@ =~= pre.data.uploaded_layers@ + uploaded_paths(
            results,
            results.len() as int,
        ),
    ensures
        d.data.layers_to_upload@.is_empty(),
        forall|s: Seq<u8>|
            pre.data.layers_to_upload@.difference(stored).contains(s)
                ==> d.data.uploaded_layers@.contains(s),
        d.retries == pre.retries,
{
}

} // verus!
