//! Upload and download engine scenarios, the sync queue, and the bulk
//! index fetch.

use timeline_sync::download::{
    download_index_parts, download_timeline_layers, parse_timeline_sync_ids,
    plan_timeline_download, resolve_tenant_index_parts, DownloadPlan, DownloadedTimeline,
    GatherError, IndexFetchOutcome, LayerDownloadResult, ListTimelinesError, TenantIndexParts,
};
use timeline_sync::ids::{NodeId, TenantId, TenantTimelineId, TimelineId};
use timeline_sync::index::{IndexPart, RemoteTimeline, TimelineMetadata};
use timeline_sync::lsn::Lsn;
use timeline_sync::paths::PathSet;
use timeline_sync::queue::{LayersDownload, LayersUpload, SyncData, SyncQueue, SyncTask};
use timeline_sync::upload::{
    plan_timeline_upload, upload_timeline_layers, LayerUploadOutcome, LayerUploadResult,
    UploadedTimeline,
};

fn timeline_path(name: &str) -> Vec<u8> {
    let mut p = b"/data/tenants/t1/timelines/tl1".to_vec();
    p.push(b'/');
    p.extend_from_slice(name.as_bytes());
    p
}

fn path_set(names: &[&str]) -> PathSet {
    let mut s = PathSet::new();
    for n in names {
        s.insert(timeline_path(n));
    }
    s
}

fn dummy_metadata(lsn: Lsn) -> TimelineMetadata {
    TimelineMetadata::new(lsn, b"metadata".to_vec())
}

#[test]
fn regular_layer_upload() {
    let layer_files = ["a", "b"];
    let current_retries = 3;
    let upload = LayersUpload {
        layers_to_upload: path_set(&layer_files),
        uploaded_layers: PathSet::new(),
        metadata: None,
    };
    let plan = plan_timeline_upload(None, &SyncData::new(current_retries, upload));
    assert_eq!(plan.len(), 2, "Both layers should be planned for upload");

    let mut results = Vec::new();
    for i in 0..plan.len() {
        results.push(LayerUploadResult {
            path: plan.get(i).clone(),
            outcome: LayerUploadOutcome::Uploaded,
        });
    }
    let remote_object_count = results.len();
    let upload = LayersUpload {
        layers_to_upload: path_set(&layer_files),
        uploaded_layers: PathSet::new(),
        metadata: None,
    };
    let upload_data = match upload_timeline_layers(SyncData::new(current_retries, upload), results)
    {
        UploadedTimeline::Successful(data) => data,
        wrong_result => {
            panic!("Expected a successful upload for timeline, but got: {wrong_result:?}")
        }
    };

    assert_eq!(
        current_retries, upload_data.retries,
        "On successful upload, retries are not expected to change"
    );
    assert!(
        upload_data.data.layers_to_upload.is_empty(),
        "Successful upload should have no layers left to upload"
    );
    for layer in layer_files {
        assert!(
            upload_data.data.uploaded_layers.contains(&timeline_path(layer)),
            "Successful upload should have all layers uploaded"
        );
    }
    assert_eq!(upload_data.data.uploaded_layers.len(), 2);
    assert!(
        upload_data.data.metadata.is_none(),
        "Successful upload without metadata should not have it returned either"
    );
    assert_eq!(remote_object_count, 2, "All layers should be uploaded");
}

#[test]
fn layer_upload_after_local_fs_update() {
    let layer_files = ["a1", "b1"];
    let current_retries = 5;
    let metadata = dummy_metadata(Lsn(0x40));
    let upload = LayersUpload {
        layers_to_upload: path_set(&["a1", "b1", "layer_to_remove"]),
        uploaded_layers: PathSet::new(),
        metadata: Some(metadata.clone()),
    };
    // the layer removed by GC before its upload fails to open, and the
    // path is gone from disk
    let results = vec![
        LayerUploadResult {
            path: timeline_path("a1"),
            outcome: LayerUploadOutcome::Uploaded,
        },
        LayerUploadResult {
            path: timeline_path("b1"),
            outcome: LayerUploadOutcome::Uploaded,
        },
        LayerUploadResult {
            path: timeline_path("layer_to_remove"),
            outcome: LayerUploadOutcome::MissingLocalGone,
        },
    ];
    let upload_data = match upload_timeline_layers(SyncData::new(current_retries, upload), results)
    {
        UploadedTimeline::Successful(data) => data,
        wrong_result => {
            panic!("Expected a successful upload for timeline, but got: {wrong_result:?}")
        }
    };

    assert_eq!(
        current_retries, upload_data.retries,
        "On successful upload, retries are not expected to change"
    );
    assert!(
        upload_data.data.layers_to_upload.is_empty(),
        "Successful upload should have no layers left to upload, even those that were removed from the local fs"
    );
    for layer in layer_files {
        assert!(
            upload_data.data.uploaded_layers.contains(&timeline_path(layer)),
            "Successful upload should have all layers uploaded"
        );
    }
    assert_eq!(
        upload_data.data.uploaded_layers.len(),
        2,
        "All layers should be uploaded"
    );
    assert_eq!(
        upload_data.data.metadata,
        Some(metadata),
        "Successful upload should not change its metadata"
    );
}

#[test]
fn failed_layer_upload_reschedules() {
    let upload = LayersUpload {
        layers_to_upload: path_set(&["a", "b"]),
        uploaded_layers: PathSet::new(),
        metadata: None,
    };
    let results = vec![
        LayerUploadResult {
            path: timeline_path("a"),
            outcome: LayerUploadOutcome::Uploaded,
        },
        LayerUploadResult {
            path: timeline_path("b"),
            outcome: LayerUploadOutcome::Failed,
        },
    ];
    match upload_timeline_layers(SyncData::new(1, upload), results) {
        UploadedTimeline::FailedAndRescheduled(data, failed) => {
            assert_eq!(data.retries, 2, "A failed upload bumps the retry count");
            assert!(data.data.uploaded_layers.contains(&timeline_path("a")));
            assert!(data.data.layers_to_upload.contains(&timeline_path("b")));
            assert!(!data.data.layers_to_upload.contains(&timeline_path("a")));
            assert!(failed.contains(&timeline_path("b")));
        }
        wrong_result => panic!("Expected a rescheduled upload, but got: {wrong_result:?}"),
    }
}

#[test]
fn missing_but_present_layer_is_an_error() {
    let upload = LayersUpload {
        layers_to_upload: path_set(&["a"]),
        uploaded_layers: PathSet::new(),
        metadata: None,
    };
    let results = vec![LayerUploadResult {
        path: timeline_path("a"),
        outcome: LayerUploadOutcome::MissingLocalStillExists,
    }];
    match upload_timeline_layers(SyncData::new(0, upload), results) {
        UploadedTimeline::FailedAndRescheduled(data, failed) => {
            assert_eq!(data.retries, 1);
            assert!(failed.contains(&timeline_path("a")));
        }
        wrong_result => panic!("Expected a rescheduled upload, but got: {wrong_result:?}"),
    }
}

#[test]
fn download_timeline() {
    let layer_files = ["a", "b", "layer_to_skip", "layer_to_keep_locally"];
    let current_retries = 3;
    let metadata = dummy_metadata(Lsn(0x30));

    let mut remote_timeline = RemoteTimeline::new(metadata);
    remote_timeline.awaits_download = true;
    remote_timeline
        .add_timeline_layers(layer_files.iter().map(|l| timeline_path(l)).collect());

    let download_data = SyncData::new(
        current_retries,
        LayersDownload {
            layers_to_skip: path_set(&["layer_to_skip"]),
        },
    );
    let plan = match plan_timeline_download(Some(&remote_timeline), &download_data) {
        DownloadPlan::Layers(plan) => plan,
        DownloadPlan::Abort => panic!("Expected a download plan for an awaiting timeline"),
    };
    assert_eq!(plan.len(), 3, "Only the non-skipped layers should be planned");
    assert!(!plan.contains(&timeline_path("layer_to_skip")));

    // `layer_to_keep_locally` already exists on disk and counts as
    // materialized without a fetch
    let mut results = Vec::new();
    for i in 0..plan.len() {
        results.push(LayerDownloadResult {
            path: plan.get(i).clone(),
            ok: true,
        });
    }
    let download_data = match download_timeline_layers(download_data, results, true) {
        DownloadedTimeline::Successful(data) => data,
        wrong_result => {
            panic!("Expected a successful download for timeline, but got: {wrong_result:?}")
        }
    };

    assert_eq!(
        current_retries, download_data.retries,
        "On successful download, retries are not expected to change"
    );
    for layer in layer_files {
        assert!(
            download_data.data.layers_to_skip.contains(&timeline_path(layer)),
            "On successful download, all layers that were not skipped, should be downloaded"
        );
    }
    assert_eq!(download_data.data.layers_to_skip.len(), 4);
}

#[test]
fn download_timeline_negatives() {
    let empty_download_data = SyncData::new(
        0,
        LayersDownload {
            layers_to_skip: PathSet::new(),
        },
    );
    assert!(
        matches!(
            plan_timeline_download(None, &empty_download_data),
            DownloadPlan::Abort
        ),
        "Should not allow downloading for empty remote timeline"
    );

    let not_expecting_download_remote_timeline = RemoteTimeline::new(dummy_metadata(Lsn(5)));
    assert!(
        !not_expecting_download_remote_timeline.awaits_download,
        "Should not expect download for the timeline"
    );
    assert!(
        matches!(
            plan_timeline_download(
                Some(&not_expecting_download_remote_timeline),
                &empty_download_data
            ),
            DownloadPlan::Abort
        ),
        "Should not allow downloading for remote timeline that does not expect it"
    );
}

#[test]
fn download_fsync_failure_rolls_back() {
    let download_data = SyncData::new(
        0,
        LayersDownload {
            layers_to_skip: PathSet::new(),
        },
    );
    let results = vec![
        LayerDownloadResult {
            path: timeline_path("a"),
            ok: true,
        },
        LayerDownloadResult {
            path: timeline_path("b"),
            ok: true,
        },
    ];
    match download_timeline_layers(download_data, results, false) {
        DownloadedTimeline::FailedAndRescheduled(data) => {
            assert_eq!(data.retries, 1, "A failed download bumps the retry count");
            assert!(
                !data.data.layers_to_skip.contains(&timeline_path("a")),
                "A directory fsync failure rolls the new skip entries back"
            );
            assert!(!data.data.layers_to_skip.contains(&timeline_path("b")));
        }
        wrong_result => panic!("Expected a rescheduled download, but got: {wrong_result:?}"),
    }
}

#[test]
fn download_twice_is_noop() {
    let metadata = dummy_metadata(Lsn(0x30));
    let mut remote_timeline = RemoteTimeline::new(metadata);
    remote_timeline.awaits_download = true;
    remote_timeline.add_timeline_layers(vec![timeline_path("a"), timeline_path("b")]);

    let download_data = SyncData::new(
        0,
        LayersDownload {
            layers_to_skip: PathSet::new(),
        },
    );
    let plan = match plan_timeline_download(Some(&remote_timeline), &download_data) {
        DownloadPlan::Layers(plan) => plan,
        DownloadPlan::Abort => panic!("Expected a download plan"),
    };
    let mut results = Vec::new();
    for i in 0..plan.len() {
        results.push(LayerDownloadResult {
            path: plan.get(i).clone(),
            ok: true,
        });
    }
    let after = match download_timeline_layers(download_data, results, true) {
        DownloadedTimeline::Successful(data) => data,
        wrong_result => panic!("Expected a successful download, but got: {wrong_result:?}"),
    };
    // a second pass finds nothing left to download
    match plan_timeline_download(Some(&remote_timeline), &after) {
        DownloadPlan::Layers(second) => {
            assert_eq!(second.len(), 0, "The second pass must be a no-op")
        }
        DownloadPlan::Abort => panic!("Expected a download plan"),
    }
}

fn tenant(tag: u8) -> TenantId {
    TenantId([tag; 16])
}

fn timeline(tag: u8) -> TimelineId {
    TimelineId([tag; 16])
}

fn small_part(lsn: u64) -> IndexPart {
    IndexPart::new(Vec::new(), Vec::new(), Lsn(lsn), Vec::new())
}

#[test]
fn bulk_index_fetch_accumulates_per_tenant() {
    let outcomes = vec![
        (
            TenantTimelineId {
                tenant_id: tenant(1),
                timeline_id: timeline(1),
            },
            IndexFetchOutcome::Fetched(small_part(16)),
        ),
        (
            TenantTimelineId {
                tenant_id: tenant(1),
                timeline_id: timeline(2),
            },
            IndexFetchOutcome::NotFound,
        ),
        (
            TenantTimelineId {
                tenant_id: tenant(2),
                timeline_id: timeline(3),
            },
            IndexFetchOutcome::FetchFailed,
        ),
        (
            TenantTimelineId {
                tenant_id: tenant(2),
                timeline_id: timeline(4),
            },
            IndexFetchOutcome::Fetched(small_part(32)),
        ),
    ];
    let m = download_index_parts(outcomes);
    assert_eq!(m.len(), 2, "NotFound alone creates no tenant entry");

    match m.get(&tenant(1)) {
        Some(TenantIndexParts::Present(parts)) => {
            assert_eq!(parts.len(), 1, "The benign NotFound leaves no trace");
            let p = parts.get(&timeline(1)).expect("the fetched part is present");
            assert_eq!(p.disk_consistent_lsn, Lsn(16));
        }
        other => panic!("A tenant without hard failures stays present, got {other:?}"),
    }
    match m.get(&tenant(2)) {
        Some(TenantIndexParts::Poisoned { present, missing }) => {
            assert_eq!(missing.len(), 1, "The failed timeline is recorded");
            assert!(missing.contains(&timeline(3)));
            assert!(present.get(&timeline(4)).is_some(), "Fetched parts are kept");
        }
        other => panic!("A hard failure poisons the tenant, got {other:?}"),
    }
}

#[test]
fn resolve_tenant_outcomes() {
    let outcomes = vec![
        (
            TenantTimelineId {
                tenant_id: tenant(1),
                timeline_id: timeline(1),
            },
            IndexFetchOutcome::Fetched(small_part(16)),
        ),
        (
            TenantTimelineId {
                tenant_id: tenant(2),
                timeline_id: timeline(2),
            },
            IndexFetchOutcome::FetchFailed,
        ),
    ];
    let m = download_index_parts(outcomes);
    let parts = resolve_tenant_index_parts(m, tenant(1)).expect("present tenant resolves");
    assert_eq!(parts.len(), 1);

    let outcomes = vec![(
        TenantTimelineId {
            tenant_id: tenant(2),
            timeline_id: timeline(2),
        },
        IndexFetchOutcome::FetchFailed,
    )];
    let m = download_index_parts(outcomes);
    match resolve_tenant_index_parts(m, tenant(2)) {
        Err(GatherError::Poisoned(missing)) => assert!(missing.contains(&timeline(2))),
        other => panic!("A poisoned tenant must fail to resolve, got {other:?}"),
    }

    let m = download_index_parts(Vec::new());
    assert!(matches!(
        resolve_tenant_index_parts(m, tenant(3)),
        Err(GatherError::MissingTenantEntry)
    ));
}

fn sync_id(tag: u8) -> TenantTimelineId {
    let _ = NodeId(0);
    TenantTimelineId {
        tenant_id: tenant(tag),
        timeline_id: timeline(tag),
    }
}

#[test]
fn queue_push_merges_equivalent_tasks() {
    let mut queue = SyncQueue::new(100);
    let first = SyncTask::Upload(SyncData::new(
        2,
        LayersUpload {
            layers_to_upload: path_set(&["a"]),
            uploaded_layers: PathSet::new(),
            metadata: Some(dummy_metadata(Lsn(0x10))),
        },
    ));
    let second = SyncTask::Upload(SyncData::new(
        5,
        LayersUpload {
            layers_to_upload: path_set(&["b"]),
            uploaded_layers: PathSet::new(),
            metadata: Some(dummy_metadata(Lsn(0x20))),
        },
    ));
    assert!(queue.push(sync_id(1), first).is_none());
    assert!(queue.push(sync_id(1), second).is_none());
    assert_eq!(queue.len(), 1, "Equivalent tasks coalesce into one entry");

    let entry = queue.pop().expect("one merged entry");
    match entry.task {
        SyncTask::Upload(data) => {
            assert_eq!(data.retries, 5, "A merge keeps the larger retry count");
            assert!(data.data.layers_to_upload.contains(&timeline_path("a")));
            assert!(data.data.layers_to_upload.contains(&timeline_path("b")));
            assert_eq!(
                data.data.metadata.map(|m| m.disk_consistent_lsn),
                Some(Lsn(0x20)),
                "A merge keeps the newer metadata"
            );
        }
        SyncTask::Download(_) => panic!("The merged task must stay an upload"),
    }
    assert!(queue.pop().is_none());
}

#[test]
fn queue_download_takes_precedence() {
    let mut queue = SyncQueue::new(100);
    let upload = SyncTask::Upload(SyncData::new(
        0,
        LayersUpload {
            layers_to_upload: path_set(&["a"]),
            uploaded_layers: PathSet::new(),
            metadata: None,
        },
    ));
    let download = SyncTask::Download(SyncData::new(
        0,
        LayersDownload {
            layers_to_skip: PathSet::new(),
        },
    ));
    assert!(queue.push(sync_id(1), upload).is_none());
    assert!(queue.push(sync_id(1), download).is_none());
    let first = queue.pop().expect("two entries queued");
    assert!(
        matches!(first.task, SyncTask::Download(_)),
        "The download for the same timeline gates visibility and goes first"
    );
    let second = queue.pop().expect("the upload stays queued");
    assert!(matches!(second.task, SyncTask::Upload(_)));
}

#[test]
fn queue_applies_backpressure_when_full() {
    let mut queue = SyncQueue::new(1);
    let download = |skip: &[&str]| {
        SyncTask::Download(SyncData::new(
            0,
            LayersDownload {
                layers_to_skip: path_set(skip),
            },
        ))
    };
    assert!(queue.push(sync_id(1), download(&["a"])).is_none());
    // same timeline and kind merges even when full
    assert!(queue.push(sync_id(1), download(&["b"])).is_none());
    // a different timeline is pushed back to the caller
    let rejected = queue.push(sync_id(2), download(&["c"]));
    assert!(rejected.is_some(), "A full queue hands the task back");
    assert_eq!(queue.len(), 1);
}

#[test]
fn listed_timeline_names_parse() {
    let names = vec![
        b"11223344556677889900aabbccddeeff".to_vec(),
        b"ffeeddccbbaa00998877665544332211".to_vec(),
    ];
    let ids = parse_timeline_sync_ids(tenant(1), &names).expect("well-formed names parse");
    assert_eq!(ids.len(), 2);
    assert_eq!(ids[0].tenant_id, tenant(1));
    assert_eq!(ids[0].timeline_id.render(), names[0]);
    assert_eq!(ids[1].timeline_id.render(), names[1]);

    assert!(
        matches!(
            parse_timeline_sync_ids(tenant(1), &Vec::new()),
            Err(ListTimelinesError::NoTimelinesFound)
        ),
        "An empty listing means the tenant has no timelines remotely"
    );
    let bad = vec![b"not-a-timeline-id".to_vec()];
    match parse_timeline_sync_ids(tenant(1), &bad) {
        Err(ListTimelinesError::BadTimelineName(n)) => assert_eq!(n, bad[0]),
        other => panic!("A bad object name must be reported, got {other:?}"),
    }
}
