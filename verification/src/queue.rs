//! The sync queue: admission, ordering and coalescing of per-timeline
//! upload and download tasks.

use vstd::prelude::*;

use crate::ids::TenantTimelineId;
use crate::index::TimelineMetadata;
use crate::paths::PathSet;

verus! {

/// A task payload together with how many times it has been rescheduled.
#[derive(Debug)]
pub struct SyncData<T> {
    pub retries: u32,
    pub data: T,
}

impl<T> SyncData<T> {
    pub fn new(retries: u32, data: T) -> (r: SyncData<T>)
        ensures
            r.retries == retries,
            r.data == data,
    {
        SyncData { retries, data }
    }
}

/// An upload task: what still has to go up, what already went up, and the
/// metadata to publish afterwards.
#[derive(Debug)]
pub struct LayersUpload {
    pub layers_to_upload: PathSet,
    pub uploaded_layers: PathSet,
    pub metadata: Option<TimelineMetadata>,
}

impl LayersUpload {
    pub open spec fn wf(self) -> bool {
        &&& self.layers_to_upload.wf()
        &&& self.uploaded_layers.wf()
    }
}

/// A download task: the paths already handled, so that retries do not redo
/// work.
#[derive(Debug)]
pub struct LayersDownload {
    pub layers_to_skip: PathSet,
}

impl LayersDownload {
    pub open spec fn wf(self) -> bool {
        self.layers_to_skip.wf()
    }
}

/// A pending sync task for one timeline.
#[derive(Debug)]
pub enum SyncTask {
    Download(SyncData<LayersDownload>),
    Upload(SyncData<LayersUpload>),
}

impl SyncTask {
    pub open spec fn wf(self) -> bool {
        match self {
            SyncTask::Download(d) => d.data.wf(),
            SyncTask::Upload(u) => u.data.wf(),
        }
    }

    pub open spec fn is_download(self) -> bool {
        self is Download
    }
}

/// The metadata of a merged task: replaced only when the newcomer declares
/// a strictly newer consistent LSN, or when there was none.
pub open spec fn merged_metadata(
    cur: Option<TimelineMetadata>,
    incoming: Option<TimelineMetadata>,
) -> Option<TimelineMetadata> {
    match (cur, incoming) {
        (Option::None, m) => m,
        (Option::Some(c), Option::Some(n)) => if n.disk_consistent_lsn.0
            > c.disk_consistent_lsn.0 {
            Option::Some(n)
        } else {
            Option::Some(c)
        },
        (Option::Some(c), Option::None) => Option::Some(c),
    }
}

fn metadata_lsn_newer(cur: &Option<TimelineMetadata>, incoming: &Option<TimelineMetadata>) -> (r:
    bool)
    ensures
        r == match (cur, incoming) {
            (Option::None, Option::Some(_)) => true,
            (Option::Some(c), Option::Some(n)) => n.disk_consistent_lsn.0
                > c.disk_consistent_lsn.0,
            _ => false,
        },
{
    match (cur, incoming) {
        (None, Some(_)) => true,
        (Some(c), Some(n)) => n.disk_consistent_lsn.0 > c.disk_consistent_lsn.0,
        _ => false,
    }
}

/// A queued entry: the timeline it belongs to and its task.
#[derive(Debug)]
pub struct QueueEntry {
    pub id: TenantTimelineId,
    pub task: SyncTask,
}

/// Bounded FIFO queue of sync tasks, one lane for uploads and downloads,
/// de-duplicating per timeline and task kind.
#[derive(Debug)]
pub struct SyncQueue {
    pub entries: Vec<QueueEntry>,
    pub capacity: usize,
}

impl SyncQueue {
    pub open spec fn wf(self) -> bool {
        &&& self.capacity >= 1
        &&& self.entries@.len() <= self.capacity
        &&& forall|i: int| 0 <= i < self.entries@.len() ==> (#[trigger] self.entries@[i]).task.wf()
        // per timeline and kind at most one pending entry
        &&& forall|i: int, j: int|
            0 <= i < j < self.entries@.len() ==> !(self.entries@[i].id
                == self.entries@[j].id && self.entries@[i].task.is_download()
                == self.entries@[j].task.is_download())
    }

    /// A queue with the given positive capacity.
    pub fn new(capacity: usize) -> (r: SyncQueue)
        requires
            capacity >= 1,
        ensures
            r.wf(),
            r.entries@.len() == 0,
            r.capacity == capacity,
    {
        SyncQueue { entries: Vec::new(), capacity }
    }

    pub fn len(&self) -> (r: usize)
        ensures
            r == self.entries@.len(),
    {
        self.entries.len()
    }

    fn find(&self, id: &TenantTimelineId, is_download: bool) -> (r: Option<usize>)
        ensures
            match r {
                Some(i) => i < self.entries@.len() && self.entries@[i as int].id == *id
                    && self.entries@[i as int].task.is_download() == is_download,
                None => forall|i: int|
                    0 <= i < self.entries@.len() ==> !((#[trigger] self.entries@[i]).id == *id
                        && self.entries@[i].task.is_download() == is_download),
            },
    {
        let mut i: usize = 0;
        while i < self.entries.len()
            invariant
                i <= self.entries@.len(),
                forall|j: int|
                    0 <= j < i ==> !((#[trigger] self.entries@[j]).id == *id
                        && self.entries@[j].task.is_download() == is_download),
            decreases self.entries@.len() - i,
        {
            let e = &self.entries[i];
            let kind_matches = match &e.task {
                SyncTask::Download(_) => is_download,
                SyncTask::Upload(_) => !is_download,
            };
            if kind_matches && e.id == *id {
                proof {
                    assert(self.entries@[i as int].id.tenant_id.0 =~= id.tenant_id.0);
                    assert(self.entries@[i as int].id.timeline_id.0 =~= id.timeline_id.0);
                }
                return Some(i);
            }
            proof {
                if self.entries@[i as int].id == *id {
                    assert(self.entries@[i as int].id.tenant_id.0@ == id.tenant_id.0@
                        && self.entries@[i as int].id.timeline_id.0@ == id.timeline_id.0@);
                }
            }
            i += 1;
        }
        None
    }

    /// Enqueues a task for a timeline.
    ///
    /// When an equivalent pending task exists (same timeline, same kind)
    /// the payloads are merged in place: unions of the path sets, the larger
    /// retry count, and the newer metadata. When the queue is full and no
    /// merge applies, the task comes back to the caller, who must wait.
    pub fn push(&mut self, id: TenantTimelineId, task: SyncTask) -> (r: Option<SyncTask>)
        requires
            old(self).wf(),
            task.wf(),
        ensures
            final(self).wf(),
            final(self).capacity == old(self).capacity,
            match r {
                // backpressure: queue unchanged, task handed back
                Some(t) => t == task && *final(self) == *old(self) && old(self).entries@.len()
                    == old(self).capacity && (forall|i: int|
                    0 <= i < old(self).entries@.len() ==> !((
                    #[trigger] old(self).entries@[i]).id == id
                        && old(self).entries@[i].task.is_download() == task.is_download())),
                None => {
                    ||| {
                        // appended at the back
                        &&& final(self).entries@.len() == old(self).entries@.len() + 1
                        &&& final(self).entries@.last().id == id
                        &&& final(self).entries@.last().task == task
                        &&& final(self).entries@.take(old(self).entries@.len() as int) == old(
                            self,
                        ).entries@
                        &&& forall|i: int|
                            0 <= i < old(self).entries@.len() ==> !((
                            #[trigger] old(self).entries@[i]).id == id
                                && old(self).entries@[i].task.is_download()
                                == task.is_download())
                    }
                    ||| {
                        // merged into the one equivalent pending entry
                        &&& final(self).entries@.len() == old(self).entries@.len()
                        &&& exists|k: int|
                            {
                                &&& 0 <= k < old(self).entries@.len()
                                &&& (#[trigger] old(self).entries@[k]).id == id
                                &&& old(self).entries@[k].task.is_download()
                                    == task.is_download()
                                &&& final(self).entries@[k].id == id
                                &&& merged_task(
                                    old(self).entries@[k].task,
                                    task,
                                    final(self).entries@[k].task,
                                )
                                &&& forall|i: int|
                                    0 <= i < old(self).entries@.len() && i != k
                                        ==> final(self).entries@[i] == old(self).entries@[i]
                            }
                    }
                },
            },
    {
        let is_download = match &task {
            SyncTask::Download(_) => true,
            SyncTask::Upload(_) => false,
        };
        match self.find(&id, is_download) {
            Some(k) => {
                let entry = self.entries.remove(k);
                let merged = merge_tasks(entry.task, task);
                self.entries.insert(k, QueueEntry { id, task: merged });
                proof {
                    assert(self.entries@ =~= old(self).entries@.update(
                        k as int,
                        QueueEntry { id, task: merged },
                    ));
                    assert(old(self).entries@[k as int].id == id);
                }
                None
            },
            None => {
                if self.entries.len() == self.capacity {
                    return Some(task);
                }
                self.entries.push(QueueEntry { id, task });
                proof {
                    assert(self.entries@.take(old(self).entries@.len() as int) =~= old(
                        self,
                    ).entries@);
                }
                None
            },
        }
    }

    /// Takes the next task.
    ///
    /// Tasks leave in arrival order, except that when the earliest entry is
    /// an upload and the same timeline also has a pending download, the
    /// download goes first: downloads gate visibility.
    pub fn pop(&mut self) -> (r: Option<QueueEntry>)
        requires
            old(self).wf(),
        ensures
            final(self).wf(),
            final(self).capacity == old(self).capacity,
            match r {
                None => old(self).entries@.len() == 0 && *final(self) == *old(self),
                Some(e) => {
                    &&& old(self).entries@.len() > 0
                    &&& final(self).entries@.len() == old(self).entries@.len() - 1
                    &&& exists|k: int|
                        {
                            &&& 0 <= k < old(self).entries@.len()
                            &&& e == old(self).entries@[k]
                            &&& final(self).entries@ == old(self).entries@.remove(k)
                            &&& (k == 0 || (old(self).entries@[0].id == e.id && !old(
                                self,
                            ).entries@[0].task.is_download() && e.task.is_download()))
                        }
                    &&& e.task.wf()
                },
            },
    {
        if self.entries.len() == 0 {
            return None;
        }
        let head_is_download = match &self.entries[0].task {
            SyncTask::Download(_) => true,
            SyncTask::Upload(_) => false,
        };
        let mut k: usize = 0;
        if !head_is_download {
            let head_id = self.entries[0].id;
            match self.find(&head_id, true) {
                Some(j) => {
                    k = j;
                },
                None => {
                    k = 0;
                },
            }
        }
        let e = self.entries.remove(k);
        proof {
            assert(self.entries@ =~= old(self).entries@.remove(k as int));
        }
        Some(e)
    }
}

/// How a merged task relates to the pending task and the newcomer: unions
/// of the path sets, the larger retry count, the newer metadata.
pub open spec fn merged_task(pending: SyncTask, incoming: SyncTask, merged: SyncTask) -> bool {
    match (pending, incoming, merged) {
        (SyncTask::Download(p), SyncTask::Download(n), SyncTask::Download(m)) => {
            &&& m.retries == if p.retries >= n.retries {
                p.retries
            } else {
                n.retries
            }
            &&& m.data.layers_to_skip@ == p.data.layers_to_skip@ + n.data.layers_to_skip@
        },
        (SyncTask::Upload(p), SyncTask::Upload(n), SyncTask::Upload(m)) => {
            &&& m.retries == if p.retries >= n.retries {
                p.retries
            } else {
                n.retries
            }
            &&& m.data.layers_to_upload@ == p.data.layers_to_upload@ + n.data.layers_to_upload@
            &&& m.data.uploaded_layers@ == p.data.uploaded_layers@ + n.data.uploaded_layers@
            &&& m.data.metadata == merged_metadata(p.data.metadata, n.data.metadata)
        },
        _ => false,
    }
}

fn merge_tasks(pending: SyncTask, incoming: SyncTask) -> (r: SyncTask)
    requires
        pending.wf(),
        incoming.wf(),
        pending.is_download() == incoming.is_download(),
    ensures
        r.wf(),
        r.is_download() == pending.is_download(),
        merged_task(pending, incoming, r),
{
    match (pending, incoming) {
        (SyncTask::Download(p), SyncTask::Download(n)) => {
            let retries = if p.retries >= n.retries {
                p.retries
            } else {
                n.retries
            };
            let mut skip = p.data.layers_to_skip;
            skip.union_with(&n.data.layers_to_skip);
            SyncTask::Download(SyncData { retries, data: LayersDownload { layers_to_skip: skip } })
        },
        (SyncTask::Upload(p), SyncTask::Upload(n)) => {
            let retries = if p.retries >= n.retries {
                p.retries
            } else {
                n.retries
            };
            let mut to_upload = p.data.layers_to_upload;
            to_upload.union_with(&n.data.layers_to_upload);
            let mut uploaded = p.data.uploaded_layers;
            uploaded.union_with(&n.data.uploaded_layers);
            let metadata = if metadata_lsn_newer(&p.data.metadata, &n.data.metadata) {
                n.data.metadata
            } else {
                p.data.metadata
            };
            SyncTask::Upload(
                SyncData {
                    retries,
                    data: LayersUpload { layers_to_upload: to_upload, uploaded_layers: uploaded, metadata },
                },
            )
        },
        (p, _) => p,
    }
}

} // verus!
