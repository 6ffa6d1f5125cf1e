//! The download engine: planning which layer files come from remote
//! storage, folding per-layer outcomes back into the task, and accumulating
//! bulk index-part fetches per tenant.

use vstd::prelude::*;

use crate::ids::{TenantId, TenantTimelineId, TimelineId};
use crate::index::{IndexPart, RemoteTimeline};
use crate::paths::PathSet;
use crate::queue::{LayersDownload, SyncData};

verus! {

/// The plan of a download pass over one timeline.
#[derive(Debug)]
pub enum DownloadPlan {
    /// The remote timeline is absent or does not await a download: a caller
    /// invariant is violated and nothing may be downloaded.
    Abort,
    /// The layers to fetch: everything stored remotely that was not already
    /// handled. May be empty, in which case no I/O is needed.
    Layers(PathSet),
}

/// The result of a download pass over one timeline.
#[derive(Debug)]
pub enum DownloadedTimeline {
    /// Remote timeline data is absent or corrupt; no download possible.
    Abort,
    /// Some layer failed or the directory fsync failed; the carried task
    /// holds the bumped retry count and must go back into the sync queue.
    FailedAndRescheduled(SyncData<LayersDownload>),
    /// All layers were materialized locally and durably.
    Successful(SyncData<LayersDownload>),
}

/// Plans a download pass.
///
/// With no remote timeline, or one that does not await a download, the pass
/// aborts. Otherwise the layers to fetch are the remotely stored files
/// minus those already handled (`layers_to_skip`).
pub fn plan_timeline_download(
    remote_timeline: Option<&RemoteTimeline>,
    download_data: &SyncData<LayersDownload>,
) -> (r: DownloadPlan)
    requires
        download_data.data.wf(),
        match remote_timeline {
            Some(rt) => rt.wf(),
            None => true,
        },
    ensures
        match r {
            DownloadPlan::Abort => match remote_timeline {
                None => true,
                Some(rt) => !rt.awaits_download,
            },
            DownloadPlan::Layers(l) => {
                &&& remote_timeline matches Some(rt)
                &&& rt.awaits_download
                &&& l.wf()
                &&& l@ =~= rt.timeline_layers@.difference(download_data.data.layers_to_skip@)
            },
        },
{
    match remote_timeline {
        None => DownloadPlan::Abort,
        Some(rt) => {
            if !rt.awaits_download {
                DownloadPlan::Abort
            } else {
                DownloadPlan::Layers(
                    rt.stored_files().difference(&download_data.data.layers_to_skip),
                )
            }
        },
    }
}

/// One planned layer and whether it was durably materialized locally —
/// either downloaded through the temp-file recipe or found already present.
#[derive(Debug)]
pub struct LayerDownloadResult {
    pub path: Vec<u8>,
    pub ok: bool,
}

/// The paths of the first `n` results that were materialized.
pub open spec fn downloaded_paths(rs: Seq<LayerDownloadResult>, n: int) -> Set<Seq<u8>> {
    Set::new(
        |s: Seq<u8>|
            exists|i: int| 0 <= i < n && i < rs.len() && rs[i].path@ == s && rs[i].ok,
    )
}

/// Whether any of the results failed.
pub open spec fn any_download_failed(rs: Seq<LayerDownloadResult>) -> bool {
    exists|i: int| 0 <= i < rs.len() && !(#[trigger] rs[i]).ok
}

/// Folds the per-layer outcomes into the task.
///
/// Materialized layers accumulate in `layers_to_skip`, so retries do not
/// redo work. When the final fsync of the timeline directory failed, those
/// additions are rolled back: the directory entries are not durable, and
/// the next attempt must handle the files again. Any failure bumps the
/// retry count and hands the task back for rescheduling.
pub fn download_timeline_layers(
    download_data: SyncData<LayersDownload>,
    results: Vec<LayerDownloadResult>,
    dir_fsync_ok: bool,
) -> (r: DownloadedTimeline)
    requires
        download_data.data.wf(),
        download_data.retries < u32::MAX,
    ensures
        match r {
            DownloadedTimeline::Abort => false,
            DownloadedTimeline::Successful(d) => {
                &&& !any_download_failed(results@)
                &&& dir_fsync_ok
                &&& d.retries == download_data.retries
                &&& d.data.wf()
                &&& d.data.layers_to_skip@ =~= download_data.data.layers_to_skip@
                    + downloaded_paths(results@, results@.len() as int)
            },
            DownloadedTimeline::FailedAndRescheduled(d) => {
                &&& any_download_failed(results@) || !dir_fsync_ok
                &&& d.retries == download_data.retries + 1
                &&& d.data.wf()
                &&& d.data.layers_to_skip@ =~= if dir_fsync_ok {
                    download_data.data.layers_to_skip@ + downloaded_paths(
                        results@,
                        results@.len() as int,
                    )
                } else {
                    download_data.data.layers_to_skip@.difference(
                        downloaded_paths(results@, results@.len() as int),
                    )
                }
            },
        },
{
    let SyncData { retries, data } = download_data;
    let LayersDownload { mut layers_to_skip } = data;
    let ghost skip0 = layers_to_skip@;
    let mut errors_happened = false;
    let mut i: usize = 0;
    while i < results.len()
        invariant
            i <= results@.len(),
            layers_to_skip.wf(),
            layers_to_skip@ =~= skip0 + downloaded_paths(results@, i as int),
            errors_happened == exists|j: int| 0 <= j < i && !(#[trigger] results@[j]).ok,
        decreases results@.len() - i,
    {
        let res = &results[i];
        if res.ok {
            layers_to_skip.insert(res.path.clone());
        } else {
            errors_happened = true;
        }
        i += 1;
        proof {
            assert(layers_to_skip@ =~= skip0 + downloaded_paths(results@, i as int));
        }
    }
    if !dir_fsync_ok {
        // the rename may have happened, but the directory entry is not
        // durable: roll the additions back so the next attempt retries
        let mut j: usize = 0;
        while j < results.len()
            invariant
                j <= results@.len(),
                layers_to_skip.wf(),
                layers_to_skip@ =~= (skip0 + downloaded_paths(
                    results@,
                    results@.len() as int,
                )).difference(downloaded_paths(results@, j as int)),
            decreases results@.len() - j,
        {
            let res = &results[j];
            if res.ok {
                layers_to_skip.remove(&res.path);
            }
            j += 1;
            proof {
                assert(layers_to_skip@ =~= (skip0 + downloaded_paths(
                    results@,
                    results@.len() as int,
                )).difference(downloaded_paths(results@, j as int)));
            }
        }
        proof {
            assert(layers_to_skip@ =~= skip0.difference(
                downloaded_paths(results@, results@.len() as int),
            ));
        }
        errors_happened = true;
    }
    if errors_happened {
        DownloadedTimeline::FailedAndRescheduled(
            SyncData { retries: retries + 1, data: LayersDownload { layers_to_skip } },
        )
    } else {
        DownloadedTimeline::Successful(
            SyncData { retries, data: LayersDownload { layers_to_skip } },
        )
    }
}

/// A set of timeline ids, stored without duplicates; its view is the set
/// of their 16-byte values.
#[derive(Debug)]
pub struct TimelineIdSet {
    pub ids: Vec<TimelineId>,
}

impl View for TimelineIdSet {
    type V = Set<Seq<u8>>;

    open spec fn view(&self) -> Set<Seq<u8>> {
        Set::new(|s: Seq<u8>| exists|i: int| 0 <= i < self.ids@.len() && self.ids@[i].0@ == s)
    }
}

impl TimelineIdSet {
    pub open spec fn wf(self) -> bool {
        forall|i: int, j: int| 0 <= i < j < self.ids@.len() ==> self.ids@[i].0@ != self.ids@[j].0@
    }

    pub fn new() -> (r: TimelineIdSet)
        ensures
            r.wf(),
            r@ =~= Set::<Seq<u8>>::empty(),
    {
        TimelineIdSet { ids: Vec::new() }
    }

    pub fn singleton(id: TimelineId) -> (r: TimelineIdSet)
        ensures
            r.wf(),
            r@ =~= Set::<Seq<u8>>::empty().insert(id.0@),
    {
        let mut ids: Vec<TimelineId> = Vec::new();
        ids.push(id);
        let r = TimelineIdSet { ids };
        proof {
            assert(r.ids@[0].0@ == id.0@);
            assert(r@.contains(id.0@));
            assert forall|s: Seq<u8>| r@.contains(s) implies s == id.0@ by {
                let k = choose|k: int| 0 <= k < r.ids@.len() && r.ids@[k].0@ == s;
                assert(k == 0);
            }
            assert(r@ =~= Set::<Seq<u8>>::empty().insert(id.0@));
        }
        r
    }

    pub fn len(&self) -> (r: usize)
        ensures
            r == self.ids@.len(),
    {
        self.ids.len()
    }

    pub fn contains(&self, id: &TimelineId) -> (r: bool)
        ensures
            r == self@.contains(id.0@),
    {
        let mut i: usize = 0;
        while i < self.ids.len()
            invariant
                i <= self.ids@.len(),
                forall|j: int| 0 <= j < i ==> self.ids@[j].0@ != id.0@,
            decreases self.ids@.len() - i,
        {
            if crate::ids::bytes16_eq(&self.ids[i].0, &id.0) {
                return true;
            }
            i += 1;
        }
        false
    }

    pub fn insert(&mut self, id: TimelineId)
        requires
            old(self).wf(),
        ensures
            final(self).wf(),
            final(self)@ =~= old(self)@.insert(id.0@),
    {
        if !self.contains(&id) {
            let ghost pre = self.ids@;
            self.ids.push(id);
            proof {
                assert forall|s: Seq<u8>| self@.contains(s) implies old(self)@.insert(
                    id.0@,
                ).contains(s) by {
                    let k = choose|k: int| 0 <= k < self.ids@.len() && self.ids@[k].0@ == s;
                    if k < pre.len() {
                        assert(pre[k].0@ == s);
                        assert(old(self)@.contains(s));
                    } else {
                        assert(s == id.0@);
                    }
                }
                assert forall|s: Seq<u8>| old(self)@.insert(id.0@).contains(s)
                    implies self@.contains(s) by {
                    if s == id.0@ {
                        assert(self.ids@[pre.len() as int].0@ == s);
                    } else {
                        let k = choose|k: int| 0 <= k < pre.len() && pre[k].0@ == s;
                        assert(self.ids@[k].0@ == s);
                    }
                }
                assert(self@ =~= old(self)@.insert(id.0@));
            }
        } else {
            proof {
                assert(self@ =~= old(self)@.insert(id.0@));
            }
        }
    }
}

/// One fetched timeline manifest keyed by its timeline id.
pub type TimelineEntry = (TimelineId, IndexPart);

/// The map a sequence of keyed entries denotes, later entries winning.
pub open spec fn parts_map_of(e: Seq<TimelineEntry>) -> Map<Seq<u8>, IndexPart>
    decreases e.len(),
{
    if e.len() == 0 {
        Map::empty()
    } else {
        parts_map_of(e.drop_last()).insert(e.last().0.0@, e.last().1)
    }
}

pub proof fn lemma_parts_map_of_domain(e: Seq<TimelineEntry>)
    ensures
        forall|k: Seq<u8>|
            parts_map_of(e).contains_key(k) <==> exists|i: int|
                0 <= i < e.len() && (#[trigger] e[i]).0.0@ == k,
    decreases e.len(),
{
    if e.len() > 0 {
        let dl = e.drop_last();
        lemma_parts_map_of_domain(dl);
        assert(parts_map_of(e) == parts_map_of(dl).insert(e.last().0.0@, e.last().1));
        assert forall|k: Seq<u8>| parts_map_of(e).contains_key(k) implies exists|i: int|
            0 <= i < e.len() && (#[trigger] e[i]).0.0@ == k by {
            if k == e.last().0.0@ {
                assert(e[e.len() - 1].0.0@ == k);
            } else {
                assert(parts_map_of(dl).contains_key(k));
                let i = choose|i: int| 0 <= i < dl.len() && (#[trigger] dl[i]).0.0@ == k;
                assert(dl[i] == e[i]);
                assert(e[i].0.0@ == k);
            }
        }
        assert forall|k: Seq<u8>|
            (exists|i: int| 0 <= i < e.len() && (#[trigger] e[i]).0.0@ == k) implies parts_map_of(
            e,
        ).contains_key(k) by {
            let i = choose|i: int| 0 <= i < e.len() && (#[trigger] e[i]).0.0@ == k;
            if i < e.len() - 1 {
                assert(dl[i] == e[i]);
                assert(dl[i].0.0@ == k);
                assert(parts_map_of(dl).contains_key(k));
            } else {
                assert(k == e.last().0.0@);
            }
        }
    }
}

/// With unique keys, each entry is what the map holds at its key.
pub proof fn lemma_parts_map_of_get(e: Seq<TimelineEntry>)
    requires
        forall|i: int, j: int| 0 <= i < j < e.len() ==> e[i].0.0@ != e[j].0.0@,
    ensures
        forall|i: int|
            0 <= i < e.len() ==> parts_map_of(e).contains_key((#[trigger] e[i]).0.0@)
                && parts_map_of(e)[e[i].0.0@] == e[i].1,
    decreases e.len(),
{
    lemma_parts_map_of_domain(e);
    if e.len() > 0 {
        lemma_parts_map_of_get(e.drop_last());
        assert forall|i: int|
            0 <= i < e.len() implies parts_map_of(e).contains_key((#[trigger] e[i]).0.0@)
            && parts_map_of(e)[e[i].0.0@] == e[i].1 by {
            if i < e.len() - 1 {
                assert(e.drop_last()[i] == e[i]);
                assert(e[i].0.0@ != e.last().0.0@);
            }
        }
    }
}

/// A map from timeline id to its fetched index part.
#[derive(Debug)]
pub struct TimelinePartsMap {
    pub entries: Vec<TimelineEntry>,
}

impl View for TimelinePartsMap {
    type V = Map<Seq<u8>, IndexPart>;

    open spec fn view(&self) -> Map<Seq<u8>, IndexPart> {
        parts_map_of(self.entries@)
    }
}

impl TimelinePartsMap {
    pub open spec fn wf(self) -> bool {
        forall|i: int, j: int|
            0 <= i < j < self.entries@.len() ==> self.entries@[i].0.0@ != self.entries@[j].0.0@
    }

    pub fn new() -> (r: TimelinePartsMap)
        ensures
            r.wf(),
            r@ =~= Map::<Seq<u8>, IndexPart>::empty(),
    {
        TimelinePartsMap { entries: Vec::new() }
    }

    pub fn len(&self) -> (r: usize)
        ensures
            r == self.entries@.len(),
    {
        self.entries.len()
    }

    pub fn contains_key(&self, id: &TimelineId) -> (r: bool)
        ensures
            r == self@.contains_key(id.0@),
    {
        let mut i: usize = 0;
        while i < self.entries.len()
            invariant
                i <= self.entries@.len(),
                forall|j: int| 0 <= j < i ==> self.entries@[j].0.0@ != id.0@,
            decreases self.entries@.len() - i,
        {
            if crate::ids::bytes16_eq(&self.entries[i].0 .0, &id.0) {
                proof {
                    lemma_parts_map_of_domain(self.entries@);
                    assert(self.entries@[i as int].0.0@ == id.0@);
                    assert(self@.contains_key(id.0@));
                }
                return true;
            }
            i += 1;
        }
        proof {
            lemma_parts_map_of_domain(self.entries@);
            if self@.contains_key(id.0@) {
                let j = choose|j: int|
                    0 <= j < self.entries@.len() && (#[trigger] self.entries@[j]).0.0@ == id.0@;
                assert(false);
            }
        }
        false
    }

    pub fn get(&self, id: &TimelineId) -> (r: Option<&IndexPart>)
        requires
            self.wf(),
        ensures
            match r {
                Some(p) => self@.contains_key(id.0@) && *p == self@[id.0@],
                None => !self@.contains_key(id.0@),
            },
    {
        let mut i: usize = 0;
        while i < self.entries.len()
            invariant
                self.wf(),
                i <= self.entries@.len(),
                forall|j: int| 0 <= j < i ==> self.entries@[j].0.0@ != id.0@,
            decreases self.entries@.len() - i,
        {
            if crate::ids::bytes16_eq(&self.entries[i].0 .0, &id.0) {
                proof {
                    lemma_parts_map_of_domain(self.entries@);
                    lemma_parts_map_of_get(self.entries@);
                    assert(self.entries@[i as int].0.0@ == id.0@);
                    assert(self@.contains_key(id.0@));
                    assert(self@[id.0@] == self.entries@[i as int].1);
                }
                return Some(&self.entries[i].1);
            }
            i += 1;
        }
        proof {
            lemma_parts_map_of_domain(self.entries@);
            if self@.contains_key(id.0@) {
                let j = choose|j: int|
                    0 <= j < self.entries@.len() && (#[trigger] self.entries@[j]).0.0@ == id.0@;
                assert(false);
            }
        }
        None
    }

    /// Adds a fresh timeline's part.
    pub fn insert_fresh(&mut self, id: TimelineId, part: IndexPart)
        requires
            old(self).wf(),
            !old(self)@.contains_key(id.0@),
        ensures
            final(self).wf(),
            final(self)@ =~= old(self)@.insert(id.0@, part),
    {
        proof {
            lemma_parts_map_of_domain(self.entries@);
        }
        let ghost pre = self.entries@;
        self.entries.push((id, part));
        proof {
            assert(self.entries@.drop_last() =~= pre);
            assert forall|i: int, j: int|
                0 <= i < j < self.entries@.len() implies self.entries@[i].0.0@
                != self.entries@[j].0.0@ by {
                if j == pre.len() {
                    if self.entries@[i].0.0@ == id.0@ {
                        assert(pre[i].0.0@ == id.0@);
                    }
                }
            }
        }
    }
}

/// The result of a bulk index fetch for one tenant.
///
/// A tenant starts `Present`; the first hard fetch failure promotes it to
/// `Poisoned`, and a `Poisoned` tenant never goes back: consumers must not
/// make decisions from such a partial view. Later failures accumulate into
/// `missing`.
#[derive(Debug)]
pub enum TenantIndexParts {
    Poisoned { present: TimelinePartsMap, missing: TimelineIdSet },
    Present(TimelinePartsMap),
}

impl TenantIndexParts {
    pub open spec fn wf(self) -> bool {
        match self {
            TenantIndexParts::Present(p) => p.wf(),
            TenantIndexParts::Poisoned { present, missing } => present.wf() && missing.wf(),
        }
    }

    /// The parts fetched so far, whether or not the tenant is poisoned.
    pub open spec fn parts_view(self) -> Map<Seq<u8>, IndexPart> {
        match self {
            TenantIndexParts::Present(p) => p@,
            TenantIndexParts::Poisoned { present, .. } => present@,
        }
    }

    /// The timelines whose fetch failed hard.
    pub open spec fn missing_view(self) -> Set<Seq<u8>> {
        match self {
            TenantIndexParts::Present(_) => Set::empty(),
            TenantIndexParts::Poisoned { missing, .. } => missing@,
        }
    }

    /// Records a hard fetch failure: poisons a `Present` tenant, keeping
    /// the parts already fetched; a `Poisoned` one stays poisoned and only
    /// accumulates the failed timeline.
    pub fn add_poisoned(self, timeline_id: TimelineId) -> (r: Self)
        requires
            self.wf(),
        ensures
            r.wf(),
            r is Poisoned,
            r.parts_view() == self.parts_view(),
            r.missing_view() =~= self.missing_view().insert(timeline_id.0@),
    {
        match self {
            TenantIndexParts::Poisoned { present, mut missing } => {
                missing.insert(timeline_id);
                TenantIndexParts::Poisoned { present, missing }
            },
            TenantIndexParts::Present(present) => {
                TenantIndexParts::Poisoned {
                    present,
                    missing: TimelineIdSet::singleton(timeline_id),
                }
            },
        }
    }

    /// Records a fetched part for a fresh timeline of this tenant.
    pub fn add_part(self, timeline_id: TimelineId, part: IndexPart) -> (r: Self)
        requires
            self.wf(),
            !self.parts_view().contains_key(timeline_id.0@),
        ensures
            r.wf(),
            (r is Poisoned) == (self is Poisoned),
            r.parts_view() =~= self.parts_view().insert(timeline_id.0@, part),
            r.missing_view() == self.missing_view(),
    {
        match self {
            TenantIndexParts::Poisoned { mut present, missing } => {
                present.insert_fresh(timeline_id, part);
                TenantIndexParts::Poisoned { present, missing }
            },
            TenantIndexParts::Present(mut parts) => {
                parts.insert_fresh(timeline_id, part);
                TenantIndexParts::Present(parts)
            },
        }
    }
}

/// How one index-part fetch ended.
///
/// `NotFound` is benign during a bulk fetch: it only means the timeline was
/// never uploaded. Any other failure is hard and poisons the tenant.
#[derive(Debug)]
pub enum IndexFetchOutcome {
    Fetched(IndexPart),
    NotFound,
    FetchFailed,
}

/// One fetch attempt and its outcome.
pub type FetchResult = (TenantTimelineId, IndexFetchOutcome);

/// Each `(tenant, timeline)` pair occurs at most once.
pub open spec fn fetches_distinct(outs: Seq<FetchResult>) -> bool {
    forall|i: int, j: int|
        0 <= i < j < outs.len() ==> !(outs[i].0.tenant_id.0@ == outs[j].0.tenant_id.0@
            && outs[i].0.timeline_id.0@ == outs[j].0.timeline_id.0@)
}

/// Some fetch of tenant `t` in the first `n` results failed hard.
pub open spec fn tenant_failed(outs: Seq<FetchResult>, n: int, t: Seq<u8>) -> bool {
    exists|i: int|
        0 <= i < n && i < outs.len() && (#[trigger] outs[i]).0.tenant_id.0@ == t && outs[i].1
            is FetchFailed
}

/// Some fetch of tenant `t` in the first `n` results succeeded.
pub open spec fn tenant_fetched(outs: Seq<FetchResult>, n: int, t: Seq<u8>) -> bool {
    exists|i: int|
        0 <= i < n && i < outs.len() && (#[trigger] outs[i]).0.tenant_id.0@ == t && outs[i].1
            is Fetched
}

/// The timelines of tenant `t` whose fetch failed hard in the first `n`
/// results.
pub open spec fn missing_of(outs: Seq<FetchResult>, n: int, t: Seq<u8>) -> Set<Seq<u8>> {
    Set::new(
        |tl: Seq<u8>|
            exists|i: int|
                0 <= i < n && i < outs.len() && (#[trigger] outs[i]).0.tenant_id.0@ == t
                    && outs[i].0.timeline_id.0@ == tl && outs[i].1 is FetchFailed,
    )
}

/// `parts` holds exactly the index parts fetched for tenant `t` in the
/// first `n` results.
pub open spec fn parts_match(
    outs: Seq<FetchResult>,
    n: int,
    t: Seq<u8>,
    parts: Map<Seq<u8>, IndexPart>,
) -> bool {
    &&& forall|tl: Seq<u8>|
        parts.contains_key(tl) <==> exists|i: int|
            0 <= i < n && i < outs.len() && (#[trigger] outs[i]).0.tenant_id.0@ == t && outs[i].0.timeline_id.0@
                == tl && outs[i].1 is Fetched
    &&& forall|i: int|
        0 <= i < n && i < outs.len() && (#[trigger] outs[i]).0.tenant_id.0@ == t && outs[i].1
            is Fetched ==> parts.contains_key(outs[i].0.timeline_id.0@)
            && parts[outs[i].0.timeline_id.0@] == outs[i].1->Fetched_0
}

/// The whole state of one accumulated tenant against the first `n` results.
pub open spec fn tenant_entry_matches(
    outs: Seq<FetchResult>,
    n: int,
    t: Seq<u8>,
    v: TenantIndexParts,
) -> bool {
    &&& (v is Poisoned <==> tenant_failed(outs, n, t))
    &&& parts_match(outs, n, t, v.parts_view())
    &&& v.missing_view() =~= missing_of(outs, n, t)
}

/// Some entry of the list belongs to tenant `t`.
pub open spec fn has_tenant(e: Seq<(TenantId, TenantIndexParts)>, t: Seq<u8>) -> bool {
    exists|k: int| 0 <= k < e.len() && (#[trigger] e[k]).0.0@ == t
}

/// The accumulated result of a bulk index fetch, per tenant.
#[derive(Debug)]
pub struct TenantPartsMap {
    pub entries: Vec<(TenantId, TenantIndexParts)>,
}

impl TenantPartsMap {
    pub open spec fn wf(self) -> bool {
        &&& forall|i: int, j: int|
            0 <= i < j < self.entries@.len() ==> self.entries@[i].0.0@ != self.entries@[j].0.0@
        &&& forall|i: int| 0 <= i < self.entries@.len() ==> (#[trigger] self.entries@[i]).1.wf()
    }

    pub fn new() -> (r: TenantPartsMap)
        ensures
            r.wf(),
            r.entries@.len() == 0,
    {
        TenantPartsMap { entries: Vec::new() }
    }

    pub fn len(&self) -> (r: usize)
        ensures
            r == self.entries@.len(),
    {
        self.entries.len()
    }

    fn find(&self, tenant: &TenantId) -> (r: Option<usize>)
        ensures
            match r {
                Some(i) => i < self.entries@.len() && self.entries@[i as int].0.0@ == tenant.0@,
                None => forall|i: int|
                    0 <= i < self.entries@.len() ==> self.entries@[i].0.0@ != tenant.0@,
            },
    {
        let mut i: usize = 0;
        while i < self.entries.len()
            invariant
                i <= self.entries@.len(),
                forall|j: int| 0 <= j < i ==> self.entries@[j].0.0@ != tenant.0@,
            decreases self.entries@.len() - i,
        {
            if crate::ids::bytes16_eq(&self.entries[i].0 .0, &tenant.0) {
                return Some(i);
            }
            i += 1;
        }
        None
    }

    /// The accumulated state of one tenant.
    pub fn get(&self, tenant: &TenantId) -> (r: Option<&TenantIndexParts>)
        ensures
            match r {
                Some(v) => exists|i: int|
                    0 <= i < self.entries@.len() && (#[trigger] self.entries@[i]).0.0@
                        == tenant.0@ && self.entries@[i].1 == *v,
                None => forall|i: int|
                    0 <= i < self.entries@.len() ==> self.entries@[i].0.0@ != tenant.0@,
            },
    {
        match self.find(tenant) {
            Some(i) => Some(&self.entries[i].1),
            None => None,
        }
    }
}

/// Accumulates the outcomes of a bulk index-part fetch into per-tenant
/// results.
///
/// A `NotFound` leaves no trace: the timeline was simply never uploaded. A
/// fetched part lands in its tenant's map. A hard failure poisons the
/// tenant — keeping whatever parts were already fetched — and accumulates
/// the failed timeline id. The map is returned even if every tenant is
/// poisoned.
pub fn download_index_parts(outcomes: Vec<FetchResult>) -> (r: TenantPartsMap)
    requires
        fetches_distinct(outcomes@),
    ensures
        r.wf(),
        // exactly the tenants with a non-benign outcome appear
        forall|t: Seq<u8>|
            #![trigger has_tenant(r.entries@, t)]
            #![trigger tenant_failed(outcomes@, outcomes@.len() as int, t)]
            #![trigger tenant_fetched(outcomes@, outcomes@.len() as int, t)]
            has_tenant(r.entries@, t) <==> (tenant_failed(
                outcomes@,
                outcomes@.len() as int,
                t,
            ) || tenant_fetched(outcomes@, outcomes@.len() as int, t)),
        // and each carries exactly its fetched parts and failed timelines
        forall|k: int|
            0 <= k < r.entries@.len() ==> tenant_entry_matches(
                outcomes@,
                outcomes@.len() as int,
                (#[trigger] r.entries@[k]).0.0@,
                r.entries@[k].1,
            ),
{
    let ghost outs = outcomes@;
    let mut rest = outcomes;
    let total = rest.len();
    proof {
        assert(outs.len() == total);
    }
    let mut m = TenantPartsMap::new();
    let mut i: usize = 0;
    while rest.len() > 0
        invariant
            fetches_distinct(outs),
            i <= outs.len(),
            i + rest@.len() == outs.len(),
            rest@ =~= outs.skip(i as int),
            outs.len() <= usize::MAX,
            m.wf(),
            forall|t: Seq<u8>|
                #![trigger has_tenant(m.entries@, t)]
                #![trigger tenant_failed(outs, i as int, t)]
                #![trigger tenant_fetched(outs, i as int, t)]
                has_tenant(m.entries@, t) <==> (tenant_failed(outs, i as int, t)
                    || tenant_fetched(outs, i as int, t)),
            forall|k: int|
                0 <= k < m.entries@.len() ==> tenant_entry_matches(
                    outs,
                    i as int,
                    (#[trigger] m.entries@[k]).0.0@,
                    m.entries@[k].1,
                ),
        decreases rest@.len(),
    {
        let ghost pre = m.entries@;
        let (id, outcome) = rest.remove(0);
        proof {
            assert(outs.skip(i as int)[0] == outs[i as int]);
            assert(id == outs[i as int].0);
            assert(outcome == outs[i as int].1);
            assert(rest@ =~= outs.skip(i + 1));
        }
        match outcome {
            IndexFetchOutcome::NotFound => {
                proof {
                    assert forall|t3: Seq<u8>| has_tenant(pre, t3) implies has_tenant(
                        m.entries@,
                        t3,
                    ) by {}
                }
            },
            IndexFetchOutcome::Fetched(part) => {
                let tenant = id.tenant_id;
                let timeline = id.timeline_id;
                let ghost t = tenant.0@;
                match m.find(&tenant) {
                    Some(k) => {
                        let (_, v) = m.entries.remove(k);
                        proof {
                            assert(pre[k as int].1 == v);
                            assert(tenant_entry_matches(outs, i as int, t, v));
                            if v.parts_view().contains_key(timeline.0@) {
                                let w = choose|w: int|
                                    0 <= w < i && w < outs.len() && (
                                    #[trigger] outs[w]).0.tenant_id.0@ == t
                                        && outs[w].0.timeline_id.0@ == timeline.0@ && outs[w].1
                                        is Fetched;
                                assert(false);
                            }
                        }
                        let v2 = v.add_part(timeline, part);
                        m.entries.push((tenant, v2));
                        proof {
                            assert(m.entries@ =~= pre.remove(k as int).push((tenant, v2)));
                            lemma_step_fetched(outs, i as int, v, v2);
                            assert forall|t3: Seq<u8>| has_tenant(pre, t3) implies has_tenant(
                                m.entries@,
                                t3,
                            ) by {
                                let k3 = choose|k3: int|
                                    0 <= k3 < pre.len() && (#[trigger] pre[k3]).0.0@ == t3;
                                if k3 == k {
                                    assert(m.entries@[m.entries@.len() - 1].0.0@ == t3);
                                } else if k3 < k {
                                    assert(m.entries@[k3].0.0@ == t3);
                                } else {
                                    assert(m.entries@[k3 - 1].0.0@ == t3);
                                }
                            }
                        }
                    },
                    None => {
                        proof {
                            if tenant_failed(outs, i as int, t) || tenant_fetched(
                                outs,
                                i as int,
                                t,
                            ) {
                                assert(has_tenant(m.entries@, t));
                                let k = choose|k: int|
                                    0 <= k < m.entries@.len() && (#[trigger] m.entries@[k]).0.0@
                                        == t;
                                assert(false);
                            }
                        }
                        let mut parts = TimelinePartsMap::new();
                        parts.insert_fresh(timeline, part);
                        let v2 = TenantIndexParts::Present(parts);
                        m.entries.push((tenant, v2));
                        proof {
                            lemma_step_fresh(outs, i as int, v2);
                            assert forall|t3: Seq<u8>| has_tenant(pre, t3) implies has_tenant(
                                m.entries@,
                                t3,
                            ) by {
                                let k3 = choose|k3: int|
                                    0 <= k3 < pre.len() && (#[trigger] pre[k3]).0.0@ == t3;
                                assert(m.entries@[k3].0.0@ == t3);
                            }
                        }
                    },
                }
            },
            IndexFetchOutcome::FetchFailed => {
                let tenant = id.tenant_id;
                let timeline = id.timeline_id;
                let ghost t = tenant.0@;
                match m.find(&tenant) {
                    Some(k) => {
                        let (_, v) = m.entries.remove(k);
                        proof {
                            assert(pre[k as int].1 == v);
                            assert(tenant_entry_matches(outs, i as int, t, v));
                        }
                        let v2 = v.add_poisoned(timeline);
                        m.entries.push((tenant, v2));
                        proof {
                            assert(m.entries@ =~= pre.remove(k as int).push((tenant, v2)));
                            lemma_step_failed(outs, i as int, v, v2);
                            assert forall|t3: Seq<u8>| has_tenant(pre, t3) implies has_tenant(
                                m.entries@,
                                t3,
                            ) by {
                                let k3 = choose|k3: int|
                                    0 <= k3 < pre.len() && (#[trigger] pre[k3]).0.0@ == t3;
                                if k3 == k {
                                    assert(m.entries@[m.entries@.len() - 1].0.0@ == t3);
                                } else if k3 < k {
                                    assert(m.entries@[k3].0.0@ == t3);
                                } else {
                                    assert(m.entries@[k3 - 1].0.0@ == t3);
                                }
                            }
                        }
                    },
                    None => {
                        proof {
                            if tenant_failed(outs, i as int, t) || tenant_fetched(
                                outs,
                                i as int,
                                t,
                            ) {
                                assert(has_tenant(m.entries@, t));
                                let k = choose|k: int|
                                    0 <= k < m.entries@.len() && (#[trigger] m.entries@[k]).0.0@
                                        == t;
                                assert(false);
                            }
                        }
                        let v2 = TenantIndexParts::Poisoned {
                            present: TimelinePartsMap::new(),
                            missing: TimelineIdSet::singleton(timeline),
                        };
                        m.entries.push((tenant, v2));
                        proof {
                            lemma_step_fresh(outs, i as int, v2);
                            assert forall|t3: Seq<u8>| has_tenant(pre, t3) implies has_tenant(
                                m.entries@,
                                t3,
                            ) by {
                                let k3 = choose|k3: int|
                                    0 <= k3 < pre.len() && (#[trigger] pre[k3]).0.0@ == t3;
                                assert(m.entries@[k3].0.0@ == t3);
                            }
                        }
                    },
                }
            },
        }
        i += 1;
        proof {
            lemma_fetch_prefix_step(outs, i - 1);
            assert forall|k: int|
                0 <= k < m.entries@.len() implies tenant_entry_matches(
                outs,
                i as int,
                (#[trigger] m.entries@[k]).0.0@,
                m.entries@[k].1,
            ) by {
                let t2 = m.entries@[k].0.0@;
                let v2 = m.entries@[k].1;
                if t2 == outs[i - 1].0.tenant_id.0@ && !(outs[i - 1].1 is NotFound) {
                    assert(m.entries@[m.entries@.len() - 1].0.0@ == t2);
                    assert(k == m.entries@.len() - 1);
                } else {
                    assert(tenant_entry_matches(outs, i - 1, t2, v2));
                    assert(v2.missing_view() =~= missing_of(outs, i as int, t2));
                }
            }
            assert forall|t2: Seq<u8>|
                #![trigger has_tenant(m.entries@, t2)]
                #![trigger tenant_failed(outs, i as int, t2)]
                #![trigger tenant_fetched(outs, i as int, t2)]
                has_tenant(m.entries@, t2) <==> (tenant_failed(outs, i as int, t2)
                    || tenant_fetched(outs, i as int, t2)) by {
                if tenant_failed(outs, i as int, t2) || tenant_fetched(outs, i as int, t2) {
                    if tenant_failed(outs, i - 1, t2) || tenant_fetched(outs, i - 1, t2) {
                        assert(has_tenant(pre, t2));
                        assert(has_tenant(m.entries@, t2));
                    } else {
                        assert(t2 == outs[i - 1].0.tenant_id.0@ && !(outs[i - 1].1 is NotFound));
                        assert(m.entries@[m.entries@.len() - 1].0.0@ == t2);
                    }
                }
                if has_tenant(m.entries@, t2) {
                    let k = choose|k: int|
                        0 <= k < m.entries@.len() && (#[trigger] m.entries@[k]).0.0@ == t2;
                    if k < pre.len() && m.entries@[k] == pre[k] {
                        assert(has_tenant(pre, t2));
                    }
                }
            }
        }
    }
    m
}

/// A fetched part extends a tenant's accumulated state.
proof fn lemma_step_fetched(
    outs: Seq<FetchResult>,
    i: int,
    v: TenantIndexParts,
    v2: TenantIndexParts,
)
    requires
        fetches_distinct(outs),
        0 <= i < outs.len(),
        outs[i].1 is Fetched,
        tenant_entry_matches(outs, i, outs[i].0.tenant_id.0@, v),
        !v.parts_view().contains_key(outs[i].0.timeline_id.0@),
        (v2 is Poisoned) == (v is Poisoned),
        v2.parts_view() =~= v.parts_view().insert(outs[i].0.timeline_id.0@, outs[i].1->Fetched_0),
        v2.missing_view() == v.missing_view(),
    ensures
        tenant_entry_matches(outs, i + 1, outs[i].0.tenant_id.0@, v2),
{
    let t = outs[i].0.tenant_id.0@;
    let tl = outs[i].0.timeline_id.0@;
    if tenant_failed(outs, i + 1, t) {
        let w = choose|w: int|
            0 <= w < i + 1 && w < outs.len() && (#[trigger] outs[w]).0.tenant_id.0@ == t
                && outs[w].1 is FetchFailed;
        assert(w != i);
        assert(tenant_failed(outs, i, t));
    }
    assert forall|tl2: Seq<u8>| missing_of(outs, i + 1, t).contains(tl2)
        implies v2.missing_view().contains(tl2) by {
        let w = choose|w: int|
            0 <= w < i + 1 && w < outs.len() && (#[trigger] outs[w]).0.tenant_id.0@ == t
                && outs[w].0.timeline_id.0@ == tl2 && outs[w].1 is FetchFailed;
        assert(w != i);
        assert(missing_of(outs, i, t).contains(tl2));
    }
    assert forall|tl2: Seq<u8>| v2.missing_view().contains(tl2) implies missing_of(
        outs,
        i + 1,
        t,
    ).contains(tl2) by {
        assert(missing_of(outs, i, t).contains(tl2));
        let w = choose|w: int|
            0 <= w < i && w < outs.len() && (#[trigger] outs[w]).0.tenant_id.0@ == t
                && outs[w].0.timeline_id.0@ == tl2 && outs[w].1 is FetchFailed;
        assert(0 <= w < i + 1);
    }
    assert(v2.missing_view() =~= missing_of(outs, i + 1, t));
    assert forall|tl2: Seq<u8>| v2.parts_view().contains_key(tl2) implies exists|w: int|
        0 <= w < i + 1 && w < outs.len() && (#[trigger] outs[w]).0.tenant_id.0@ == t
            && outs[w].0.timeline_id.0@ == tl2 && outs[w].1 is Fetched by {
        if tl2 == tl {
            assert(outs[i].0.tenant_id.0@ == t && outs[i].0.timeline_id.0@ == tl2 && outs[i].1
                is Fetched);
        } else {
            assert(v.parts_view().contains_key(tl2));
            let w = choose|w: int|
                0 <= w < i && w < outs.len() && (#[trigger] outs[w]).0.tenant_id.0@ == t
                    && outs[w].0.timeline_id.0@ == tl2 && outs[w].1 is Fetched;
            assert(0 <= w < i + 1);
        }
    }
    assert forall|tl2: Seq<u8>|
        (exists|w: int|
            0 <= w < i + 1 && w < outs.len() && (#[trigger] outs[w]).0.tenant_id.0@ == t
                && outs[w].0.timeline_id.0@ == tl2 && outs[w].1 is Fetched)
        implies v2.parts_view().contains_key(tl2) by {
        let w = choose|w: int|
            0 <= w < i + 1 && w < outs.len() && (#[trigger] outs[w]).0.tenant_id.0@ == t
                && outs[w].0.timeline_id.0@ == tl2 && outs[w].1 is Fetched;
        if w == i {
        } else {
            assert(v.parts_view().contains_key(tl2));
        }
    }
    assert forall|w: int|
        0 <= w < i + 1 && w < outs.len() && (#[trigger] outs[w]).0.tenant_id.0@ == t && outs[w].1
            is Fetched implies v2.parts_view().contains_key(outs[w].0.timeline_id.0@)
        && v2.parts_view()[outs[w].0.timeline_id.0@] == outs[w].1->Fetched_0 by {
        if w == i {
        } else {
            assert(v.parts_view().contains_key(outs[w].0.timeline_id.0@));
            assert(outs[w].0.timeline_id.0@ != tl);
        }
    }
}

/// A hard failure extends a tenant's accumulated state.
proof fn lemma_step_failed(
    outs: Seq<FetchResult>,
    i: int,
    v: TenantIndexParts,
    v2: TenantIndexParts,
)
    requires
        fetches_distinct(outs),
        0 <= i < outs.len(),
        outs[i].1 is FetchFailed,
        tenant_entry_matches(outs, i, outs[i].0.tenant_id.0@, v),
        v2 is Poisoned,
        v2.parts_view() == v.parts_view(),
        v2.missing_view() =~= v.missing_view().insert(outs[i].0.timeline_id.0@),
    ensures
        tenant_entry_matches(outs, i + 1, outs[i].0.tenant_id.0@, v2),
{
    let t = outs[i].0.tenant_id.0@;
    let tl = outs[i].0.timeline_id.0@;
    assert(tenant_failed(outs, i + 1, t)) by {
        assert(outs[i].0.tenant_id.0@ == t && outs[i].1 is FetchFailed);
    }
    assert forall|tl2: Seq<u8>| missing_of(outs, i + 1, t).contains(tl2)
        implies v2.missing_view().contains(tl2) by {
        let w = choose|w: int|
            0 <= w < i + 1 && w < outs.len() && (#[trigger] outs[w]).0.tenant_id.0@ == t
                && outs[w].0.timeline_id.0@ == tl2 && outs[w].1 is FetchFailed;
        if w == i {
        } else {
            assert(missing_of(outs, i, t).contains(tl2));
        }
    }
    assert forall|tl2: Seq<u8>| v2.missing_view().contains(tl2) implies missing_of(
        outs,
        i + 1,
        t,
    ).contains(tl2) by {
        if tl2 == tl {
            assert(outs[i].0.tenant_id.0@ == t && outs[i].0.timeline_id.0@ == tl2 && outs[i].1
                is FetchFailed);
        } else {
            assert(missing_of(outs, i, t).contains(tl2));
            let w = choose|w: int|
                0 <= w < i && w < outs.len() && (#[trigger] outs[w]).0.tenant_id.0@ == t
                    && outs[w].0.timeline_id.0@ == tl2 && outs[w].1 is FetchFailed;
            assert(0 <= w < i + 1);
        }
    }
    assert(v2.missing_view() =~= missing_of(outs, i + 1, t));
    assert forall|tl2: Seq<u8>| v2.parts_view().contains_key(tl2) implies exists|w: int|
        0 <= w < i + 1 && w < outs.len() && (#[trigger] outs[w]).0.tenant_id.0@ == t
            && outs[w].0.timeline_id.0@ == tl2 && outs[w].1 is Fetched by {
        let w = choose|w: int|
            0 <= w < i && w < outs.len() && (#[trigger] outs[w]).0.tenant_id.0@ == t
                && outs[w].0.timeline_id.0@ == tl2 && outs[w].1 is Fetched;
        assert(0 <= w < i + 1);
    }
    assert forall|tl2: Seq<u8>|
        (exists|w: int|
            0 <= w < i + 1 && w < outs.len() && (#[trigger] outs[w]).0.tenant_id.0@ == t
                && outs[w].0.timeline_id.0@ == tl2 && outs[w].1 is Fetched)
        implies v2.parts_view().contains_key(tl2) by {
        let w = choose|w: int|
            0 <= w < i + 1 && w < outs.len() && (#[trigger] outs[w]).0.tenant_id.0@ == t
                && outs[w].0.timeline_id.0@ == tl2 && outs[w].1 is Fetched;
        assert(w != i);
        assert(v.parts_view().contains_key(tl2));
    }
    assert forall|w: int|
        0 <= w < i + 1 && w < outs.len() && (#[trigger] outs[w]).0.tenant_id.0@ == t && outs[w].1
            is Fetched implies v2.parts_view().contains_key(outs[w].0.timeline_id.0@)
        && v2.parts_view()[outs[w].0.timeline_id.0@] == outs[w].1->Fetched_0 by {
        assert(w != i);
    }
}

/// A first non-benign outcome creates the tenant's state from scratch.
proof fn lemma_step_fresh(outs: Seq<FetchResult>, i: int, v2: TenantIndexParts)
    requires
        fetches_distinct(outs),
        0 <= i < outs.len(),
        !tenant_failed(outs, i, outs[i].0.tenant_id.0@),
        !tenant_fetched(outs, i, outs[i].0.tenant_id.0@),
        outs[i].1 is Fetched ==> {
            &&& !(v2 is Poisoned)
            &&& v2.parts_view() =~= Map::<Seq<u8>, IndexPart>::empty().insert(
                outs[i].0.timeline_id.0@,
                outs[i].1->Fetched_0,
            )
            &&& v2.missing_view() =~= Set::<Seq<u8>>::empty()
        },
        outs[i].1 is FetchFailed ==> {
            &&& v2 is Poisoned
            &&& v2.parts_view() =~= Map::<Seq<u8>, IndexPart>::empty()
            &&& v2.missing_view() =~= Set::<Seq<u8>>::empty().insert(outs[i].0.timeline_id.0@)
        },
        outs[i].1 is Fetched || outs[i].1 is FetchFailed,
    ensures
        tenant_entry_matches(outs, i + 1, outs[i].0.tenant_id.0@, v2),
{
    let t = outs[i].0.tenant_id.0@;
    let tl = outs[i].0.timeline_id.0@;
    if tenant_failed(outs, i + 1, t) {
        let w = choose|w: int|
            0 <= w < i + 1 && w < outs.len() && (#[trigger] outs[w]).0.tenant_id.0@ == t
                && outs[w].1 is FetchFailed;
        assert(w == i);
    }
    if outs[i].1 is FetchFailed {
        assert(tenant_failed(outs, i + 1, t)) by {
            assert(outs[i].0.tenant_id.0@ == t && outs[i].1 is FetchFailed);
        }
    }
    assert forall|tl2: Seq<u8>| missing_of(outs, i + 1, t).contains(tl2)
        implies v2.missing_view().contains(tl2) by {
        let w = choose|w: int|
            0 <= w < i + 1 && w < outs.len() && (#[trigger] outs[w]).0.tenant_id.0@ == t
                && outs[w].0.timeline_id.0@ == tl2 && outs[w].1 is FetchFailed;
        assert(w == i);
    }
    assert forall|tl2: Seq<u8>| v2.missing_view().contains(tl2) implies missing_of(
        outs,
        i + 1,
        t,
    ).contains(tl2) by {
        assert(outs[i].1 is FetchFailed && tl2 == tl);
        assert(outs[i].0.tenant_id.0@ == t && outs[i].0.timeline_id.0@ == tl2 && outs[i].1
            is FetchFailed);
    }
    assert(v2.missing_view() =~= missing_of(outs, i + 1, t));
    assert forall|tl2: Seq<u8>| v2.parts_view().contains_key(tl2) implies exists|w: int|
        0 <= w < i + 1 && w < outs.len() && (#[trigger] outs[w]).0.tenant_id.0@ == t
            && outs[w].0.timeline_id.0@ == tl2 && outs[w].1 is Fetched by {
        assert(outs[i].1 is Fetched && tl2 == tl);
        assert(outs[i].0.tenant_id.0@ == t && outs[i].0.timeline_id.0@ == tl2 && outs[i].1
            is Fetched);
    }
    assert forall|tl2: Seq<u8>|
        (exists|w: int|
            0 <= w < i + 1 && w < outs.len() && (#[trigger] outs[w]).0.tenant_id.0@ == t
                && outs[w].0.timeline_id.0@ == tl2 && outs[w].1 is Fetched)
        implies v2.parts_view().contains_key(tl2) by {
        let w = choose|w: int|
            0 <= w < i + 1 && w < outs.len() && (#[trigger] outs[w]).0.tenant_id.0@ == t
                && outs[w].0.timeline_id.0@ == tl2 && outs[w].1 is Fetched;
        assert(w == i);
    }
    assert forall|w: int|
        0 <= w < i + 1 && w < outs.len() && (#[trigger] outs[w]).0.tenant_id.0@ == t && outs[w].1
            is Fetched implies v2.parts_view().contains_key(outs[w].0.timeline_id.0@)
        && v2.parts_view()[outs[w].0.timeline_id.0@] == outs[w].1->Fetched_0 by {
        assert(w == i);
    }
}

/// Extending the prefix by one result changes only that result's tenant:
/// for every other tenant all the accumulated views stay the same.
proof fn lemma_fetch_prefix_step(outs: Seq<FetchResult>, i: int)
    requires
        0 <= i < outs.len(),
    ensures
        forall|t: Seq<u8>|
            t != outs[i].0.tenant_id.0@ || outs[i].1 is NotFound ==> (tenant_failed(outs, i, t)
                == tenant_failed(outs, i + 1, t) && tenant_fetched(outs, i, t) == tenant_fetched(
                outs,
                i + 1,
                t,
            ) && missing_of(outs, i, t) =~= missing_of(outs, i + 1, t)),
        forall|t: Seq<u8>, parts: Map<Seq<u8>, IndexPart>|
            t != outs[i].0.tenant_id.0@ || outs[i].1 is NotFound ==> (parts_match(outs, i, t, parts)
                == parts_match(outs, i + 1, t, parts)),
{
    assert forall|t: Seq<u8>|
        t != outs[i].0.tenant_id.0@ || outs[i].1 is NotFound implies (tenant_failed(outs, i, t)
        == tenant_failed(outs, i + 1, t) && tenant_fetched(outs, i, t) == tenant_fetched(
        outs,
        i + 1,
        t,
    ) && missing_of(outs, i, t) =~= missing_of(outs, i + 1, t)) by {
        if tenant_failed(outs, i + 1, t) {
            let w = choose|w: int|
                0 <= w < i + 1 && w < outs.len() && (#[trigger] outs[w]).0.tenant_id.0@ == t
                    && outs[w].1 is FetchFailed;
            assert(w < i);
            assert(tenant_failed(outs, i, t));
        }
        if tenant_fetched(outs, i + 1, t) {
            let w = choose|w: int|
                0 <= w < i + 1 && w < outs.len() && (#[trigger] outs[w]).0.tenant_id.0@ == t
                    && outs[w].1 is Fetched;
            assert(w < i);
            assert(tenant_fetched(outs, i, t));
        }
        assert forall|tl: Seq<u8>| missing_of(outs, i + 1, t).contains(tl) implies missing_of(
            outs,
            i,
            t,
        ).contains(tl) by {
            let w = choose|w: int|
                0 <= w < i + 1 && w < outs.len() && (#[trigger] outs[w]).0.tenant_id.0@ == t
                    && outs[w].0.timeline_id.0@ == tl && outs[w].1 is FetchFailed;
            assert(w < i);
        }
        assert(missing_of(outs, i, t) =~= missing_of(outs, i + 1, t));
    }
    assert forall|t: Seq<u8>, parts: Map<Seq<u8>, IndexPart>|
        t != outs[i].0.tenant_id.0@ || outs[i].1 is NotFound implies (parts_match(outs, i, t, parts)
        == parts_match(outs, i + 1, t, parts)) by {
        if parts_match(outs, i, t, parts) {
            assert forall|tl: Seq<u8>| parts.contains_key(tl) implies exists|w: int|
                0 <= w < i + 1 && w < outs.len() && (#[trigger] outs[w]).0.tenant_id.0@ == t
                    && outs[w].0.timeline_id.0@ == tl && outs[w].1 is Fetched by {}
            assert forall|tl: Seq<u8>|
                (exists|w: int|
                    0 <= w < i + 1 && w < outs.len() && (#[trigger] outs[w]).0.tenant_id.0@ == t
                        && outs[w].0.timeline_id.0@ == tl && outs[w].1 is Fetched)
                implies parts.contains_key(tl) by {
                let w = choose|w: int|
                    0 <= w < i + 1 && w < outs.len() && (#[trigger] outs[w]).0.tenant_id.0@ == t
                        && outs[w].0.timeline_id.0@ == tl && outs[w].1 is Fetched;
                assert(w < i);
            }
            assert(parts_match(outs, i + 1, t, parts));
        } else if parts_match(outs, i + 1, t, parts) {
            assert forall|tl: Seq<u8>| parts.contains_key(tl) implies exists|w: int|
                0 <= w < i && w < outs.len() && (#[trigger] outs[w]).0.tenant_id.0@ == t
                    && outs[w].0.timeline_id.0@ == tl && outs[w].1 is Fetched by {
                let w = choose|w: int|
                    0 <= w < i + 1 && w < outs.len() && (#[trigger] outs[w]).0.tenant_id.0@ == t
                        && outs[w].0.timeline_id.0@ == tl && outs[w].1 is Fetched;
                assert(w < i);
            }
            assert(parts_match(outs, i, t, parts));
        }
    }
}

/// Why listing a tenant's remote timelines failed.
#[derive(Debug)]
pub enum ListTimelinesError {
    /// The remote storage holds nothing under the tenant's prefix.
    NoTimelinesFound,
    /// An object name under the prefix is no timeline id; it is carried
    /// back for the report.
    BadTimelineName(Vec<u8>),
}

/// Turns the object names listed under a tenant's remote prefix into sync
/// ids for that tenant.
///
/// An empty listing is an error: the tenant has no timelines remotely. So
/// is a name that does not parse as a timeline id.
pub fn parse_timeline_sync_ids(tenant_id: TenantId, names: &Vec<Vec<u8>>) -> (r: Result<
    Vec<TenantTimelineId>,
    ListTimelinesError,
>)
    ensures
        match r {
            Ok(ids) => {
                &&& names@.len() > 0
                &&& ids@.len() == names@.len()
                &&& forall|i: int|
                    0 <= i < ids@.len() ==> (#[trigger] ids@[i]).tenant_id == tenant_id
                &&& forall|i: int|
                    0 <= i < ids@.len() ==> crate::ids::hex_parses_to(
                        names@[i]@,
                        (#[trigger] ids@[i]).timeline_id.0@,
                    )
            },
            Err(ListTimelinesError::NoTimelinesFound) => names@.len() == 0,
            Err(ListTimelinesError::BadTimelineName(n)) => exists|i: int|
                0 <= i < names@.len() && names@[i]@ == n@ && (names@[i]@.len() != 32 || exists|
                    b: int,
                |
                    0 <= b < 32 && !crate::ids::is_hex_digit(names@[i]@[b])),
        },
{
    if names.len() == 0 {
        return Err(ListTimelinesError::NoTimelinesFound);
    }
    let mut ids: Vec<TenantTimelineId> = Vec::new();
    let mut i: usize = 0;
    while i < names.len()
        invariant
            names@.len() > 0,
            i <= names@.len(),
            ids@.len() == i,
            forall|j: int| 0 <= j < i ==> (#[trigger] ids@[j]).tenant_id == tenant_id,
            forall|j: int|
                0 <= j < i ==> crate::ids::hex_parses_to(
                    names@[j]@,
                    (#[trigger] ids@[j]).timeline_id.0@,
                ),
        decreases names@.len() - i,
    {
        match crate::ids::TimelineId::parse(&names[i]) {
            Some(timeline_id) => {
                ids.push(TenantTimelineId { tenant_id, timeline_id });
            },
            None => {
                return Err(ListTimelinesError::BadTimelineName(names[i].clone()));
            },
        }
        i += 1;
    }
    Ok(ids)
}

/// Why a tenant-scoped index fetch could not return a usable map.
#[derive(Debug)]
pub enum GatherError {
    /// The accumulated map holds no entry for the tenant at all.
    MissingTenantEntry,
    /// The tenant is poisoned: at least one timeline's index failed hard.
    /// Carries the failed timeline ids.
    Poisoned(TimelineIdSet),
}

/// Resolves a tenant's entry out of the accumulated bulk-fetch result.
///
/// A missing entry is a bug in the caller; a poisoned tenant fails with the
/// set of missing timelines; only a fully present tenant yields its map.
pub fn resolve_tenant_index_parts(m: TenantPartsMap, tenant_id: TenantId) -> (r: Result<
    TimelinePartsMap,
    GatherError,
>)
    requires
        m.wf(),
    ensures
        match r {
            Ok(parts) => {
                &&& parts.wf()
                &&& exists|k: int|
                    0 <= k < m.entries@.len() && (#[trigger] m.entries@[k]).0.0@ == tenant_id.0@
                        && (m.entries@[k].1 matches TenantIndexParts::Present(p) && p == parts)
            },
            Err(GatherError::MissingTenantEntry) => !has_tenant(m.entries@, tenant_id.0@),
            Err(GatherError::Poisoned(missing)) => exists|k: int|
                0 <= k < m.entries@.len() && (#[trigger] m.entries@[k]).0.0@ == tenant_id.0@
                    && (m.entries@[k].1 matches TenantIndexParts::Poisoned {
                        missing: mm,
                        ..
                    } && mm == missing),
        },
{
    let ghost entries0 = m.entries@;
    let mut rest = m.entries;
    let mut i: usize = 0;
    while i < rest.len()
        invariant
            rest@ == entries0,
            entries0 == m.entries@,
            m.wf(),
            i <= entries0.len(),
            forall|j: int| 0 <= j < i ==> entries0[j].0.0@ != tenant_id.0@,
        decreases entries0.len() - i,
    {
        if crate::ids::bytes16_eq(&rest[i].0 .0, &tenant_id.0) {
            let (_, v) = rest.remove(i);
            proof {
                assert(v == m.entries@[i as int].1);
                assert((#[trigger] m.entries@[i as int]).0.0@ == tenant_id.0@);
            }
            match v {
                TenantIndexParts::Present(parts) => {
                    proof {
                        assert((#[trigger] m.entries@[i as int]).1.wf());
                        assert(m.entries@[i as int].1 matches TenantIndexParts::Present(p) && p
                            == parts);
                    }
                    return Ok(parts);
                },
                TenantIndexParts::Poisoned { missing, present } => {
                    proof {
                        assert(m.entries@[i as int].1 matches TenantIndexParts::Poisoned {
                            missing: mm,
                            ..
                        } && mm == missing);
                    }
                    return Err(GatherError::Poisoned(missing));
                },
            };
        }
        i += 1;
    }
    proof {
        if has_tenant(entries0, tenant_id.0@) {
            let k = choose|k: int|
                0 <= k < entries0.len() && (#[trigger] entries0[k]).0.0@ == tenant_id.0@;
            assert(false);
        }
    }
    Err(GatherError::MissingTenantEntry)
}

/// Law: a summary of poisoned field behaviour. Once a tenant is poisoned it
/// stays poisoned through every later transition, and its set of missing
/// timelines only grows.
pub proof fn lemma_poisoned_is_permanent(
    before: TenantIndexParts,
    after: TenantIndexParts,
    timeline_id: TimelineId,
)
    requires
        before is Poisoned,
        // `after` arose from `before` by either transition
        (after is Poisoned && after.missing_view() == before.missing_view().insert(timeline_id.0@))
            || (after is Poisoned == before is Poisoned && after.missing_view()
            == before.missing_view()),
    ensures
        after is Poisoned,
        before.missing_view().subset_of(after.missing_view()),
{
}

/// Law: a successful download pass whose results materialized exactly the
/// planned layers — everything stored remotely minus what was already
/// handled — ends with `layers_to_skip` equal to its old value united with
/// the remote's stored files, and the retry count unchanged.
pub proof fn lemma_download_success_skips_all(
    pre: SyncData<LayersDownload>,
    stored: Set<Seq<u8>>,
    results: Seq<LayerDownloadResult>,
    d: SyncData<LayersDownload>,
)
    requires
        downloaded_paths(results, results.len() as int) =~= stored.difference(
            pre.data.layers_to_skip@,
        ),
        !any_download_failed(results),
        d.retries == pre.retries,
        d.data.layers_to_skip@ =~= pre.data.layers_to_skip@ + downloaded_paths(
            results,
            results.len() as int,
        ),
    ensures
        d.data.layers_to_skip@ =~= pre.data.layers_to_skip@ + stored,
        d.retries == pre.retries,
{
    assert(d.data.layers_to_skip@ =~= pre.data.layers_to_skip@ + stored);
}

/// Law: running a download pass twice is idempotent. After a successful
/// pass over a remote timeline, planning the same pass again finds nothing
/// left to download.
pub proof fn lemma_download_idempotent(stored: Set<Seq<u8>>, skip_after: Set<Seq<u8>>)
    requires
        stored.subset_of(skip_after),
    ensures
        stored.difference(skip_after) =~= Set::<Seq<u8>>::empty(),
{
}

} // verus!
