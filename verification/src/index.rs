//! Per-timeline index parts: the authoritative remote manifest of a
//! timeline, and its in-memory mirror.

use vstd::prelude::*;

use crate::lsn::Lsn;
use crate::paths::{join_path, PathSet, RelativePath, SEP};

verus! {

/// Decoded timeline metadata: the consistent LSN it declares plus the raw
/// bytes of the metadata file, mirrored remotely for disaster recovery.
#[derive(Debug)]
pub struct TimelineMetadata {
    pub disk_consistent_lsn: Lsn,
    pub body: Vec<u8>,
}

impl Clone for TimelineMetadata {
    fn clone(&self) -> (r: Self)
        ensures
            r.disk_consistent_lsn == self.disk_consistent_lsn,
            r.body@ == self.body@,
    {
        TimelineMetadata { disk_consistent_lsn: self.disk_consistent_lsn, body: self.body.clone() }
    }
}

impl TimelineMetadata {
    pub fn new(disk_consistent_lsn: Lsn, body: Vec<u8>) -> (r: TimelineMetadata)
        ensures
            r.disk_consistent_lsn == disk_consistent_lsn,
            r.body == body,
    {
        TimelineMetadata { disk_consistent_lsn, body }
    }
}

impl PartialEq for TimelineMetadata {
    fn eq(&self, other: &Self) -> (r: bool) {
        self.disk_consistent_lsn.0 == other.disk_consistent_lsn.0 && crate::paths::bytes_eq(
            &self.body,
            &other.body,
        )
    }
}

impl vstd::std_specs::cmp::PartialEqSpecImpl for TimelineMetadata {
    open spec fn obeys_eq_spec() -> bool {
        true
    }

    open spec fn eq_spec(&self, other: &Self) -> bool {
        self.disk_consistent_lsn == other.disk_consistent_lsn && self.body@ == other.body@
    }
}

/// No two entries of the list hold the same relative path.
pub open spec fn rel_paths_unique(l: Seq<RelativePath>) -> bool {
    forall|i: int, j: int| 0 <= i < j < l.len() ==> l[i].bytes@ != l[j].bytes@
}

/// Every entry of the list is a well-formed relative path.
pub open spec fn rel_paths_wf(l: Seq<RelativePath>) -> bool {
    forall|i: int| 0 <= i < l.len() ==> (#[trigger] l[i]).wf()
}

/// The per-timeline manifest stored beside the remote layer files.
///
/// `stored_files` are the relative paths present remotely; `missing_files`
/// are referenced but absent; `disk_consistent_lsn` is the LSN up to which
/// the uploaded files form a consistent snapshot.
#[derive(Debug)]
pub struct IndexPart {
    pub stored_files: Vec<RelativePath>,
    pub missing_files: Vec<RelativePath>,
    pub disk_consistent_lsn: Lsn,
    pub metadata_bytes: Vec<u8>,
}

impl IndexPart {
    /// A file's relative path identifies it uniquely within the timeline.
    pub open spec fn wf(self) -> bool {
        &&& rel_paths_unique(self.stored_files@)
        &&& rel_paths_unique(self.missing_files@)
        &&& rel_paths_wf(self.stored_files@)
        &&& rel_paths_wf(self.missing_files@)
    }

    pub fn new(
        stored_files: Vec<RelativePath>,
        missing_files: Vec<RelativePath>,
        disk_consistent_lsn: Lsn,
        metadata_bytes: Vec<u8>,
    ) -> (r: IndexPart)
        ensures
            r.stored_files == stored_files,
            r.missing_files == missing_files,
            r.disk_consistent_lsn == disk_consistent_lsn,
            r.metadata_bytes == metadata_bytes,
    {
        IndexPart { stored_files, missing_files, disk_consistent_lsn, metadata_bytes }
    }

    /// A loaded index part with missing files is logged as a warning but is
    /// not a fatal error.
    pub fn has_missing_files(&self) -> (r: bool)
        ensures
            r == (self.missing_files@.len() > 0),
    {
        self.missing_files.len() > 0
    }

    /// The reserved object name of the manifest: `index_part.json`.
    pub fn file_name() -> (r: Vec<u8>)
        ensures
            r@ == index_part_file_name(),
    {
        let mut r: Vec<u8> = Vec::new();
        r.push(105);
        r.push(110);
        r.push(100);
        r.push(101);
        r.push(120);
        r.push(95);
        r.push(112);
        r.push(97);
        r.push(114);
        r.push(116);
        r.push(46);
        r.push(106);
        r.push(115);
        r.push(111);
        r.push(110);
        proof {
            assert(r@ =~= index_part_file_name());
        }
        r
    }
}

/// The bytes of `index_part.json`.
pub open spec fn index_part_file_name() -> Seq<u8> {
    seq![
        105u8,
        110u8,
        100u8,
        101u8,
        120u8,
        95u8,
        112u8,
        97u8,
        114u8,
        116u8,
        46u8,
        106u8,
        115u8,
        111u8,
        110u8,
    ]
}

impl Clone for IndexPart {
    fn clone(&self) -> (r: Self)
        ensures
            r.stored_files@.len() == self.stored_files@.len(),
            forall|i: int|
                0 <= i < self.stored_files@.len() ==> r.stored_files@[i].bytes@
                    == self.stored_files@[i].bytes@,
            r.missing_files@.len() == self.missing_files@.len(),
            forall|i: int|
                0 <= i < self.missing_files@.len() ==> r.missing_files@[i].bytes@
                    == self.missing_files@[i].bytes@,
            r.disk_consistent_lsn == self.disk_consistent_lsn,
            r.metadata_bytes@ == self.metadata_bytes@,
    {
        IndexPart {
            stored_files: clone_rel_paths(&self.stored_files),
            missing_files: clone_rel_paths(&self.missing_files),
            disk_consistent_lsn: self.disk_consistent_lsn,
            metadata_bytes: self.metadata_bytes.clone(),
        }
    }
}

fn clone_rel_paths(l: &Vec<RelativePath>) -> (r: Vec<RelativePath>)
    ensures
        r@.len() == l@.len(),
        forall|i: int| 0 <= i < l@.len() ==> r@[i].bytes@ == l@[i].bytes@,
{
    let mut r: Vec<RelativePath> = Vec::new();
    let mut i: usize = 0;
    while i < l.len()
        invariant
            i <= l@.len(),
            r@.len() == i,
            forall|j: int| 0 <= j < i ==> r@[j].bytes@ == l@[j].bytes@,
        decreases l@.len() - i,
    {
        r.push(l[i].clone());
        i += 1;
    }
    r
}

impl PartialEq for IndexPart {
    fn eq(&self, other: &Self) -> (r: bool) {
        if self.stored_files.len() != other.stored_files.len() {
            return false;
        }
        if self.missing_files.len() != other.missing_files.len() {
            return false;
        }
        if self.disk_consistent_lsn.0 != other.disk_consistent_lsn.0 {
            return false;
        }
        if !crate::paths::bytes_eq(&self.metadata_bytes, &other.metadata_bytes) {
            return false;
        }
        let mut i: usize = 0;
        while i < self.stored_files.len()
            invariant
                self.stored_files@.len() == other.stored_files@.len(),
                i <= self.stored_files@.len(),
                forall|j: int|
                    0 <= j < i ==> self.stored_files@[j].bytes@ == other.stored_files@[j].bytes@,
            decreases self.stored_files@.len() - i,
        {
            if !crate::paths::bytes_eq(&self.stored_files[i].bytes, &other.stored_files[i].bytes) {
                return false;
            }
            i += 1;
        }
        let mut i: usize = 0;
        while i < self.missing_files.len()
            invariant
                self.missing_files@.len() == other.missing_files@.len(),
                i <= self.missing_files@.len(),
                forall|j: int|
                    0 <= j < i ==> self.missing_files@[j].bytes@ == other.missing_files@[j].bytes@,
            decreases self.missing_files@.len() - i,
        {
            if !crate::paths::bytes_eq(&self.missing_files[i].bytes, &other.missing_files[i].bytes)
            {
                return false;
            }
            i += 1;
        }
        true
    }
}

impl vstd::std_specs::cmp::PartialEqSpecImpl for IndexPart {
    open spec fn obeys_eq_spec() -> bool {
        true
    }

    open spec fn eq_spec(&self, other: &Self) -> bool {
        &&& self.stored_files@.len() == other.stored_files@.len()
        &&& forall|i: int|
            0 <= i < self.stored_files@.len() ==> self.stored_files@[i].bytes@
                == other.stored_files@[i].bytes@
        &&& self.missing_files@.len() == other.missing_files@.len()
        &&& forall|i: int|
            0 <= i < self.missing_files@.len() ==> self.missing_files@[i].bytes@
                == other.missing_files@[i].bytes@
        &&& self.disk_consistent_lsn == other.disk_consistent_lsn
        &&& self.metadata_bytes@ == other.metadata_bytes@
    }
}

/// The in-memory mirror of the latest index part, plus runtime flags.
#[derive(Debug)]
pub struct RemoteTimeline {
    /// Absolute local paths of the layers present remotely.
    pub timeline_layers: PathSet,
    /// Absolute local paths referenced but absent remotely.
    pub missing_layers: PathSet,
    pub metadata: TimelineMetadata,
    /// Set when the timeline is registered but not yet materialized locally.
    pub awaits_download: bool,
}

impl RemoteTimeline {
    pub open spec fn wf(self) -> bool {
        &&& self.timeline_layers.wf()
        &&& self.missing_layers.wf()
    }

    pub fn new(metadata: TimelineMetadata) -> (r: RemoteTimeline)
        ensures
            r.wf(),
            r.timeline_layers@ =~= Set::<Seq<u8>>::empty(),
            r.missing_layers@ =~= Set::<Seq<u8>>::empty(),
            r.metadata == metadata,
            !r.awaits_download,
    {
        RemoteTimeline {
            timeline_layers: PathSet::new(),
            missing_layers: PathSet::new(),
            metadata,
            awaits_download: false,
        }
    }

    pub fn add_timeline_layers(&mut self, layers: Vec<Vec<u8>>)
        requires
            old(self).wf(),
        ensures
            final(self).wf(),
            final(self).timeline_layers@ =~= old(self).timeline_layers@ + Set::new(
                |s: Seq<u8>| exists|i: int| 0 <= i < layers@.len() && layers@[i]@ == s,
            ),
            final(self).missing_layers == old(self).missing_layers,
            final(self).metadata == old(self).metadata,
            final(self).awaits_download == old(self).awaits_download,
    {
        let mut i: usize = 0;
        while i < layers.len()
            invariant
                self.timeline_layers.wf(),
                i <= layers@.len(),
                self.timeline_layers@ =~= old(self).timeline_layers@ + Set::new(
                    |s: Seq<u8>| exists|j: int| 0 <= j < i && layers@[j]@ == s,
                ),
                self.missing_layers == old(self).missing_layers,
                self.metadata == old(self).metadata,
                self.awaits_download == old(self).awaits_download,
                old(self).missing_layers.wf(),
            decreases layers@.len() - i,
        {
            let p = layers[i].clone();
            proof {
                assert(p@ == layers@[i as int]@);
            }
            self.timeline_layers.insert(p);
            i += 1;
            proof {
                assert(self.timeline_layers@ =~= old(self).timeline_layers@ + Set::new(
                    |s: Seq<u8>| exists|j: int| 0 <= j < i && layers@[j]@ == s,
                ));
            }
        }
    }

    /// Snapshot of the layers present remotely.
    pub fn stored_files(&self) -> (r: &PathSet)
        ensures
            r == self.timeline_layers,
    {
        &self.timeline_layers
    }

    /// Builds the mirror of an index part: relative paths become absolute
    /// under the timeline directory, and the download flag starts clear.
    pub fn from_index_part(timeline_dir: &Vec<u8>, part: &IndexPart, metadata: TimelineMetadata) -> (r:
        RemoteTimeline)
        requires
            part.wf(),
        ensures
            r.wf(),
            r.timeline_layers@ =~= Set::new(
                |s: Seq<u8>|
                    exists|i: int|
                        0 <= i < part.stored_files@.len() && s == timeline_dir@ + seq![SEP]
                            + part.stored_files@[i].bytes@,
            ),
            r.missing_layers@ =~= Set::new(
                |s: Seq<u8>|
                    exists|i: int|
                        0 <= i < part.missing_files@.len() && s == timeline_dir@ + seq![SEP]
                            + part.missing_files@[i].bytes@,
            ),
            r.metadata == metadata,
            !r.awaits_download,
    {
        let mut timeline_layers = PathSet::new();
        let mut i: usize = 0;
        while i < part.stored_files.len()
            invariant
                part.wf(),
                timeline_layers.wf(),
                i <= part.stored_files@.len(),
                timeline_layers@ =~= Set::new(
                    |s: Seq<u8>|
                        exists|j: int|
                            0 <= j < i && s == timeline_dir@ + seq![SEP]
                                + part.stored_files@[j].bytes@,
                ),
            decreases part.stored_files@.len() - i,
        {
            let p = join_path(timeline_dir, &part.stored_files[i].bytes);
            timeline_layers.insert(p);
            i += 1;
            proof {
                assert(timeline_layers@ =~= Set::new(
                    |s: Seq<u8>|
                        exists|j: int|
                            0 <= j < i && s == timeline_dir@ + seq![SEP]
                                + part.stored_files@[j].bytes@,
                ));
            }
        }
        let mut missing_layers = PathSet::new();
        let mut i: usize = 0;
        while i < part.missing_files.len()
            invariant
                part.wf(),
                missing_layers.wf(),
                i <= part.missing_files@.len(),
                missing_layers@ =~= Set::new(
                    |s: Seq<u8>|
                        exists|j: int|
                            0 <= j < i && s == timeline_dir@ + seq![SEP]
                                + part.missing_files@[j].bytes@,
                ),
            decreases part.missing_files@.len() - i,
        {
            let p = join_path(timeline_dir, &part.missing_files[i].bytes);
            missing_layers.insert(p);
            i += 1;
            proof {
                assert(missing_layers@ =~= Set::new(
                    |s: Seq<u8>|
                        exists|j: int|
                            0 <= j < i && s == timeline_dir@ + seq![SEP]
                                + part.missing_files@[j].bytes@,
                ));
            }
        }
        RemoteTimeline { timeline_layers, missing_layers, metadata, awaits_download: false }
    }
}

/// What a publish attempt does to the per-timeline published LSN.
pub open spec fn publish_spec(cur: Option<Lsn>, l: Lsn) -> Option<Lsn> {
    match cur {
        Option::None => Option::Some(l),
        Option::Some(c) => if l.0 >= c.0 {
            Option::Some(l)
        } else {
            cur
        },
    }
}

/// The LSN of the last index part published for a timeline.
///
/// A publish whose LSN is lower than the previously-published one is
/// rejected, so the published LSN never decreases.
#[derive(Clone, Copy, Debug, PartialEq, Eq, Structural)]
pub struct PublishedIndexLsn {
    pub current: Option<Lsn>,
}

impl PublishedIndexLsn {
    pub fn new() -> (r: PublishedIndexLsn)
        ensures
            r.current is None,
    {
        PublishedIndexLsn { current: None }
    }

    /// Accepts the publish only when its LSN does not go backwards; says so.
    pub fn publish(&mut self, l: Lsn) -> (accepted: bool)
        ensures
            final(self).current == publish_spec(old(self).current, l),
            accepted == match old(self).current {
                Option::None => true,
                Option::Some(c) => l.0 >= c.0,
            },
            accepted ==> final(self).current == Option::Some(l),
            !accepted ==> *final(self) == *old(self),
    {
        match self.current {
            None => {
                self.current = Some(l);
                true
            },
            Some(c) => {
                if l.0 >= c.0 {
                    self.current = Some(l);
                    true
                } else {
                    false
                }
            },
        }
    }
}

/// Runs a sequence of publish attempts against a starting state.
pub open spec fn run_publishes(cur: Option<Lsn>, ls: Seq<Lsn>) -> Option<Lsn>
    decreases ls.len(),
{
    if ls.len() == 0 {
        cur
    } else {
        run_publishes(publish_spec(cur, ls[0]), ls.skip(1))
    }
}

/// Across any sequence of publish attempts, the published LSN never
/// decreases: whatever was once published is a floor for every later state.
pub proof fn lemma_published_lsn_monotone(cur: Option<Lsn>, ls: Seq<Lsn>)
    ensures
        match (cur, run_publishes(cur, ls)) {
            (Option::Some(c), Option::Some(r)) => r.0 >= c.0,
            (Option::Some(c), Option::None) => false,
            _ => true,
        },
    decreases ls.len(),
{
    if ls.len() > 0 {
        lemma_published_lsn_monotone(publish_spec(cur, ls[0]), ls.skip(1));
    }
}

} // verus!
