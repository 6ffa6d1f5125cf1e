//! LSNs, identifiers, relative paths, the temp-file convention, and the
//! published-LSN floor.

use timeline_sync::ids::{TenantTimelineId, TimelineId};
use timeline_sync::index::{IndexPart, PublishedIndexLsn, RemoteTimeline, TimelineMetadata};
use timeline_sync::lsn::Lsn;
use timeline_sync::paths::{is_temp_file, join_path, temp_path, PathSet, RelativePath};

#[test]
fn lsn_alignment_and_padding() {
    assert!(Lsn(0).is_aligned());
    assert!(Lsn(0x30).is_aligned());
    assert!(!Lsn(0x31).is_aligned());
    assert_eq!(Lsn(0x30).calc_padding(), 0);
    assert_eq!(Lsn(0x31).calc_padding(), 7);
    assert_eq!(Lsn(0x37).calc_padding(), 1);
    assert_eq!(Lsn(0x31).align_up(), Some(Lsn(0x38)));
    assert_eq!(Lsn(u64::MAX).align_up(), None, "Padding past the top overflows");
    assert_eq!(Lsn(8).checked_add(8), Some(Lsn(16)));
    assert_eq!(Lsn(u64::MAX).checked_add(1), None);
}

#[test]
fn ids_render_and_parse() {
    let id = TimelineId([
        0x11, 0x22, 0x33, 0x44, 0x55, 0x66, 0x77, 0x88, 0x99, 0xaa, 0xbb, 0xcc, 0xdd, 0xee, 0xff,
        0x00,
    ]);
    let text = id.render();
    assert_eq!(text, b"112233445566778899aabbccddeeff00".to_vec());
    assert_eq!(TimelineId::parse(&text), Some(id));
    let upper = b"112233445566778899AABBCCDDEEFF00".to_vec();
    assert_eq!(TimelineId::parse(&upper), Some(id), "Either case parses");
    assert_eq!(TimelineId::parse(&b"short".to_vec()), None);
    assert_eq!(
        TimelineId::parse(&b"112233445566778899aabbccddeeffgg".to_vec()),
        None
    );
    let pair = TenantTimelineId {
        tenant_id: timeline_sync::ids::TenantId([1; 16]),
        timeline_id: id,
    };
    assert_eq!(pair, pair);
}

#[test]
fn relative_paths() {
    let base = b"/data/tl".to_vec();
    let inside = b"/data/tl/layer_1".to_vec();
    let rp = RelativePath::new(&base, &inside).expect("a file inside the base is relative");
    assert_eq!(rp.bytes, b"layer_1".to_vec());
    assert_eq!(rp.as_local_path(&base), inside);

    assert!(RelativePath::new(&base, &b"/elsewhere/layer".to_vec()).is_none());
    assert!(RelativePath::new(&base, &b"/data/tl/".to_vec()).is_none());
    assert!(
        RelativePath::new(&base, &b"/data/tl/../escape".to_vec()).is_none(),
        "A path climbing out of the base is rejected"
    );
    assert!(RelativePath::new(&base, &b"/data/tl/a/../b".to_vec()).is_none());
    assert!(RelativePath::new(&base, &b"/data/tl/a/..b".to_vec()).is_some());
}

#[test]
fn temp_file_convention() {
    let dst = b"/data/tl/layer_1".to_vec();
    let tmp = temp_path(&dst);
    assert_eq!(tmp, b"/data/tl/layer_1.___temp".to_vec());
    assert!(is_temp_file(&tmp), "Anything with the reserved suffix is garbage");
    assert!(!is_temp_file(&dst));
    assert!(!is_temp_file(&b"short".to_vec()));
}

#[test]
fn path_sets() {
    let mut s = PathSet::new();
    assert!(s.is_empty());
    s.insert(b"a".to_vec());
    s.insert(b"b".to_vec());
    s.insert(b"a".to_vec());
    assert_eq!(s.len(), 2, "Inserting an existing path changes nothing");
    assert!(s.contains(&b"a".to_vec()));
    s.remove(&b"a".to_vec());
    assert!(!s.contains(&b"a".to_vec()));

    let mut t = PathSet::new();
    t.insert(b"b".to_vec());
    t.insert(b"c".to_vec());
    let d = s.difference(&t);
    assert!(d.is_empty(), "b is in both sets");
    s.union_with(&t);
    assert_eq!(s.len(), 2);
}

#[test]
fn remote_timeline_mirrors_index_part() {
    let base = b"/data/tl".to_vec();
    let stored = vec![
        RelativePath::new(&base, &b"/data/tl/one".to_vec()).unwrap(),
        RelativePath::new(&base, &b"/data/tl/two".to_vec()).unwrap(),
    ];
    let part = IndexPart::new(stored, Vec::new(), Lsn(0x30), Vec::new());
    let metadata = TimelineMetadata::new(Lsn(0x30), Vec::new());
    let rt = RemoteTimeline::from_index_part(&base, &part, metadata);
    assert!(!rt.awaits_download);
    assert!(rt.stored_files().contains(&b"/data/tl/one".to_vec()));
    assert!(rt.stored_files().contains(&b"/data/tl/two".to_vec()));
    assert_eq!(rt.stored_files().len(), 2);
}

#[test]
fn published_lsn_never_decreases() {
    let mut published = PublishedIndexLsn::new();
    assert!(published.publish(Lsn(0x10)), "The first publish is accepted");
    assert!(published.publish(Lsn(0x10)), "An equal LSN is accepted");
    assert!(published.publish(Lsn(0x20)));
    assert!(
        !published.publish(Lsn(0x18)),
        "A publish whose LSN goes backwards is rejected"
    );
    assert_eq!(published.current, Some(Lsn(0x20)));
}

#[test]
fn joined_paths() {
    assert_eq!(
        join_path(&b"/data".to_vec(), &b"file".to_vec()),
        b"/data/file".to_vec()
    );
}
