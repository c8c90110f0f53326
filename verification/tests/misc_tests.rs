use layer_store::id::TimelineId;
use layer_store::load::classify_entry;
use layer_store::load::parse_timeline_id;
use layer_store::load::scan_timelines_dir;
use layer_store::load::select_attachable;
use layer_store::load::EntryKind;
use layer_store::load::LoadScanError;
use layer_store::load::RemoteIndex;
use layer_store::lsn::Key;
use layer_store::lsn::Lsn;
use layer_store::metadata::merge_local_remote_metadata;
use layer_store::metadata::MergeMetadataError;
use layer_store::metadata::TimelineMetadata;
use layer_store::paths::layer_file_kind;
use layer_store::paths::rebase_directory;
use layer_store::paths::LayerFileKind;
use layer_store::paths::NotUnderBase;
use layer_store::paths::UnrecognizedMagic;
use layer_store::range::range_overlaps;
use layer_store::sim_time::Event;
use layer_store::sim_time::Pending;
use layer_store::sim_time::Timing;
use layer_store::tenant::AncestorArg;
use layer_store::tenant_conf::TenantConfOpt;
use layer_store::tenant_conf_file::load_tenant_config;
use layer_store::tenant_conf_file::tenant_conf_from_document;
use layer_store::tenant_conf_file::ConfigError;
use layer_store::tenant_conf_file::SettingName;
use layer_store::tree_sort::entries_of;
use layer_store::tree_sort::tree_sort_entries;
use layer_store::tree_sort::tree_sort_timelines;
use layer_store::tree_sort::Orphan;
use std::cmp::Ordering;
use std::collections::HashMap;

fn md(disk_consistent: u64, gc_cutoff: u64, ancestor: Option<u128>) -> TimelineMetadata {
    TimelineMetadata::new(
        Lsn(disk_consistent),
        None,
        ancestor.map(TimelineId),
        Lsn(0),
        Lsn(gc_cutoff),
        Lsn(0),
        14,
    )
}

#[test]
fn range_overlap_cases() {
    assert!(range_overlaps(&(1..5), &(4..8)));
    assert!(range_overlaps(&(4..8), &(1..5)));
    assert!(!range_overlaps(&(1..4), &(4..8)));
    assert!(!range_overlaps(&(4..8), &(1..4)));
    assert!(range_overlaps(&(1..10), &(3..4)));
    assert!(range_overlaps(&(3..4), &(1..10)));
    assert!(range_overlaps(&(3..4), &(3..4)));
    assert!(range_overlaps(&(Lsn(1)..Lsn(5)), &(Lsn(4)..Lsn(8))));
    assert!(!range_overlaps(&(Key(1)..Key(4)), &(Key(4)..Key(8))));
    assert!(range_overlaps(&("a".."c"), &("b".."d")));
    assert!(Lsn(1) < Lsn(2));
    assert!(Key(2) > Key(1));
    assert_eq!(Lsn(3).partial_cmp(&Lsn(3)), Some(Ordering::Equal));
    assert_eq!(Lsn(0x10).checked_sub(0x10), Some(Lsn(0)));
    assert_eq!(Lsn(0x10).checked_sub(0x11), None);
    assert!(!Lsn(0).is_valid());
    assert!(Lsn(1).is_valid());
}

#[test]
fn merge_metadata_rules() {
    assert_eq!(merge_local_remote_metadata(None, None), Err(MergeMetadataError::NeitherPresent));
    let local = md(50, 20, None);
    let remote = md(40, 20, None);
    assert_eq!(merge_local_remote_metadata(Some(&local), None), Ok((&local, true)));
    assert_eq!(merge_local_remote_metadata(None, Some(&remote)), Ok((&remote, false)));
    // local ahead or level in both
    for (l, r) in [((50, 20), (40, 20)), ((50, 20), (50, 10)), ((50, 20), (50, 20)), ((50, 20), (40, 10))] {
        let (l, r) = (md(l.0, l.1, None), md(r.0, r.1, None));
        assert_eq!(merge_local_remote_metadata(Some(&l), Some(&r)), Ok((&l, true)));
    }
    // remote ahead in either
    for (l, r) in [
        ((40, 10), (50, 20)),
        ((40, 20), (50, 20)),
        ((50, 10), (50, 20)),
        ((40, 30), (50, 20)),
        ((60, 10), (50, 20)),
    ] {
        let (l, r) = (md(l.0, l.1, None), md(r.0, r.1, None));
        assert_eq!(
            merge_local_remote_metadata(Some(&l), Some(&r)),
            Err(MergeMetadataError::RemoteAheadOfLocal)
        );
    }
}

#[test]
fn merge_never_picks_the_one_behind() {
    for l_dc in [10u64, 20, 30] {
        for l_gc in [10u64, 20, 30] {
            for r_dc in [10u64, 20, 30] {
                for r_gc in [10u64, 20, 30] {
                    let (l, r) = (md(l_dc, l_gc, None), md(r_dc, r_gc, None));
                    if let Ok((chosen, is_local)) = merge_local_remote_metadata(Some(&l), Some(&r)) {
                        let discarded = if is_local { &r } else { &l };
                        assert!(chosen.disk_consistent_lsn().0 >= discarded.disk_consistent_lsn().0);
                        assert!(chosen.latest_gc_cutoff_lsn().0 >= discarded.latest_gc_cutoff_lsn().0);
                    }
                }
            }
        }
    }
    let m = TimelineMetadata::new(Lsn(1), Some(Lsn(2)), Some(TimelineId(3)), Lsn(4), Lsn(5), Lsn(6), 7);
    assert_eq!(m.disk_consistent_lsn(), Lsn(1));
    assert_eq!(m.prev_record_lsn(), Some(Lsn(2)));
    assert_eq!(m.ancestor_timeline(), Some(TimelineId(3)));
    assert_eq!(m.ancestor_lsn(), Lsn(4));
    assert_eq!(m.latest_gc_cutoff_lsn(), Lsn(5));
    assert_eq!(m.initdb_lsn(), Lsn(6));
    assert_eq!(m.pg_version(), 7);
    assert_eq!(AncestorArg::ancestor(TimelineId(3)), AncestorArg(Some(TimelineId(3))));
    assert_eq!(AncestorArg::no_ancestor(), AncestorArg(None));
}

fn check_order(out: &[(TimelineId, TimelineMetadata)]) {
    for (j, (_, m)) in out.iter().enumerate() {
        if let Some(a) = m.ancestor_timeline {
            assert!(out[..j].iter().any(|(id, _)| *id == a), "ancestor of entry {j} comes later");
        }
    }
}

fn as_map(entries: Vec<(TimelineId, TimelineMetadata)>) -> HashMap<u128, TimelineMetadata> {
    entries.into_iter().map(|(id, m)| (id.0, m)).collect()
}

#[test]
fn tree_sort_orders_ancestors_first() {
    let input = vec![
        (TimelineId(5), md(0, 0, Some(4))),
        (TimelineId(4), md(0, 0, Some(1))),
        (TimelineId(1), md(0, 0, None)),
        (TimelineId(3), md(0, 0, Some(1))),
        (TimelineId(2), md(0, 0, None)),
        (TimelineId(6), md(0, 0, Some(5))),
    ];
    let out = tree_sort_timelines(as_map(input.clone())).unwrap();
    check_order(&out);
    let mut ids: Vec<u128> = out.iter().map(|(id, _)| id.0).collect();
    ids.sort();
    assert_eq!(ids, vec![1, 2, 3, 4, 5, 6]);
    for (id, m) in out.iter() {
        assert!(input.contains(&(*id, *m)));
    }
    assert!(tree_sort_timelines(HashMap::new()).unwrap().is_empty());
    let single = tree_sort_timelines(as_map(vec![(TimelineId(9), md(7, 0, None))])).unwrap();
    assert_eq!(single, vec![(TimelineId(9), md(7, 0, None))]);
}

#[test]
fn tree_sort_takes_the_timelines_in_any_order() {
    let input = vec![
        (TimelineId(2), md(0, 0, None)),
        (TimelineId(3), md(0, 0, Some(1))),
        (TimelineId(1), md(0, 0, None)),
    ];
    let out = tree_sort_entries(input.clone()).unwrap();
    check_order(&out);
    assert_eq!(out.len(), 3);
    for e in input.iter() {
        assert!(out.contains(e));
    }
    let mut turned = input.clone();
    turned.reverse();
    check_order(&tree_sort_entries(turned).unwrap());
    // what the walk of a map gives is each timeline once
    let walked = entries_of(&as_map(input.clone()));
    assert_eq!(walked.len(), 3);
    for e in input.iter() {
        assert!(walked.contains(e));
    }
}

#[test]
fn tree_sort_reports_orphans() {
    // a missing ancestor, and a timeline behind the orphan
    let input = vec![
        (TimelineId(1), md(0, 0, None)),
        (TimelineId(2), md(0, 0, Some(7))),
        (TimelineId(3), md(0, 0, Some(2))),
        (TimelineId(4), md(0, 0, Some(1))),
    ];
    let err = tree_sort_timelines(as_map(input)).unwrap_err();
    let mut orphans = err.orphans;
    orphans.sort_by_key(|o| o.timeline_id.0);
    assert_eq!(
        orphans,
        vec![
            Orphan { timeline_id: TimelineId(2), missing_ancestor: TimelineId(7) },
            Orphan { timeline_id: TimelineId(3), missing_ancestor: TimelineId(2) },
        ]
    );
    // a cycle
    let input = vec![
        (TimelineId(1), md(0, 0, Some(2))),
        (TimelineId(2), md(0, 0, Some(1))),
        (TimelineId(3), md(0, 0, None)),
    ];
    let err = tree_sort_timelines(as_map(input)).unwrap_err();
    assert_eq!(err.orphans.len(), 2);
    // its own ancestor
    let err = tree_sort_timelines(as_map(vec![(TimelineId(1), md(0, 0, Some(1)))])).unwrap_err();
    assert_eq!(
        err.orphans,
        vec![Orphan { timeline_id: TimelineId(1), missing_ancestor: TimelineId(1) }]
    );
}

#[test]
fn timers_fire_in_order_of_time() {
    let mut timing = Timing::new();
    assert_eq!(timing.current_time(), 0);
    assert!(!timing.is_event_ready());
    assert!(timing.step().is_none());
    timing.schedule(30, Event::Noop);
    timing.schedule(10, Event::Noop);
    timing.schedule(20, Event::Noop);
    timing.schedule(10, Event::Noop);
    timing.schedule(0, Event::Noop);
    assert_eq!(timing.pending_count(), 5);
    assert!(timing.is_event_ready());
    let mut fired = Vec::new();
    let mut times = Vec::new();
    while let Some(p) = timing.step() {
        p.process();
        p.event.process();
        fired.push((p.time, p.nonce));
        times.push(timing.current_time());
        assert!(p.time <= timing.current_time());
    }
    // by time, and among equal times in the order of scheduling
    assert_eq!(fired, vec![(0, 5), (10, 2), (10, 4), (20, 3), (30, 1)]);
    assert_eq!(times, vec![0, 10, 10, 20, 30]);
    assert_eq!(timing.pending_count(), 0);
    // the clock does not go back
    timing.schedule(5, Event::Noop);
    assert!(timing.is_event_ready());
    assert_eq!(timing.step().map(|p| p.time), Some(5));
    assert_eq!(timing.current_time(), 30);
}

#[test]
fn the_timer_that_fires_first_is_the_greatest() {
    let a = Pending { time: 10, nonce: 1, event: Event::Noop };
    let b = Pending { time: 10, nonce: 2, event: Event::Noop };
    let c = Pending { time: 11, nonce: 0, event: Event::Noop };
    assert!(a.is_before(&b));
    assert!(b.is_before(&c));
    assert!(!c.is_before(&a));
    assert!(!a.is_before(&a));
    assert_eq!(a.partial_cmp(&b), Some(Ordering::Greater));
    assert_eq!(b.partial_cmp(&a), Some(Ordering::Less));
    assert_eq!(c.partial_cmp(&a), Some(Ordering::Less));
    assert_eq!(a.partial_cmp(&a), Some(Ordering::Equal));
    assert!(a > b);
    assert!(a == a);
    assert!(a != b);
}

fn names(list: &[&str]) -> Vec<Vec<u8>> {
    list.iter().map(|s| s.as_bytes().to_vec()).collect()
}

#[test]
fn timeline_ids_are_thirty_two_hex_digits() {
    assert_eq!(
        parse_timeline_id(b"11223344556677881122334455667788"),
        Some(TimelineId(0x11223344556677881122334455667788))
    );
    assert_eq!(
        parse_timeline_id(b"AA223344556677881122334455667788"),
        Some(TimelineId(0xAA223344556677881122334455667788))
    );
    assert_eq!(parse_timeline_id(b"ffffffffffffffffffffffffffffffff"), Some(TimelineId(u128::MAX)));
    assert_eq!(parse_timeline_id(b"00000000000000000000000000000000"), Some(TimelineId(0)));
    assert_eq!(parse_timeline_id(b"0000000000000000000000000000000a"), Some(TimelineId(10)));
    assert_eq!(parse_timeline_id(b"1122334455667788112233445566778"), None);
    assert_eq!(parse_timeline_id(b"112233445566778811223344556677889"), None);
    assert_eq!(parse_timeline_id(b"1122334455667788112233445566778g"), None);
    assert_eq!(parse_timeline_id(b""), None);
}

#[test]
fn names_in_the_timelines_directory() {
    assert_eq!(classify_entry(b"11223344556677881122334455667788"), EntryKind::Timeline);
    assert_eq!(classify_entry(b"11223344556677881122334455667788.___uninit"), EntryKind::UninitMark);
    assert_eq!(classify_entry(b"11223344556677881122334455667788.___temp"), EntryKind::Temporary);
    assert_eq!(classify_entry(b"basebackup-1122.___temp"), EntryKind::Temporary);
    assert_eq!(classify_entry(b"___temp"), EntryKind::Temporary);
    assert_eq!(classify_entry(b".___uninit"), EntryKind::Timeline);
    assert_eq!(classify_entry(b"x___uninit"), EntryKind::Timeline);
    assert_eq!(classify_entry(b""), EntryKind::Timeline);

    let a = "11223344556677881122334455667788";
    let b = "aa223344556677881122334455667788";
    // no uninit mark: the timelines are loaded, temporary directories go
    let scan = scan_timelines_dir(&names(&[a, "x.___temp", b])).unwrap();
    assert_eq!(scan.temporary, vec![1]);
    assert!(scan.uninit_marks.is_empty());
    assert_eq!(
        scan.timelines,
        vec![
            TimelineId(0x11223344556677881122334455667788),
            TimelineId(0xaa223344556677881122334455667788)
        ]
    );
    // an uninit mark: its timeline goes, and the directory is read again
    let mark = format!("{b}.___uninit");
    let scan = scan_timelines_dir(&names(&[a, b, &mark, "y.___temp"])).unwrap();
    assert_eq!(scan.temporary, vec![3]);
    assert_eq!(scan.uninit_marks, vec![(2, TimelineId(0xaa223344556677881122334455667788))]);
    assert!(scan.timelines.is_empty());
    // names that say nothing
    assert_eq!(
        scan_timelines_dir(&names(&[a, "zz.___uninit", "junk"])).err(),
        Some(LoadScanError::BadUninitMarkName(1))
    );
    assert_eq!(
        scan_timelines_dir(&names(&[a, "junk", "more junk"])).err(),
        Some(LoadScanError::BadTimelineDirName(1))
    );
    let scan = scan_timelines_dir(&vec![]).unwrap();
    assert!(scan.temporary.is_empty() && scan.uninit_marks.is_empty() && scan.timelines.is_empty());
}

#[test]
fn deleted_timelines_are_not_attached() {
    let parts = vec![
        (TimelineId(1), RemoteIndex::Found(md(10, 0, None))),
        (TimelineId(2), RemoteIndex::Deleted),
        (TimelineId(3), RemoteIndex::Found(md(30, 0, Some(1)))),
    ];
    assert_eq!(
        select_attachable(&parts),
        vec![(TimelineId(1), md(10, 0, None)), (TimelineId(3), md(30, 0, Some(1)))]
    );
    assert!(select_attachable(&vec![(TimelineId(2), RemoteIndex::Deleted)]).is_empty());
}

#[test]
fn config_file_is_read_with_toml() {
    assert_eq!(load_tenant_config(None).unwrap(), TenantConfOpt::none());
    assert_eq!(load_tenant_config(Some("")).unwrap(), TenantConfOpt::none());
    let text = "# per-tenant settings\n\n[tenant_config]\ncheckpoint_distance = 268435456\n\
                compaction_threshold = 7\ngc_horizon = 0\ntrace_read_requests = true\n\
                min_resident_size_override = 12345\n";
    let conf = load_tenant_config(Some(text)).unwrap();
    assert_eq!(
        conf,
        TenantConfOpt {
            checkpoint_distance: Some(268435456),
            compaction_threshold: Some(7),
            gc_horizon: Some(0),
            trace_read_requests: Some(true),
            min_resident_size_override: Some(12345),
            ..TenantConfOpt::none()
        }
    );
    let conf = load_tenant_config(Some("[tenant_config]\nimage_creation_threshold = 3\n")).unwrap();
    assert_eq!(conf.image_creation_threshold, Some(3));
    assert_eq!(conf.checkpoint_distance, None);
    let conf = load_tenant_config(Some("tenant_config = { compaction_target_size = 99 }")).unwrap();
    assert_eq!(conf.compaction_target_size, Some(99));
}

#[test]
fn config_file_errors() {
    assert!(matches!(load_tenant_config(Some("[tenant_config")), Err(ConfigError::NotToml)));
    assert!(matches!(load_tenant_config(Some("gc_horizon = = 1")), Err(ConfigError::NotToml)));
    match load_tenant_config(Some("[tenant_config]\ngc_horizon = 1\n[listen]\nport = 1\n")) {
        Err(ConfigError::UnrecognizedOption(key)) => assert_eq!(key, "listen"),
        other => panic!("unexpected {other:?}"),
    }
    match load_tenant_config(Some("gc_horizon = 1\n")) {
        Err(ConfigError::UnrecognizedOption(key)) => assert_eq!(key, "gc_horizon"),
        other => panic!("unexpected {other:?}"),
    }
    let bad = |text: &str| match load_tenant_config(Some(text)) {
        Err(ConfigError::BadSetting(name)) => name,
        other => panic!("unexpected {other:?}"),
    };
    assert_eq!(bad("[tenant_config]\ngc_horizon = -1\n"), SettingName::GcHorizon);
    assert_eq!(bad("[tenant_config]\ngc_horizon = \"1\"\n"), SettingName::GcHorizon);
    assert_eq!(bad("[tenant_config]\ncheckpoint_distance = true\n"), SettingName::CheckpointDistance);
    assert_eq!(bad("[tenant_config]\ncompaction_target_size = 1.5\n"), SettingName::CompactionTargetSize);
    assert_eq!(bad("[tenant_config]\ncompaction_threshold = -7\n"), SettingName::CompactionThreshold);
    assert_eq!(
        bad("[tenant_config]\nimage_creation_threshold = [1]\n"),
        SettingName::ImageCreationThreshold
    );
    assert_eq!(bad("[tenant_config]\ntrace_read_requests = 1\n"), SettingName::TraceReadRequests);
    assert_eq!(
        bad("[tenant_config]\nmin_resident_size_override = false\n"),
        SettingName::MinResidentSizeOverride
    );
    // the first bad setting is named
    assert_eq!(
        bad("[tenant_config]\ngc_horizon = -1\ncheckpoint_distance = -1\n"),
        SettingName::CheckpointDistance
    );
}

#[test]
fn paths_are_rebased_by_components() {
    let p = |s: &str| -> Vec<Vec<u8>> { s.split('/').map(|c| c.as_bytes().to_vec()).collect() };
    assert_eq!(
        rebase_directory(&p("repo/tenants/t1/timelines"), &p("repo/tenants/t1"), &p("repo/tenants/t1.___temp")),
        Ok(p("repo/tenants/t1.___temp/timelines"))
    );
    assert_eq!(
        rebase_directory(&p("a/b/config"), &p("a/b"), &p("x")),
        Ok(p("x/config"))
    );
    assert_eq!(rebase_directory(&p("a/b"), &p("a/b"), &p("x/y")), Ok(p("x/y")));
    assert_eq!(rebase_directory(&p("a/bc/d"), &p("a/b"), &p("x")), Err(NotUnderBase));
    assert_eq!(rebase_directory(&p("a"), &p("a/b"), &p("x")), Err(NotUnderBase));
    assert_eq!(rebase_directory(&p("a/b"), &vec![], &p("x")), Ok(p("x/a/b")));
}

#[test]
fn layer_files_are_told_apart_by_their_first_bytes() {
    assert_eq!(layer_file_kind(0x5A, 0x60), Ok(LayerFileKind::Image));
    assert_eq!(layer_file_kind(0x5A, 0x61), Ok(LayerFileKind::Delta));
    assert_eq!(layer_file_kind(0x60, 0x5A), Err(UnrecognizedMagic(0x605A)));
    assert_eq!(layer_file_kind(0, 0), Err(UnrecognizedMagic(0)));
    assert_eq!(layer_file_kind(0xff, 0xff), Err(UnrecognizedMagic(0xffff)));
}

#[test]
fn a_document_without_a_root_table_holds_no_settings() {
    let mut doc = "[tenant_config]\ngc_horizon = 1\n".parse::<toml_edit::Document>().unwrap();
    assert_eq!(tenant_conf_from_document(&doc).unwrap().gc_horizon, Some(1));
    *doc.as_item_mut() = toml_edit::Item::None;
    assert_eq!(tenant_conf_from_document(&doc).unwrap(), TenantConfOpt::none());
    *doc.as_item_mut() = toml_edit::value(7);
    assert_eq!(tenant_conf_from_document(&doc).unwrap(), TenantConfOpt::none());
}
