use layer_store::branch::bootstrap_metadata;
use layer_store::branch::branch_timeline_impl;
use layer_store::branch::BranchError;
use layer_store::branch::CreatePlan;
use layer_store::branch::CreateTimelineError;
use layer_store::creation::empty_timeline_metadata;
use layer_store::creation::CreationFailure;
use layer_store::creation::CreationProbe;
use layer_store::creation::ExistingState;
use layer_store::creation::PlaceholderRemoval;
use layer_store::creation::ReplacePlaceholderError;
use layer_store::creation::StartCreatingTimelineError;
use layer_store::creation::DEFAULT_PG_VERSION;
use layer_store::deletion::DeleteFailure;
use layer_store::deletion::DeleteStep;
use layer_store::deletion::DeleteTimelineError;
use layer_store::deletion::DirRemoval;
use layer_store::deletion::PersistResult;
use layer_store::deletion::StopResult;
use layer_store::gc::GcError;
use layer_store::historic::HistoricLayer;
use layer_store::historic::HistoricStuff;
use layer_store::id::TenantId;
use layer_store::id::TimelineId;
use layer_store::layer_map::PutOutcome;
use layer_store::inmem::Record;
use layer_store::load::scan_timelines_dir;
use layer_store::load::TimelineInitError;
use layer_store::lsn::Key;
use layer_store::lsn::Lsn;
use layer_store::metadata::MergeMetadataError;
use layer_store::metadata::TimelineMetadata;
use layer_store::read::PageReconstructError;
use layer_store::read::PageVersion;
use layer_store::seqwait::WaitStatus;
use layer_store::storage_layer::ValueReconstructResult;
use layer_store::storage_layer::ValueReconstructState;
use layer_store::tenant::ActiveOutlook;
use layer_store::tenant::AncestorArg;
use layer_store::tenant::GetTimelineError;
use layer_store::tenant::SetStoppingError;
use layer_store::tenant::ShutdownError;
use layer_store::tenant::Tenant;
use layer_store::tenant::TenantState;
use layer_store::tenant::TimelineLoadCause;
use layer_store::tenant_conf::TenantConf;
use layer_store::tenant_conf::TenantConfOpt;
use layer_store::timeline::CreationPhase;
use layer_store::timeline::GcResult;
use layer_store::timeline::LsnOutOfScope;
use layer_store::timeline::Timeline;
use layer_store::timeline::TimelinePutError;
use layer_store::timeline::TimelineReadError;
use layer_store::timeline::TimelineState;
use layer_store::timeline::Value;
use layer_store::tree_sort::tree_sort_timelines;

const TIMELINE_ID: TimelineId = TimelineId(0x11223344556677881122334455667788);
const NEW_TIMELINE_ID: TimelineId = TimelineId(0xAA223344556677881122334455667788);
const TEST_KEY: Key = Key(0x1122222222333333);

fn default_conf() -> TenantConf {
    TenantConf {
        checkpoint_distance: 256 * 1024 * 1024,
        checkpoint_timeout: 600_000,
        compaction_target_size: 128 * 1024 * 1024,
        compaction_period: 20_000,
        compaction_threshold: 10,
        gc_horizon: 64 * 1024 * 1024,
        gc_period: 3_600_000,
        image_creation_threshold: 3,
        pitr_interval: 604_800_000,
        trace_read_requests: false,
        min_resident_size_override: None,
    }
}

fn active_tenant() -> Tenant {
    let mut tenant = Tenant::new(
        TenantState::Loading,
        default_conf(),
        TenantConfOpt::none(),
        TenantId(1),
        false,
        1000,
    );
    assert_eq!(tenant.activate(), 0);
    tenant
}

const NOTHING_ON_DISK: CreationProbe =
    CreationProbe { uninit_mark_exists: false, timeline_dir_exists: false };

/// Takes a timeline through all the steps of its creation.
fn create_timeline(tenant: &mut Tenant, id: TimelineId, metadata: TimelineMetadata) {
    let guard = tenant.start_creating_timeline(id, NOTHING_ON_DISK).expect("start");
    tenant.uninit_mark_created(&guard, NOTHING_ON_DISK, true).expect("mark");
    let ancestor = tenant.resolve_ancestor(&metadata).expect("ancestor");
    let cause = TimelineLoadCause::Test;
    let (timeline, save) = tenant
        .timeline_init_and_sync(id, false, None, Some(&metadata), ancestor, cause, HistoricStuff::new())
        .expect("init");
    assert!(!save);
    let placeholder = guard
        .creation_complete_remove_uninit_marker_and_get_placeholder_timeline(tenant, true)
        .expect("complete");
    assert_eq!(placeholder, id);
    assert!(tenant.replace_placeholder(id, timeline).is_ok());
    let at = tenant.find(id).unwrap();
    tenant.timelines[at].activate();
}

fn create_test_timeline(tenant: &mut Tenant, id: TimelineId, initdb_lsn: Lsn) {
    create_timeline(tenant, id, empty_timeline_metadata(initdb_lsn, DEFAULT_PG_VERSION));
}

fn branch_timeline_test(
    tenant: &mut Tenant,
    src: TimelineId,
    dst: TimelineId,
    start_lsn: Option<Lsn>,
) -> Result<(), BranchError> {
    let metadata = tenant.branch_timeline(src, start_lsn)?;
    create_timeline(tenant, dst, metadata);
    Ok(())
}

fn test_value(s: &str) -> Value {
    Value::Image(s.as_bytes().to_vec())
}

fn put(tenant: &mut Tenant, id: TimelineId, key: Key, lsn: u64, s: &str) {
    let at = tenant.find(id).unwrap();
    let ing = tenant.timelines[at].put(key, Lsn(lsn), test_value(s));
    match ing {
        Ok(ing) => assert!(matches!(ing.outcome, PutOutcome::Stored)),
        Err((_, e)) => panic!("put failed: {e:?}"),
    }
}

fn get(tenant: &Tenant, id: TimelineId, key: Key, lsn: u64) -> String {
    match tenant.get(id, key, Lsn(lsn)) {
        Ok(PageVersion::Image(img)) => String::from_utf8(img).unwrap(),
        other => panic!("no image: {other:?}"),
    }
}

fn make_some_layers(tenant: &mut Tenant, id: TimelineId, start_lsn: u64) {
    let mut lsn = start_lsn;
    put(tenant, id, TEST_KEY, lsn, &format!("foo at {:#x}", lsn));
    lsn += 0x10;
    put(tenant, id, TEST_KEY, lsn, &format!("foo at {:#x}", lsn));
    lsn += 0x10;
    let at = tenant.find(id).unwrap();
    tenant.timelines[at].freeze_and_flush();
    put(tenant, id, TEST_KEY, lsn, &format!("foo at {:#x}", lsn));
    lsn += 0x10;
    put(tenant, id, TEST_KEY, lsn, &format!("foo at {:#x}", lsn));
    tenant.timelines[at].freeze_and_flush();
}

#[test]
fn test_basic() {
    let mut tenant = active_tenant();
    create_test_timeline(&mut tenant, TIMELINE_ID, Lsn(0x08));

    put(&mut tenant, TIMELINE_ID, TEST_KEY, 0x10, "foo at 0x10");
    put(&mut tenant, TIMELINE_ID, TEST_KEY, 0x20, "foo at 0x20");

    assert_eq!(get(&tenant, TIMELINE_ID, TEST_KEY, 0x10), "foo at 0x10");
    assert_eq!(get(&tenant, TIMELINE_ID, TEST_KEY, 0x1f), "foo at 0x10");
    assert_eq!(get(&tenant, TIMELINE_ID, TEST_KEY, 0x20), "foo at 0x20");
}

#[test]
fn no_duplicate_timelines() {
    let mut tenant = active_tenant();
    create_test_timeline(&mut tenant, TIMELINE_ID, Lsn(0x10));

    // the directory of the timeline is on disk by now
    let on_disk = CreationProbe { uninit_mark_exists: false, timeline_dir_exists: true };
    match tenant.start_creating_timeline(TIMELINE_ID, on_disk) {
        Ok(_) => panic!("duplicate timeline creation should fail"),
        Err(e) => assert_eq!(
            e,
            StartCreatingTimelineError::AlreadyExists {
                timeline_id: TIMELINE_ID,
                existing_state: ExistingState::TimelineDirectory,
            }
        ),
    }
    // and without the directory, the entry in the map stands in the way
    assert_eq!(
        tenant.start_creating_timeline(TIMELINE_ID, NOTHING_ON_DISK).err(),
        Some(StartCreatingTimelineError::AlreadyExists {
            timeline_id: TIMELINE_ID,
            existing_state: ExistingState::TimelinesMapEntry,
        })
    );
    let marked = CreationProbe { uninit_mark_exists: true, timeline_dir_exists: true };
    assert_eq!(
        tenant.start_creating_timeline(NEW_TIMELINE_ID, marked).err(),
        Some(StartCreatingTimelineError::AlreadyExists {
            timeline_id: NEW_TIMELINE_ID,
            existing_state: ExistingState::UninitMarkFile,
        })
    );
    assert_eq!(tenant.list_timelines(), vec![TIMELINE_ID]);
}

#[test]
fn test_branch() {
    let mut tenant = active_tenant();
    create_test_timeline(&mut tenant, TIMELINE_ID, Lsn(0x10));

    let test_key_a = Key(0x1122222222333301);
    let test_key_b = Key(0x1122222222333302);

    put(&mut tenant, TIMELINE_ID, test_key_a, 0x20, "foo at 0x20");
    put(&mut tenant, TIMELINE_ID, test_key_b, 0x20, "foobar at 0x20");
    put(&mut tenant, TIMELINE_ID, test_key_a, 0x30, "foo at 0x30");
    put(&mut tenant, TIMELINE_ID, test_key_a, 0x40, "foo at 0x40");

    branch_timeline_test(&mut tenant, TIMELINE_ID, NEW_TIMELINE_ID, Some(Lsn(0x30))).unwrap();
    tenant.get_timeline(NEW_TIMELINE_ID, true).expect("Should have a local timeline");
    put(&mut tenant, NEW_TIMELINE_ID, test_key_a, 0x40, "bar at 0x40");

    assert_eq!(get(&tenant, TIMELINE_ID, test_key_a, 0x40), "foo at 0x40");
    assert_eq!(get(&tenant, NEW_TIMELINE_ID, test_key_a, 0x40), "bar at 0x40");
    assert_eq!(get(&tenant, NEW_TIMELINE_ID, test_key_b, 0x40), "foobar at 0x20");
}

#[test]
fn branch_and_read_across_ancestor() {
    let mut tenant = active_tenant();
    let a = Key(0xA);
    create_test_timeline(&mut tenant, TIMELINE_ID, Lsn(0x10));
    put(&mut tenant, TIMELINE_ID, a, 0x20, "a@20");
    put(&mut tenant, TIMELINE_ID, a, 0x30, "a@30");
    put(&mut tenant, TIMELINE_ID, a, 0x40, "a@40");
    branch_timeline_test(&mut tenant, TIMELINE_ID, NEW_TIMELINE_ID, Some(Lsn(0x30))).unwrap();
    put(&mut tenant, NEW_TIMELINE_ID, a, 0x40, "a@40-child");

    assert_eq!(get(&tenant, TIMELINE_ID, a, 0x40), "a@40");
    assert_eq!(get(&tenant, NEW_TIMELINE_ID, a, 0x40), "a@40-child");
    // walks to the ancestor, and reads it at the LSN asked
    assert_eq!(get(&tenant, NEW_TIMELINE_ID, a, 0x25), "a@20");
    // between the branch point and the first record of the child
    assert_eq!(get(&tenant, NEW_TIMELINE_ID, a, 0x3f), "a@30");
    // before the first record there is nothing
    assert!(matches!(
        tenant.get(NEW_TIMELINE_ID, a, Lsn(0x1f)),
        Ok(PageVersion::Missing(_))
    ));
    assert_eq!(
        tenant.get(TimelineId(5), a, Lsn(0x1f)).err(),
        Some(PageReconstructError::TimelineNotFound(TimelineId(5)))
    );
    let child = tenant.get_timeline(NEW_TIMELINE_ID, true).unwrap();
    assert_eq!(child.get_ancestor_timeline_id(), Some(TIMELINE_ID));
    assert_eq!(child.get_ancestor_lsn(), Lsn(0x30));
    assert_eq!(child.get_last_record_lsn(), Lsn(0x40));
    assert_eq!(tenant.children_of(TIMELINE_ID), vec![NEW_TIMELINE_ID]);
}

#[test]
fn test_prohibit_branch_creation_on_garbage_collected_data() {
    let mut tenant = active_tenant();
    create_test_timeline(&mut tenant, TIMELINE_ID, Lsn(0x10));
    make_some_layers(&mut tenant, TIMELINE_ID, 0x20);

    let result = tenant.gc_iteration(Some(TIMELINE_ID), 0x10, None).unwrap();
    assert_eq!(result, GcResult { layers_total: 2, layers_removed: 1 });
    let tline = tenant.get_timeline(TIMELINE_ID, true).unwrap();
    assert_eq!(tline.get_latest_gc_cutoff_lsn(), Lsn(0x40));

    // try to branch at lsn 25, should fail because we already garbage collected the data
    match branch_timeline_test(&mut tenant, TIMELINE_ID, NEW_TIMELINE_ID, Some(Lsn(0x25))) {
        Ok(_) => panic!("branching should have failed"),
        Err(err) => assert_eq!(
            err,
            BranchError::BelowLatestGcCutoff(LsnOutOfScope {
                lsn: Lsn(0x25),
                latest_gc_cutoff_lsn: Lsn(0x40),
            })
        ),
    }
    assert_eq!(tenant.list_timelines(), vec![TIMELINE_ID]);
}

#[test]
fn test_prohibit_branch_creation_on_pre_initdb_lsn() {
    let mut tenant = active_tenant();
    create_test_timeline(&mut tenant, TIMELINE_ID, Lsn(0x50));
    // try to branch at lsn 0x25, should fail because initdb lsn is 0x50
    match branch_timeline_test(&mut tenant, TIMELINE_ID, NEW_TIMELINE_ID, Some(Lsn(0x25))) {
        Ok(_) => panic!("branching should have failed"),
        Err(err) => assert_eq!(
            err,
            BranchError::BelowLatestGcCutoff(LsnOutOfScope {
                lsn: Lsn(0x25),
                latest_gc_cutoff_lsn: Lsn(0x50),
            })
        ),
    }
}

#[test]
fn test_get_branchpoints_from_an_inactive_timeline() {
    let mut tenant = active_tenant();
    create_test_timeline(&mut tenant, TIMELINE_ID, Lsn(0x10));
    make_some_layers(&mut tenant, TIMELINE_ID, 0x20);

    branch_timeline_test(&mut tenant, TIMELINE_ID, NEW_TIMELINE_ID, Some(Lsn(0x40))).unwrap();
    tenant.get_timeline(NEW_TIMELINE_ID, true).expect("Should have a local timeline");
    make_some_layers(&mut tenant, NEW_TIMELINE_ID, 0x60);

    let at = tenant.find(TIMELINE_ID).unwrap();
    tenant.timelines[at].set_broken();

    tenant.gc_iteration(Some(TIMELINE_ID), 0x10, None).unwrap();

    // The branchpoints should contain all timelines, even ones marked as Broken.
    {
        let branchpoints = &tenant.timelines[at].gc_info.retain_lsns;
        assert_eq!(branchpoints.len(), 1);
        assert_eq!(branchpoints[0], Lsn(0x40));
    }

    // The key can be read from the child even though the parent is broken,
    // as long as no data of the parent is needed.
    assert_eq!(get(&tenant, NEW_TIMELINE_ID, TEST_KEY, 0x70), "foo at 0x70");

    // This needs to traverse to the parent, and fails.
    assert_eq!(
        tenant.get(NEW_TIMELINE_ID, TEST_KEY, Lsn(0x50)).err(),
        Some(PageReconstructError::NotActive {
            timeline_id: TIMELINE_ID,
            state: TimelineState::Broken,
        })
    );
}

#[test]
fn test_parent_keeps_data_forever_after_branching() {
    let mut tenant = active_tenant();
    create_test_timeline(&mut tenant, TIMELINE_ID, Lsn(0x10));
    make_some_layers(&mut tenant, TIMELINE_ID, 0x20);
    branch_timeline_test(&mut tenant, TIMELINE_ID, NEW_TIMELINE_ID, Some(Lsn(0x40))).unwrap();
    make_some_layers(&mut tenant, NEW_TIMELINE_ID, 0x60);

    // run gc on parent
    tenant.gc_iteration(Some(TIMELINE_ID), 0x10, None).unwrap();

    // Check that the data is still accessible on the branch.
    assert_eq!(get(&tenant, NEW_TIMELINE_ID, TEST_KEY, 0x50), "foo at 0x40");
}

#[test]
fn branch_at_gc_cutoff() {
    let mut tenant = active_tenant();
    create_test_timeline(&mut tenant, TIMELINE_ID, Lsn(0x10));
    make_some_layers(&mut tenant, TIMELINE_ID, 0x20);
    tenant.gc_iteration(None, 0x10, None).unwrap();
    let src = tenant.get_timeline(TIMELINE_ID, true).unwrap();
    assert_eq!(src.get_latest_gc_cutoff_lsn(), Lsn(0x40));
    // at the cutoff a branch is in order, just before it it is not
    let md = branch_timeline_impl(src, Some(Lsn(0x40))).unwrap();
    assert_eq!(
        md,
        TimelineMetadata {
            disk_consistent_lsn: Lsn(0x40),
            prev_record_lsn: None,
            ancestor_timeline: Some(TIMELINE_ID),
            ancestor_lsn: Lsn(0x40),
            latest_gc_cutoff_lsn: Lsn(0x40),
            initdb_lsn: Lsn(0x10),
            pg_version: DEFAULT_PG_VERSION,
        }
    );
    assert!(matches!(
        branch_timeline_impl(src, Some(Lsn(0x3f))),
        Err(BranchError::BelowLatestGcCutoff(_))
    ));
    // without a start LSN the branch begins at the last record, and knows
    // the record before it
    let md = branch_timeline_impl(src, None).unwrap();
    assert_eq!(md.disk_consistent_lsn, Lsn(0x50));
    assert_eq!(md.prev_record_lsn, Some(Lsn(0x40)));
    assert_eq!(
        tenant.branch_timeline(TimelineId(9), None).err(),
        Some(BranchError::SourceNotFound(TimelineId(9)))
    );
}

#[test]
fn branch_below_planned_gc_cutoff_is_refused() {
    let mut tenant = active_tenant();
    create_test_timeline(&mut tenant, TIMELINE_ID, Lsn(0x10));
    put(&mut tenant, TIMELINE_ID, TEST_KEY, 0x80, "x");
    // planned, but not yet collected
    let ids = tenant.refresh_gc_info_internal(None, 0x20, Some(Lsn(0x70))).unwrap();
    assert_eq!(ids, vec![TIMELINE_ID]);
    let src = tenant.get_timeline(TIMELINE_ID, true).unwrap();
    assert_eq!(src.gc_info.horizon_cutoff, Lsn(0x60));
    assert_eq!(src.gc_info.pitr_cutoff, Lsn(0x70));
    assert_eq!(src.get_effective_gc_cutoff(), Lsn(0x70));
    assert_eq!(
        branch_timeline_impl(src, Some(Lsn(0x5f))).err(),
        Some(BranchError::BelowPlannedGcCutoff { start_lsn: Lsn(0x5f), cutoff: Lsn(0x60) })
    );
    assert!(branch_timeline_impl(src, Some(Lsn(0x60))).is_ok());
}

#[test]
fn gc_errors_and_selection() {
    let mut tenant = active_tenant();
    create_test_timeline(&mut tenant, TIMELINE_ID, Lsn(0x10));
    put(&mut tenant, TIMELINE_ID, TEST_KEY, 0x20, "x");
    assert_eq!(
        tenant.gc_iteration(Some(NEW_TIMELINE_ID), 0x10, None).err(),
        Some(GcError::TargetNotFound)
    );
    // a timeline with less history than the horizon is passed over
    assert_eq!(tenant.refresh_gc_info_internal(None, 0x21, None).unwrap(), vec![]);
    assert_eq!(
        tenant.gc_iteration(None, 0x21, None).unwrap(),
        GcResult { layers_total: 0, layers_removed: 0 }
    );
    // the horizon of the settings is far beyond the history
    assert_eq!(tenant.refresh_gc_info().unwrap(), vec![]);
    tenant.set_new_tenant_config(TenantConfOpt { gc_horizon: Some(0x8), ..TenantConfOpt::none() });
    assert_eq!(tenant.refresh_gc_info().unwrap(), vec![TIMELINE_ID]);
    assert_eq!(tenant.timelines[0].gc_info.horizon_cutoff, Lsn(0x18));
    assert_eq!(tenant.timelines[0].gc_info.pitr_cutoff, Lsn(0x18));
    tenant.set_stopping().unwrap();
    assert_eq!(tenant.gc_iteration(None, 0x10, None).err(), Some(GcError::TenantNotActive));
}

#[test]
fn branchpoints_are_sorted_and_unique() {
    let mut tenant = active_tenant();
    create_test_timeline(&mut tenant, TIMELINE_ID, Lsn(0x10));
    put(&mut tenant, TIMELINE_ID, TEST_KEY, 0x50, "x");
    for (i, lsn) in [0x40u64, 0x20, 0x40, 0x30].iter().enumerate() {
        branch_timeline_test(&mut tenant, TIMELINE_ID, TimelineId(100 + i as u128), Some(Lsn(*lsn)))
            .unwrap();
    }
    assert_eq!(tenant.branchpoints_of(TIMELINE_ID), vec![Lsn(0x20), Lsn(0x30), Lsn(0x40)]);
    assert_eq!(tenant.branchpoints_of(TimelineId(100)), vec![]);
    tenant.refresh_gc_info_internal(Some(TIMELINE_ID), 0x48, None).unwrap();
    let t = tenant.get_timeline(TIMELINE_ID, true).unwrap();
    assert_eq!(t.gc_info.horizon_cutoff, Lsn(0x8));
    // the largest of the cutoffs and the branch points
    assert_eq!(t.get_effective_gc_cutoff(), Lsn(0x40));
}

#[test]
fn placeholder_and_uninit_mark_go_together() {
    let mut tenant = active_tenant();
    let guard = tenant.start_creating_timeline(TIMELINE_ID, NOTHING_ON_DISK).unwrap();
    assert_eq!(guard.timeline_id(), TIMELINE_ID);
    assert_eq!(tenant.timelines[0].state, TimelineState::Creating);
    assert_eq!(tenant.timelines[0].creation, CreationPhase::AwaitingMark);
    // the placeholder cannot be read, deleted or created again
    assert_eq!(
        tenant.get_timeline(TIMELINE_ID, true).err(),
        Some(GetTimelineError::NotActive {
            tenant_id: TenantId(1),
            timeline_id: TIMELINE_ID,
            state: TimelineState::Creating,
        })
    );
    assert!(matches!(
        tenant.prepare_and_schedule_delete_timeline(TIMELINE_ID),
        Err(DeleteTimelineError::Other(DeleteFailure::TimelineIsCreating))
    ));
    tenant.uninit_mark_created(&guard, NOTHING_ON_DISK, true).unwrap();
    assert_eq!(tenant.timelines[0].creation, CreationPhase::Marked);
    assert_eq!(tenant.timelines[0].state, TimelineState::Creating);
    assert_eq!(tenant.placeholder_at(TIMELINE_ID, CreationPhase::Marked), Some(0));
    assert_eq!(tenant.placeholder_at(TIMELINE_ID, CreationPhase::Unmarked), None);

    // the mark cannot be removed: the placeholder stays, marked
    let md = empty_timeline_metadata(Lsn(8), 14);
    let stuck = tenant.start_creating_timeline(NEW_TIMELINE_ID, NOTHING_ON_DISK).unwrap();
    tenant.uninit_mark_created(&stuck, NOTHING_ON_DISK, true).unwrap();
    assert_eq!(
        stuck.creation_complete_remove_uninit_marker_and_get_placeholder_timeline(&mut tenant, false),
        Err(CreationFailure::RemoveUninitMark)
    );
    assert_eq!(tenant.timelines[1].creation, CreationPhase::Marked);
    assert_eq!(tenant.timelines[1].state, TimelineState::Creating);

    // the mark is removed: the real timeline takes the place
    assert_eq!(
        guard.creation_complete_remove_uninit_marker_and_get_placeholder_timeline(&mut tenant, true),
        Ok(TIMELINE_ID)
    );
    assert_eq!(tenant.timelines[0].creation, CreationPhase::Unmarked);
    let real = Timeline::new(TenantId(1), TIMELINE_ID, &md, false, false, 10);
    assert!(tenant.replace_placeholder(TIMELINE_ID, real).is_ok());
    let at = tenant.find(TIMELINE_ID).unwrap();
    assert_eq!(tenant.timelines[at].creation, CreationPhase::NotCreating);
    assert_eq!(tenant.timelines[at].state, TimelineState::Loading);
    for t in tenant.timelines.iter() {
        assert_eq!(
            t.state == TimelineState::Creating,
            t.creation != CreationPhase::NotCreating
        );
    }
}

#[test]
fn failed_creation_frees_the_id() {
    let mut tenant = active_tenant();
    // the mark cannot be made: the placeholder goes at once
    let guard = tenant.start_creating_timeline(TIMELINE_ID, NOTHING_ON_DISK).unwrap();
    assert_eq!(
        tenant.uninit_mark_created(&guard, NOTHING_ON_DISK, false),
        Err(StartCreatingTimelineError::Other(CreationFailure::CreateUninitMark))
    );
    assert!(tenant.list_timelines().is_empty());
    assert_eq!(
        tenant.uninit_mark_created(&guard, NOTHING_ON_DISK, true),
        Err(StartCreatingTimelineError::Other(CreationFailure::NoPlaceholder))
    );
    // a directory has turned up meanwhile
    let guard = tenant.start_creating_timeline(TIMELINE_ID, NOTHING_ON_DISK).unwrap();
    let dir = CreationProbe { uninit_mark_exists: false, timeline_dir_exists: true };
    assert_eq!(
        tenant.uninit_mark_created(&guard, dir, true),
        Err(StartCreatingTimelineError::AlreadyExists {
            timeline_id: TIMELINE_ID,
            existing_state: ExistingState::TimelineDirectory,
        })
    );
    assert!(tenant.list_timelines().is_empty());
    // the creation fails later
    let guard = tenant.start_creating_timeline(TIMELINE_ID, NOTHING_ON_DISK).unwrap();
    tenant.uninit_mark_created(&guard, NOTHING_ON_DISK, true).unwrap();
    assert_eq!(
        guard.remove_placeholder_timeline_object_from_inmemory_map(&mut tenant),
        PlaceholderRemoval::Removed
    );
    assert_eq!(
        guard.remove_placeholder_timeline_object_from_inmemory_map(&mut tenant),
        PlaceholderRemoval::Missing
    );
    let guard = tenant.start_creating_timeline(TIMELINE_ID, NOTHING_ON_DISK).unwrap();
    tenant.uninit_mark_created(&guard, NOTHING_ON_DISK, true).unwrap();
    // what is on disk cannot be removed: the placeholder stays
    let guard2 = tenant.start_creating_timeline(NEW_TIMELINE_ID, NOTHING_ON_DISK).unwrap();
    tenant.uninit_mark_created(&guard2, NOTHING_ON_DISK, true).unwrap();
    assert_eq!(guard2.creation_failed(&mut tenant, false), PlaceholderRemoval::LeftInPlace);
    assert_eq!(tenant.list_timelines(), vec![TIMELINE_ID, NEW_TIMELINE_ID]);
    assert_eq!(guard.creation_failed(&mut tenant, true), PlaceholderRemoval::Removed);
    assert_eq!(tenant.list_timelines(), vec![NEW_TIMELINE_ID]);
    // and the id can be used again
    assert!(tenant.start_creating_timeline(TIMELINE_ID, NOTHING_ON_DISK).is_ok());
}

#[test]
fn placeholder_gives_way_to_the_right_timeline_only() {
    let mut tenant = active_tenant();
    let md = empty_timeline_metadata(Lsn(8), 14);
    let guard = tenant.start_creating_timeline(TIMELINE_ID, NOTHING_ON_DISK).unwrap();
    tenant.uninit_mark_created(&guard, NOTHING_ON_DISK, true).unwrap();
    let real = Timeline::new(TenantId(1), TIMELINE_ID, &md, false, false, 10);
    // the mark is still there
    let real = match tenant.replace_placeholder(TIMELINE_ID, real) {
        Err((t, ReplacePlaceholderError::NoPlaceholder)) => t,
        _ => panic!("the mark has not been removed"),
    };
    guard.creation_complete_remove_uninit_marker_and_get_placeholder_timeline(&mut tenant, true).unwrap();
    let other = Timeline::new(TenantId(1), NEW_TIMELINE_ID, &md, false, false, 10);
    assert!(matches!(
        tenant.replace_placeholder(TIMELINE_ID, other),
        Err((_, ReplacePlaceholderError::NotTheTimeline))
    ));
    let branched = TimelineMetadata { ancestor_timeline: Some(TimelineId(77)), ..md };
    let orphan = Timeline::new(TenantId(1), TIMELINE_ID, &branched, false, false, 10);
    assert!(matches!(
        tenant.replace_placeholder(TIMELINE_ID, orphan),
        Err((_, ReplacePlaceholderError::AncestorMissing(TimelineId(77))))
    ));
    assert!(tenant.replace_placeholder(TIMELINE_ID, real).is_ok());
    assert_eq!(
        guard_removal(&mut tenant),
        PlaceholderRemoval::Replaced
    );
}

fn guard_removal(tenant: &mut Tenant) -> PlaceholderRemoval {
    // a second creation of the same id is refused, so a guard for the id
    // can only come from a creation that is over
    let id = NEW_TIMELINE_ID;
    let guard = tenant.start_creating_timeline(id, NOTHING_ON_DISK).unwrap();
    tenant.uninit_mark_created(&guard, NOTHING_ON_DISK, true).unwrap();
    guard.creation_complete_remove_uninit_marker_and_get_placeholder_timeline(tenant, true).unwrap();
    let md = empty_timeline_metadata(Lsn(8), 14);
    let real = Timeline::new(TenantId(1), id, &md, false, false, 10);
    assert!(tenant.replace_placeholder(id, real).is_ok());
    let again = tenant.start_creating_timeline(id, NOTHING_ON_DISK);
    assert!(again.is_err());
    // the guard of the finished creation leaves the real timeline alone
    let stale = tenant.start_creating_timeline(TimelineId(3), NOTHING_ON_DISK).unwrap();
    tenant.uninit_mark_created(&stale, NOTHING_ON_DISK, true).unwrap();
    stale.creation_complete_remove_uninit_marker_and_get_placeholder_timeline(tenant, true).unwrap();
    let real = Timeline::new(TenantId(1), TimelineId(3), &md, false, false, 10);
    assert!(tenant.replace_placeholder(TimelineId(3), real).is_ok());
    let probe = tenant.start_creating_timeline(TimelineId(4), NOTHING_ON_DISK).unwrap();
    let removed = probe.remove_placeholder_timeline_object_from_inmemory_map(tenant);
    assert_eq!(removed, PlaceholderRemoval::Removed);
    // a guard whose id now belongs to a real timeline
    let g = tenant.start_creating_timeline(TimelineId(5), NOTHING_ON_DISK).unwrap();
    tenant.uninit_mark_created(&g, NOTHING_ON_DISK, true).unwrap();
    let at = tenant.find(TimelineId(5)).unwrap();
    tenant.timelines[at].creation = CreationPhase::NotCreating;
    tenant.timelines[at].state = TimelineState::Loading;
    g.remove_placeholder_timeline_object_from_inmemory_map(tenant)
}

#[test]
fn only_an_active_tenant_creates_timelines() {
    let mut tenant = Tenant::new(
        TenantState::Loading,
        default_conf(),
        TenantConfOpt::none(),
        TenantId(1),
        false,
        10,
    );
    assert_eq!(
        tenant.start_creating_timeline(TIMELINE_ID, NOTHING_ON_DISK).err(),
        Some(StartCreatingTimelineError::Other(CreationFailure::TenantNotActive))
    );
    assert_eq!(
        tenant.prepare_create_timeline(None, None),
        Err(CreateTimelineError::TenantNotActive)
    );
    tenant.activate();
    assert_eq!(tenant.prepare_create_timeline(None, None), Ok(CreatePlan::Bootstrap));
    assert_eq!(
        tenant.prepare_create_timeline(Some(TIMELINE_ID), None),
        Err(CreateTimelineError::AncestorNotFound(TIMELINE_ID))
    );
    create_test_timeline(&mut tenant, TIMELINE_ID, Lsn(0x10));
    put(&mut tenant, TIMELINE_ID, TEST_KEY, 0x50, "x");
    branch_timeline_test(&mut tenant, TIMELINE_ID, NEW_TIMELINE_ID, Some(Lsn(0x30))).unwrap();
    assert_eq!(
        tenant.prepare_create_timeline(Some(TIMELINE_ID), None),
        Ok(CreatePlan::Branch { ancestor_timeline_id: TIMELINE_ID, start_lsn: None })
    );
    // the start LSN is rounded up to a multiple of eight
    assert_eq!(
        tenant.prepare_create_timeline(Some(NEW_TIMELINE_ID), Some(Lsn(0x31))),
        Ok(CreatePlan::Branch { ancestor_timeline_id: NEW_TIMELINE_ID, start_lsn: Some(Lsn(0x38)) })
    );
    assert_eq!(
        tenant.prepare_create_timeline(Some(NEW_TIMELINE_ID), Some(Lsn(0x30))),
        Ok(CreatePlan::Branch { ancestor_timeline_id: NEW_TIMELINE_ID, start_lsn: Some(Lsn(0x30)) })
    );
    assert_eq!(
        tenant.prepare_create_timeline(Some(NEW_TIMELINE_ID), Some(Lsn(0x21))),
        Err(CreateTimelineError::StartLsnBeforeAncestorLsn {
            start_lsn: Lsn(0x28),
            ancestor_timeline_id: NEW_TIMELINE_ID,
            ancestor_lsn: Lsn(0x30),
        })
    );
    assert_eq!(
        tenant.prepare_create_timeline(Some(TIMELINE_ID), Some(Lsn(u64::MAX - 6))),
        Err(CreateTimelineError::StartLsnOutOfRange(Lsn(u64::MAX - 6)))
    );
    assert_eq!(Lsn(0).align(), Lsn(0));
    assert_eq!(Lsn(1).align(), Lsn(8));
    assert_eq!(Lsn(8).align(), Lsn(8));
    assert_eq!(Lsn(u64::MAX - 7).align(), Lsn(u64::MAX - 7));
    assert_eq!(bootstrap_metadata(Lsn(0x169_9999), 15), empty_timeline_metadata(Lsn(0x169_99a0), 15));
}

#[test]
fn tenant_state_machine() {
    let mut tenant = Tenant::new(
        TenantState::Attaching,
        default_conf(),
        TenantConfOpt::none(),
        TenantId(7),
        true,
        10,
    );
    assert_eq!(tenant.tenant_id(), TenantId(7));
    assert!(!tenant.is_active());
    assert_eq!(tenant.wait_to_become_active(), ActiveOutlook::Pending);
    let md = empty_timeline_metadata(Lsn(8), 14);
    for (i, state) in [TimelineState::Loading, TimelineState::Broken, TimelineState::Stopping]
        .iter()
        .enumerate()
    {
        let mut t = Timeline::new(TenantId(7), TimelineId(i as u128), &md, false, false, 10);
        t.set_state(*state);
        assert!(tenant.can_insert_timeline(&t));
        tenant.insert_loaded_timeline(t);
    }
    assert_eq!(tenant.activate(), 1);
    assert!(tenant.is_active());
    assert!(matches!(tenant.current_state(), TenantState::Active));
    assert_eq!(tenant.wait_to_become_active(), ActiveOutlook::Active);
    let states: Vec<TimelineState> = tenant.timelines.iter().map(|t| t.state).collect();
    assert_eq!(states, vec![TimelineState::Active, TimelineState::Broken, TimelineState::Stopping]);
    assert_eq!(tenant.compaction_iteration().unwrap(), vec![TimelineId(0)]);

    assert_eq!(tenant.set_stopping(), Ok(()));
    assert!(matches!(tenant.current_state(), TenantState::Stopping));
    let states: Vec<TimelineState> = tenant.timelines.iter().map(|t| t.state).collect();
    assert_eq!(states, vec![TimelineState::Stopping, TimelineState::Broken, TimelineState::Stopping]);
    assert_eq!(tenant.set_stopping(), Err(SetStoppingError::AlreadyStopping));
    assert!(matches!(tenant.shutdown(false), Err(ShutdownError::AlreadyStopping)));
    assert_eq!(tenant.wait_to_become_active(), ActiveOutlook::WillNotBecomeActive);
    assert!(tenant.compaction_iteration().is_err());

    tenant.set_broken("gone".to_string(), false);
    assert!(matches!(tenant.current_state(), TenantState::Broken { reason } if reason == "gone"));
    tenant.set_broken("again".to_string(), false);
    assert!(matches!(tenant.current_state(), TenantState::Broken { reason } if reason == "gone"));
    assert_eq!(tenant.set_stopping(), Err(SetStoppingError::Broken));
    // a broken tenant is shut down as it is
    assert!(tenant.shutdown(false).is_ok());
    assert!(matches!(tenant.current_state(), TenantState::Broken { .. }));
}

#[test]
fn load_ends_in_active_or_broken() {
    let mut tenant = Tenant::new(
        TenantState::Loading,
        default_conf(),
        TenantConfOpt::none(),
        TenantId(7),
        false,
        10,
    );
    assert_eq!(tenant.load_finished(Err("no such directory".to_string())), 0);
    assert!(
        matches!(tenant.current_state(), TenantState::Broken { reason } if reason == "no such directory")
    );
    let mut tenant = Tenant::new(
        TenantState::Loading,
        default_conf(),
        TenantConfOpt::none(),
        TenantId(7),
        false,
        10,
    );
    let md = empty_timeline_metadata(Lsn(8), 14);
    tenant.insert_loaded_timeline(Timeline::new(TenantId(7), TIMELINE_ID, &md, false, false, 10));
    assert_eq!(tenant.load_finished(Ok(())), 1);
    assert!(tenant.is_active());
    assert!(tenant.get_timeline(TIMELINE_ID, true).is_ok());

    let broken = Tenant::create_broken_tenant(default_conf(), TenantId(9), "bad config".to_string(), 10);
    assert!(matches!(broken.current_state(), TenantState::Broken { reason } if reason == "bad config"));
    assert!(broken.list_timelines().is_empty());
    assert_eq!(broken.tenant_specific_overrides(), TenantConfOpt::none());
    assert_eq!(
        broken.get_timeline(TIMELINE_ID, false).err(),
        Some(GetTimelineError::NotFound { tenant_id: TenantId(9), timeline_id: TIMELINE_ID })
    );
}

#[test]
fn timeline_states() {
    let md = empty_timeline_metadata(Lsn(8), 14);
    let mut t = Timeline::new(TenantId(1), TIMELINE_ID, &md, false, false, 10);
    assert_eq!(t.current_state(), TimelineState::Loading);
    t.activate();
    assert!(t.is_active());
    t.set_state(TimelineState::Stopping);
    assert!(t.is_stopping());
    // a stopping timeline does not become active again
    t.activate();
    assert!(t.is_stopping());
    t.set_broken();
    assert!(t.is_broken());
    // a broken timeline stays broken
    t.set_state(TimelineState::Active);
    t.set_state(TimelineState::Stopping);
    assert!(t.is_broken());
    let placeholder = Timeline::new(TenantId(1), TIMELINE_ID, &md, true, false, 10);
    assert!(placeholder.is_creating());
    assert_eq!(placeholder.creation, CreationPhase::AwaitingMark);
}

#[test]
fn timeline_put_errors() {
    let md = empty_timeline_metadata(Lsn(8), 14);
    let mut t = Timeline::new(TenantId(1), TIMELINE_ID, &md, false, false, 2);
    let refused = t.put(TEST_KEY, Lsn(0x10), test_value("x")).err().unwrap();
    assert_eq!(refused.1, TimelinePutError::NotActive(TimelineState::Loading));
    assert_eq!(t.wait_lsn(Lsn(0)), Err(TimelineReadError::NotActive(TimelineState::Loading)));
    t.activate();
    assert!(t.put(TEST_KEY, Lsn(0x10), test_value("x")).is_ok());
    assert_eq!(t.get_last_record_lsn(), Lsn(0x10));
    assert_eq!(t.prev_record_lsn, Lsn(0));
    let refused = t.put(TEST_KEY, Lsn(0x10), test_value("y")).err().unwrap();
    assert_eq!(refused.1, TimelinePutError::AlreadyHaveRecordForKeyAndLsn);
    let refused = t.put(TEST_KEY, Lsn(0xf), test_value("y")).err().unwrap();
    assert_eq!(refused.1, TimelinePutError::OutOfRange);
    let refused = t.put(Key(u64::MAX), Lsn(0x11), test_value("y")).err().unwrap();
    assert_eq!(refused.1, TimelinePutError::OutOfRange);
    let refused = t.put(TEST_KEY, Lsn(u64::MAX), test_value("y")).err().unwrap();
    assert_eq!(refused.1, TimelinePutError::OutOfRange);
    assert_eq!(t.get_last_record_lsn(), Lsn(0x10));
    assert_eq!(t.wait_lsn(Lsn(0x10)), Ok(WaitStatus::Ready));
    assert_eq!(t.wait_lsn(Lsn(0x20)), Ok(WaitStatus::Queued(0)));
    let ing = t.put(Key(1), Lsn(0x20), test_value("z")).unwrap();
    assert_eq!(ing.woken.len(), 1);
    assert_eq!(t.prev_record_lsn, Lsn(0x10));
    // a record that is there already is a duplicate, also behind the last record
    let refused = t.put(TEST_KEY, Lsn(0x10), test_value("y")).err().unwrap();
    assert_eq!(refused.1, TimelinePutError::AlreadyHaveRecordForKeyAndLsn);
    assert_eq!(t.get_last_record_lsn(), Lsn(0x20));
    // the layer is full now, and does not give way within an LSN
    let refused = t.put(Key(2), Lsn(0x20), test_value("w")).err().unwrap();
    assert_eq!(refused.1, TimelinePutError::LayerFull);
    assert_eq!(t.layers.historic_len(), 0);
    let ing = t.put(Key(2), Lsn(0x30), test_value("w")).unwrap();
    assert_eq!(ing.outcome, PutOutcome::Rotated);
    assert_eq!(t.layers.historic_len(), 1);
    assert!(t.layers.has_open_record(Key(2), Lsn(0x30)));
    assert_eq!(t.get_last_record_lsn(), Lsn(0x30));
    assert_eq!(t.get_disk_consistent_lsn(), Lsn(0));
    t.freeze_and_flush();
    assert_eq!(t.get_disk_consistent_lsn(), Lsn(0x30));
    assert_eq!(t.check_lsn_is_in_scope(Lsn(8), Lsn(8)), Ok(()));
    assert_eq!(
        t.check_lsn_is_in_scope(Lsn(7), Lsn(8)),
        Err(LsnOutOfScope { lsn: Lsn(7), latest_gc_cutoff_lsn: Lsn(8) })
    );
    t.layers.shutdown();
    assert_eq!(t.wait_lsn(Lsn(0)), Err(TimelineReadError::Shutdown));
}

#[test]
fn freeze_and_flush_keeps_reads() {
    let mut tenant = active_tenant();
    create_test_timeline(&mut tenant, TIMELINE_ID, Lsn(0x10));
    put(&mut tenant, TIMELINE_ID, Key(1), 0x20, "one@20");
    put(&mut tenant, TIMELINE_ID, Key(2), 0x20, "two@20");
    put(&mut tenant, TIMELINE_ID, Key(1), 0x30, "one@30");
    let reads = |tenant: &Tenant| -> Vec<String> {
        let mut out = Vec::new();
        for key in 1..3u64 {
            for lsn in [0x20u64, 0x2f, 0x30, 0x31] {
                out.push(get(tenant, TIMELINE_ID, Key(key), lsn));
            }
        }
        out
    };
    let before = reads(&tenant);
    assert_eq!(before[0], "one@20");
    assert_eq!(before[3], "one@30");
    let uploads = tenant.freeze_and_flush_on_shutdown();
    assert!(uploads.is_empty());
    assert_eq!(tenant.timelines[0].get_disk_consistent_lsn(), Lsn(0x30));
    assert_eq!(tenant.timelines[0].layers.historic_len(), 1);
    assert!(!tenant.timelines[0].layers.has_open_layer());
    assert_eq!(reads(&tenant), before);
}

#[test]
fn wal_records_are_collected_down_to_an_image() {
    let md = empty_timeline_metadata(Lsn(8), 14);
    let mut t = Timeline::new(TenantId(1), TIMELINE_ID, &md, false, false, 100);
    t.activate();
    let wal = |will_init: bool, s: &str| Value::WalRecord { will_init, rec: s.as_bytes().to_vec() };
    assert!(t.put(Key(1), Lsn(0x10), wal(false, "lost")).is_ok());
    assert!(t.put(Key(1), Lsn(0x20), test_value("img@20")).is_ok());
    assert!(t.put(Key(1), Lsn(0x30), wal(false, "r30")).is_ok());
    t.freeze_and_flush();
    assert!(t.put(Key(1), Lsn(0x40), wal(false, "r40")).is_ok());
    assert!(t.put(Key(2), Lsn(0x40), wal(true, "init")).is_ok());
    assert!(t.put(Key(2), Lsn(0x50), wal(false, "r50")).is_ok());

    let mut state = ValueReconstructState { records: vec![], img: None };
    let r = t.get_value_reconstruct_data(Key(1), Lsn(0x40), &mut state);
    assert_eq!(r, ValueReconstructResult::Complete);
    assert_eq!(
        state.records,
        vec![(Lsn(0x40), b"r40".to_vec()), (Lsn(0x30), b"r30".to_vec())]
    );
    assert_eq!(state.img, Some((Lsn(0x20), b"img@20".to_vec())));

    // an initialising record ends the collection without an image
    let mut state = ValueReconstructState { records: vec![], img: None };
    let r = t.get_value_reconstruct_data(Key(2), Lsn(0x50), &mut state);
    assert_eq!(r, ValueReconstructResult::Complete);
    assert_eq!(
        state.records,
        vec![(Lsn(0x50), b"r50".to_vec()), (Lsn(0x40), b"init".to_vec())]
    );
    assert_eq!(state.img, None);

    // before the image only a record that needs more is found
    let mut state = ValueReconstructState { records: vec![], img: None };
    let r = t.get_value_reconstruct_data(Key(1), Lsn(0x1f), &mut state);
    assert_eq!(r, ValueReconstructResult::Continue);
    assert_eq!(state.records, vec![(Lsn(0x10), b"lost".to_vec())]);

    let mut tenant = active_tenant();
    tenant.insert_loaded_timeline(t);
    match tenant.get(TIMELINE_ID, Key(1), Lsn(0x40)) {
        Ok(PageVersion::NeedsRedo(state)) => {
            assert_eq!(state.records.len(), 2);
            assert_eq!(state.img, Some((Lsn(0x20), b"img@20".to_vec())));
        },
        other => panic!("unexpected {other:?}"),
    }
    match tenant.get(TIMELINE_ID, Key(1), Lsn(0x1f)) {
        Ok(PageVersion::Missing(state)) => assert_eq!(state.records.len(), 1),
        other => panic!("unexpected {other:?}"),
    }
    match tenant.get(TIMELINE_ID, Key(1), Lsn(0x20)) {
        Ok(PageVersion::Image(img)) => assert_eq!(img, b"img@20".to_vec()),
        other => panic!("unexpected {other:?}"),
    }
}

#[test]
fn delete_timeline_steps() {
    let mut tenant = active_tenant();
    create_test_timeline(&mut tenant, TIMELINE_ID, Lsn(0x10));
    put(&mut tenant, TIMELINE_ID, TEST_KEY, 0x50, "x");
    branch_timeline_test(&mut tenant, TIMELINE_ID, NEW_TIMELINE_ID, Some(Lsn(0x30))).unwrap();

    assert!(matches!(
        tenant.prepare_and_schedule_delete_timeline(TimelineId(5)),
        Err(DeleteTimelineError::NotFound)
    ));
    match tenant.prepare_and_schedule_delete_timeline(TIMELINE_ID) {
        Err(DeleteTimelineError::HasChildren(children)) => {
            assert_eq!(children, vec![NEW_TIMELINE_ID])
        },
        other => panic!("unexpected {other:?}"),
    }
    assert!(tenant.get_timeline(TIMELINE_ID, true).is_ok());

    assert_eq!(
        tenant.delete_timeline(NEW_TIMELINE_ID, DirRemoval::Removed),
        Err(DeleteFailure::NotInProgress)
    );
    assert!(matches!(
        tenant.prepare_and_schedule_delete_timeline(NEW_TIMELINE_ID),
        Ok(DeleteStep::Proceed { has_remote_client: false })
    ));
    assert_eq!(
        tenant.get_timeline(NEW_TIMELINE_ID, false).unwrap().current_state(),
        TimelineState::Stopping
    );
    assert!(matches!(
        tenant.prepare_and_schedule_delete_timeline(NEW_TIMELINE_ID),
        Err(DeleteTimelineError::Other(DeleteFailure::AlreadyInProgress))
    ));
    // the remote side fails: the deletion can be tried again
    assert!(matches!(
        tenant.timeline_tasks_stopped(NEW_TIMELINE_ID, Some(StopResult::QueueUninitialized), None),
        Err(DeleteTimelineError::Other(DeleteFailure::UploadQueueUninitialized))
    ));
    assert!(matches!(
        tenant.timeline_tasks_stopped(NEW_TIMELINE_ID, None, None),
        Err(DeleteTimelineError::Other(DeleteFailure::NotInProgress))
    ));
    assert!(tenant.prepare_and_schedule_delete_timeline(NEW_TIMELINE_ID).is_ok());
    assert!(matches!(
        tenant.timeline_tasks_stopped(
            NEW_TIMELINE_ID,
            Some(StopResult::Stopped),
            Some(PersistResult::Failed)
        ),
        Err(DeleteTimelineError::Other(DeleteFailure::PersistDeletedFlag))
    ));
    assert!(tenant.prepare_and_schedule_delete_timeline(NEW_TIMELINE_ID).is_ok());
    assert!(tenant
        .timeline_tasks_stopped(
            NEW_TIMELINE_ID,
            Some(StopResult::Stopped),
            Some(PersistResult::AlreadyDeleted)
        )
        .is_ok());
    // the directory cannot be removed: the timeline stays, broken
    assert_eq!(
        tenant.delete_timeline(NEW_TIMELINE_ID, DirRemoval::Failed),
        Err(DeleteFailure::RemoveLocalDir)
    );
    assert_eq!(
        tenant.get_timeline(NEW_TIMELINE_ID, false).unwrap().current_state(),
        TimelineState::Broken
    );
    assert_eq!(tenant.deleting_at(NEW_TIMELINE_ID), None);
    assert!(tenant.prepare_and_schedule_delete_timeline(NEW_TIMELINE_ID).is_ok());
    assert_eq!(tenant.deleting_at(NEW_TIMELINE_ID), Some(1));
    assert_eq!(tenant.delete_timeline(NEW_TIMELINE_ID, DirRemoval::NotFound), Ok(false));
    assert_eq!(tenant.list_timelines(), vec![TIMELINE_ID]);
    // now the parent has no children any more
    assert!(tenant.children_of(TIMELINE_ID).is_empty());
    assert!(tenant.prepare_and_schedule_delete_timeline(TIMELINE_ID).is_ok());
    assert_eq!(tenant.delete_timeline(TIMELINE_ID, DirRemoval::Removed), Ok(false));
    assert!(tenant.list_timelines().is_empty());
}

#[test]
fn timeline_init_picks_the_metadata() {
    let tenant = active_tenant();
    let local = TimelineMetadata {
        disk_consistent_lsn: Lsn(0x50),
        ..empty_timeline_metadata(Lsn(0x10), 14)
    };
    let remote = TimelineMetadata {
        disk_consistent_lsn: Lsn(0x40),
        ..empty_timeline_metadata(Lsn(0x10), 14)
    };
    let no_layers = || HistoricStuff::<Value>::new();
    let cause = TimelineLoadCause::Startup;
    // without ancestor and without layers the timeline holds nothing
    assert_eq!(
        tenant
            .timeline_init_and_sync(
                TIMELINE_ID,
                true,
                Some(&remote),
                Some(&local),
                AncestorArg::no_ancestor(),
                cause,
                no_layers()
            )
            .err(),
        Some(TimelineInitError::NoAncestorNoLayers)
    );
    let created = TimelineLoadCause::TimelineCreate {
        placeholder_timeline: TIMELINE_ID,
        expxect_layer_files: false,
    };
    let (t, save) = tenant
        .timeline_init_and_sync(
            TIMELINE_ID,
            true,
            Some(&remote),
            Some(&local),
            AncestorArg::no_ancestor(),
            created,
            no_layers(),
        )
        .unwrap();
    assert!(!save);
    assert_eq!(t.get_disk_consistent_lsn(), Lsn(0x50));
    assert_eq!(t.current_state(), TimelineState::Loading);
    assert!(t.has_remote_client);
    // only the remote metadata is there: it counts, and has to be saved
    let (t, save) = tenant
        .timeline_init_and_sync(
            TIMELINE_ID,
            true,
            Some(&remote),
            None,
            AncestorArg::no_ancestor(),
            created,
            no_layers(),
        )
        .unwrap();
    assert!(save);
    assert_eq!(t.get_disk_consistent_lsn(), Lsn(0x40));
    // the remote one is ahead
    assert_eq!(
        tenant
            .timeline_init_and_sync(
                TIMELINE_ID,
                true,
                Some(&local),
                Some(&remote),
                AncestorArg::no_ancestor(),
                created,
                no_layers()
            )
            .err(),
        Some(TimelineInitError::Merge(MergeMetadataError::RemoteAheadOfLocal))
    );
    // the two do not agree on the ancestor
    let branched = TimelineMetadata { ancestor_timeline: Some(NEW_TIMELINE_ID), ..remote };
    assert_eq!(
        tenant
            .timeline_init_and_sync(
                TIMELINE_ID,
                true,
                Some(&branched),
                Some(&local),
                AncestorArg::no_ancestor(),
                created,
                no_layers()
            )
            .err(),
        Some(TimelineInitError::AncestorMismatch { local: None, remote: Some(NEW_TIMELINE_ID) })
    );
    assert_eq!(
        tenant.resolve_ancestor(&branched),
        Err(TimelineInitError::AncestorNotFound(NEW_TIMELINE_ID))
    );
    assert_eq!(tenant.resolve_ancestor(&local), Ok(AncestorArg(None)));
    assert_eq!(
        tenant.create_timeline_struct(TIMELINE_ID, &branched, None, false).err(),
        Some(TimelineInitError::AncestorNotFound(NEW_TIMELINE_ID))
    );
    assert!(tenant
        .create_timeline_struct(TIMELINE_ID, &branched, Some(NEW_TIMELINE_ID), false)
        .is_ok());
}

#[test]
fn settings_fall_back_to_the_defaults() {
    let mut tenant = active_tenant();
    assert_eq!(tenant.get_checkpoint_distance(), 256 * 1024 * 1024);
    assert_eq!(tenant.get_checkpoint_timeout(), 600_000);
    assert_eq!(tenant.get_compaction_target_size(), 128 * 1024 * 1024);
    assert_eq!(tenant.get_compaction_period(), 20_000);
    assert_eq!(tenant.get_compaction_threshold(), 10);
    assert_eq!(tenant.get_gc_horizon(), 64 * 1024 * 1024);
    assert_eq!(tenant.get_gc_period(), 3_600_000);
    assert_eq!(tenant.get_image_creation_threshold(), 3);
    assert_eq!(tenant.get_pitr_interval(), 604_800_000);
    assert!(!tenant.get_trace_read_requests());
    assert_eq!(tenant.get_min_resident_size_override(), None);
    assert_eq!(tenant.effective_config(), default_conf());
    let over = TenantConfOpt {
        checkpoint_distance: Some(1),
        checkpoint_timeout: Some(2),
        compaction_target_size: Some(3),
        compaction_period: Some(4),
        compaction_threshold: Some(5),
        gc_horizon: Some(6),
        gc_period: Some(7),
        image_creation_threshold: Some(8),
        pitr_interval: Some(9),
        trace_read_requests: Some(true),
        min_resident_size_override: Some(10),
    };
    tenant.set_new_tenant_config(over);
    assert_eq!(tenant.tenant_specific_overrides(), over);
    assert_eq!(tenant.get_checkpoint_distance(), 1);
    assert_eq!(tenant.get_checkpoint_timeout(), 2);
    assert_eq!(tenant.get_compaction_target_size(), 3);
    assert_eq!(tenant.get_compaction_period(), 4);
    assert_eq!(tenant.get_compaction_threshold(), 5);
    assert_eq!(tenant.get_gc_horizon(), 6);
    assert_eq!(tenant.get_gc_period(), 7);
    assert_eq!(tenant.get_image_creation_threshold(), 8);
    assert_eq!(tenant.get_pitr_interval(), 9);
    assert!(tenant.get_trace_read_requests());
    assert_eq!(tenant.get_min_resident_size_override(), Some(10));
    assert_eq!(tenant.effective_config().gc_horizon, 6);
    assert_eq!(tenant.get_cached_synthetic_size(), 0);
    tenant.set_cached_synthetic_size(77);
    assert_eq!(tenant.get_cached_synthetic_size(), 77);
}

#[test]
fn remote_sizes_are_added_up() {
    let mut tenant = Tenant::new(
        TenantState::Loading,
        default_conf(),
        TenantConfOpt::none(),
        TenantId(1),
        true,
        10,
    );
    let md = empty_timeline_metadata(Lsn(8), 14);
    tenant.insert_loaded_timeline(Timeline::new(TenantId(1), TimelineId(1), &md, false, true, 10));
    tenant.insert_loaded_timeline(Timeline::new(TenantId(1), TimelineId(2), &md, false, false, 10));
    tenant.insert_loaded_timeline(Timeline::new(TenantId(1), TimelineId(3), &md, false, true, 10));
    let sizes = vec![(TimelineId(1), 100), (TimelineId(2), 1000), (TimelineId(3), 20)];
    assert_eq!(tenant.get_remote_size(&sizes), 120);
    let sizes = vec![(TimelineId(1), u64::MAX - 1), (TimelineId(3), 20)];
    assert_eq!(tenant.get_remote_size(&sizes), u64::MAX);
    assert_eq!(tenant.get_remote_size(&vec![]), 0);
    let uploads = tenant.freeze_and_flush_on_shutdown();
    assert_eq!(uploads, vec![TimelineId(1), TimelineId(3)]);
}

#[test]
fn shutdown_closes_the_gates_and_flushes() {
    let mut tenant = active_tenant();
    create_test_timeline(&mut tenant, TIMELINE_ID, Lsn(0x10));
    put(&mut tenant, TIMELINE_ID, TEST_KEY, 0x20, "x");
    assert_eq!(tenant.timelines[0].wait_lsn(Lsn(0x30)), Ok(WaitStatus::Queued(0)));
    let work = tenant.shutdown(true).unwrap();
    assert_eq!(work.dropped_waits.len(), 1);
    assert_eq!(work.dropped_waits[0].0, TIMELINE_ID);
    assert_eq!(work.dropped_waits[0].1.target, Lsn(0x30));
    assert!(work.uploads.is_empty());
    assert!(matches!(tenant.current_state(), TenantState::Stopping));
    let t = &tenant.timelines[0];
    assert_eq!(t.current_state(), TimelineState::Stopping);
    assert!(t.layers.is_closed());
    assert!(!t.layers.has_open_layer());
    assert_eq!(t.layers.historic_len(), 1);
    assert_eq!(t.get_disk_consistent_lsn(), Lsn(0x20));
    // without a flush the open layer stays
    let md = empty_timeline_metadata(Lsn(8), 14);
    let mut t = Timeline::new(TenantId(1), TIMELINE_ID, &md, false, false, 10);
    t.activate();
    assert!(t.put(Key(1), Lsn(0x10), test_value("x")).is_ok());
    assert!(t.shutdown(false).is_empty());
    assert!(t.layers.is_closed());
    assert!(t.layers.has_open_layer());
    assert_eq!(t.get_disk_consistent_lsn(), Lsn(0));
}

#[test]
fn a_deleted_timeline_needs_no_second_deletion() {
    let mut tenant = active_tenant();
    create_test_timeline(&mut tenant, TIMELINE_ID, Lsn(0x10));
    tenant.timelines[0].deleted = true;
    assert!(matches!(
        tenant.prepare_and_schedule_delete_timeline(TIMELINE_ID),
        Ok(DeleteStep::AlreadyDeleted)
    ));
    assert_eq!(tenant.timelines[0].current_state(), TimelineState::Active);
    assert!(!tenant.timelines[0].delete_in_progress);
}

#[test]
fn what_has_been_ingested_is_only_added_to() {
    let mut tenant = active_tenant();
    create_test_timeline(&mut tenant, TIMELINE_ID, Lsn(0x10));
    put(&mut tenant, TIMELINE_ID, Key(1), 0x20, "one@20");
    put(&mut tenant, TIMELINE_ID, Key(2), 0x20, "two@20");
    let before: Vec<String> =
        [0x20u64, 0x25, 0x2f].iter().map(|l| get(&tenant, TIMELINE_ID, Key(1), *l)).collect();
    put(&mut tenant, TIMELINE_ID, Key(1), 0x30, "one@30");
    put(&mut tenant, TIMELINE_ID, Key(1), 0x31, "one@31");
    let after: Vec<String> =
        [0x20u64, 0x25, 0x2f].iter().map(|l| get(&tenant, TIMELINE_ID, Key(1), *l)).collect();
    assert_eq!(before, after);
    assert_eq!(get(&tenant, TIMELINE_ID, Key(1), 0x30), "one@30");
    assert_eq!(get(&tenant, TIMELINE_ID, Key(2), 0x31), "two@20");
}

#[test]
fn gc_keeps_what_lies_at_or_above_the_cutoff() {
    let mut tenant = active_tenant();
    create_test_timeline(&mut tenant, TIMELINE_ID, Lsn(0x10));
    make_some_layers(&mut tenant, TIMELINE_ID, 0x20);
    put(&mut tenant, TIMELINE_ID, Key(9), 0x60, "nine@60");
    assert_eq!(get(&tenant, TIMELINE_ID, TEST_KEY, 0x35), "foo at 0x30");
    let result = tenant.gc_iteration(None, 0x20, None).unwrap();
    assert_eq!(result, GcResult { layers_total: 2, layers_removed: 1 });
    assert_eq!(tenant.timelines[0].get_latest_gc_cutoff_lsn(), Lsn(0x40));
    // what lies at or above the cutoff is still there
    assert_eq!(get(&tenant, TIMELINE_ID, TEST_KEY, 0x40), "foo at 0x40");
    assert_eq!(get(&tenant, TIMELINE_ID, TEST_KEY, 0x55), "foo at 0x50");
    assert_eq!(get(&tenant, TIMELINE_ID, Key(9), 0x60), "nine@60");
    // what lies below may be gone
    assert!(matches!(tenant.get(TIMELINE_ID, TEST_KEY, Lsn(0x35)), Ok(PageVersion::Missing(_))));
    // a second collection with the same cutoff changes nothing
    let again = tenant.gc_iteration(None, 0x20, None).unwrap();
    assert_eq!(again, GcResult { layers_total: 1, layers_removed: 0 });
}

/// What a timeline keeps on disk: its directory name, its metadata and
/// its layers.
struct StoredTimeline {
    dir_name: Vec<u8>,
    metadata: TimelineMetadata,
    layers: Vec<HistoricLayer<Value>>,
}

fn copy_value(v: &Value) -> Value {
    match v {
        Value::Image(img) => Value::Image(img.clone()),
        Value::WalRecord { will_init, rec } => Value::WalRecord { will_init: *will_init, rec: rec.clone() },
    }
}

/// What is on disk of the timelines of `tenant`.
fn store(tenant: &Tenant) -> Vec<StoredTimeline> {
    let mut stored = Vec::new();
    for t in tenant.timelines.iter() {
        let historic = t.layers.historic_layers();
        let mut layers = Vec::new();
        for i in 0..historic.len() {
            let l = historic.layer(i);
            let mut records = Vec::new();
            for r in l.records.iter() {
                records.push(Record { key: r.key, lsn: r.lsn, delta: copy_value(&r.delta) });
            }
            layers.push(HistoricLayer {
                is_delta: l.is_delta,
                key_range: l.key_range.clone(),
                lsn_range: l.lsn_range.clone(),
                records,
            });
        }
        stored.push(StoredTimeline {
            dir_name: format!("{:032x}", t.timeline_id.0).into_bytes(),
            metadata: TimelineMetadata {
                disk_consistent_lsn: t.get_disk_consistent_lsn(),
                prev_record_lsn: None,
                ancestor_timeline: t.get_ancestor_timeline_id(),
                ancestor_lsn: t.get_ancestor_lsn(),
                latest_gc_cutoff_lsn: t.get_latest_gc_cutoff_lsn(),
                initdb_lsn: t.initdb_lsn,
                pg_version: t.pg_version,
            },
            layers,
        });
    }
    stored
}

/// Loads a tenant from what is on disk, as at startup.
fn load(stored: Vec<StoredTimeline>) -> Tenant {
    let mut tenant = Tenant::new(
        TenantState::Loading,
        default_conf(),
        TenantConfOpt::none(),
        TenantId(1),
        false,
        1000,
    );
    let names: Vec<Vec<u8>> = stored.iter().map(|s| s.dir_name.clone()).collect();
    let scan = scan_timelines_dir(&names).expect("scan");
    assert!(scan.temporary.is_empty());
    assert!(scan.uninit_marks.is_empty());
    let mut to_load = std::collections::HashMap::new();
    for (id, s) in scan.timelines.iter().zip(stored.iter()) {
        to_load.insert(id.0, s.metadata);
    }
    let sorted = tree_sort_timelines(to_load).expect("every ancestor is there");
    let mut stored = stored;
    for (id, metadata) in sorted {
        let at = stored.iter().position(|s| s.dir_name == format!("{:032x}", id.0).into_bytes()).unwrap();
        let mut historic = HistoricStuff::new();
        for layer in stored.remove(at).layers {
            historic = historic.with_layer(layer).expect("layers on disk do not overlap");
        }
        let ancestor = tenant.resolve_ancestor(&metadata).expect("ancestor");
        let (timeline, save) = tenant
            .timeline_init_and_sync(id, false, None, Some(&metadata), ancestor, TimelineLoadCause::Startup, historic)
            .expect("init");
        assert!(!save);
        assert!(tenant.can_insert_timeline(&timeline));
        tenant.insert_loaded_timeline(timeline);
    }
    tenant.load_finished(Ok(()));
    tenant
}

#[test]
fn timeline_load() {
    let stored = {
        let mut tenant = active_tenant();
        create_test_timeline(&mut tenant, TIMELINE_ID, Lsn(0x7000));
        make_some_layers(&mut tenant, TIMELINE_ID, 0x8000);
        store(&tenant)
    };

    let tenant = load(stored);
    tenant.get_timeline(TIMELINE_ID, true).expect("cannot load timeline");
    assert_eq!(get(&tenant, TIMELINE_ID, TEST_KEY, 0x8030), "foo at 0x8030");
}

#[test]
fn timeline_load_with_ancestor() {
    // create two timelines
    let stored = {
        let mut tenant = active_tenant();
        create_test_timeline(&mut tenant, TIMELINE_ID, Lsn(0x10));
        make_some_layers(&mut tenant, TIMELINE_ID, 0x20);
        branch_timeline_test(&mut tenant, TIMELINE_ID, NEW_TIMELINE_ID, Some(Lsn(0x40))).unwrap();
        let at = tenant.find(NEW_TIMELINE_ID).unwrap();
        tenant.timelines[at].set_state(TimelineState::Active);
        tenant.get_timeline(NEW_TIMELINE_ID, true).expect("Should have a local timeline");
        make_some_layers(&mut tenant, NEW_TIMELINE_ID, 0x60);
        let mut stored = store(&tenant);
        // the order of the directory is not that of the ancestry
        stored.reverse();
        stored
    };

    let tenant = load(stored);

    // check that both, child and ancestor are loaded
    let child = tenant.get_timeline(NEW_TIMELINE_ID, true).expect("cannot get child timeline loaded");
    assert_eq!(child.get_ancestor_timeline_id(), Some(TIMELINE_ID));
    assert_eq!(child.get_ancestor_lsn(), Lsn(0x40));
    tenant.get_timeline(TIMELINE_ID, true).expect("cannot get ancestor timeline loaded");
    assert_eq!(get(&tenant, NEW_TIMELINE_ID, TEST_KEY, 0x50), "foo at 0x40");
    assert_eq!(get(&tenant, NEW_TIMELINE_ID, TEST_KEY, 0x90), "foo at 0x90");
}

#[test]
fn test_images() {
    let mut tenant = active_tenant();
    create_test_timeline(&mut tenant, TIMELINE_ID, Lsn(0x08));
    let at = tenant.find(TIMELINE_ID).unwrap();

    for lsn in [0x10u64, 0x20, 0x30, 0x40] {
        put(&mut tenant, TIMELINE_ID, TEST_KEY, lsn, &format!("foo at {:#x}", lsn));
        tenant.timelines[at].freeze_and_flush();
        assert_eq!(tenant.compaction_iteration().unwrap(), vec![TIMELINE_ID]);
    }

    assert_eq!(get(&tenant, TIMELINE_ID, TEST_KEY, 0x10), "foo at 0x10");
    assert_eq!(get(&tenant, TIMELINE_ID, TEST_KEY, 0x1f), "foo at 0x10");
    assert_eq!(get(&tenant, TIMELINE_ID, TEST_KEY, 0x20), "foo at 0x20");
    assert_eq!(get(&tenant, TIMELINE_ID, TEST_KEY, 0x30), "foo at 0x30");
    assert_eq!(get(&tenant, TIMELINE_ID, TEST_KEY, 0x40), "foo at 0x40");
}

/// A generator of numbers that gives the same ones in every run.
struct Numbers(u64);

impl Numbers {
    fn below(&mut self, n: usize) -> usize {
        self.0 = self.0.wrapping_mul(6364136223846793005).wrapping_add(1442695040888963407);
        ((self.0 >> 33) % (n as u64)) as usize
    }
}

#[test]
fn test_traverse_ancestors() {
    let mut tenant = active_tenant();
    create_test_timeline(&mut tenant, TIMELINE_ID, Lsn(0x10));
    let mut tline = TIMELINE_ID;

    const NUM_KEYS: usize = 100;
    const NUM_TLINES: usize = 50;

    let test_key = |blknum: usize| Key(0x2222333300000000 + blknum as u64);
    // Track page mutation lsns across different timelines.
    let mut updated = [[0u64; NUM_KEYS]; NUM_TLINES];
    let mut numbers = Numbers(1);

    let mut lsn: u64 = 0x10;

    for idx in 0..NUM_TLINES {
        let new_tline_id = TimelineId(0x1000 + idx as u128);
        branch_timeline_test(&mut tenant, tline, new_tline_id, Some(Lsn(lsn))).unwrap();
        tenant.get_timeline(new_tline_id, true).expect("Should have the branched timeline");
        tline = new_tline_id;

        for _ in 0..NUM_KEYS {
            lsn += 0x10;
            let blknum = numbers.below(NUM_KEYS);
            put(&mut tenant, tline, test_key(blknum), lsn, &format!("{} {} at {:#x}", idx, blknum, lsn));
            updated[idx][blknum] = lsn;
        }
    }

    // Read pages from leaf timeline across all ancestors.
    for (idx, lsns) in updated.iter().enumerate() {
        for (blknum, lsn) in lsns.iter().enumerate() {
            // Skip empty mutations.
            if *lsn == 0 {
                continue;
            }
            assert_eq!(
                get(&tenant, tline, test_key(blknum), *lsn),
                format!("{idx} {blknum} at {:#x}", lsn)
            );
        }
    }
}

#[test]
fn test_bulk_insert() {
    let mut tenant = active_tenant();
    create_test_timeline(&mut tenant, TIMELINE_ID, Lsn(0x08));
    let at = tenant.find(TIMELINE_ID).unwrap();

    let mut lsn: u64 = 0x10;
    let mut blknum: u64 = 0;
    for _ in 0..50 {
        for _ in 0..10000 {
            let key = Key(0x2222333300000000 + blknum);
            let value = test_value(&format!("{} at {:#x}", blknum, lsn));
            // a full layer is flushed, and the record begins a new one
            if let Err((_, e)) = tenant.timelines[at].put(key, Lsn(lsn), value) {
                panic!("put failed: {e:?}");
            }
            lsn += 0x10;
            blknum += 1;
        }

        let cutoff = tenant.timelines[at].get_last_record_lsn();
        assert_eq!(cutoff, Lsn(lsn - 0x10));
        tenant.timelines[at].update_gc_info(Vec::new(), cutoff, Lsn(0));
        tenant.timelines[at].freeze_and_flush();
        assert_eq!(tenant.compaction_iteration().unwrap(), vec![TIMELINE_ID]);
        tenant.timelines[at].gc();
        // the layer that holds the cutoff stays
        let key = Key(0x2222333300000000 + blknum - 1);
        assert_eq!(get(&tenant, TIMELINE_ID, key, lsn), format!("{} at {:#x}", blknum - 1, lsn - 0x10));
    }
}

#[test]
fn test_retain_data_in_parent_which_is_needed_for_child() {
    let mut tenant = active_tenant();
    create_test_timeline(&mut tenant, TIMELINE_ID, Lsn(0x10));
    make_some_layers(&mut tenant, TIMELINE_ID, 0x20);

    branch_timeline_test(&mut tenant, TIMELINE_ID, NEW_TIMELINE_ID, Some(Lsn(0x40))).unwrap();
    tenant.get_timeline(NEW_TIMELINE_ID, true).expect("Should have a local timeline");
    tenant.gc_iteration(Some(TIMELINE_ID), 0x10, None).unwrap();
    // The cutoff of the parent is the branch point, and the layer that
    // ended before it is gone: a read below the cutoff is no error, but it
    // finds nothing.
    let below = tenant.get(NEW_TIMELINE_ID, TEST_KEY, Lsn(0x25));
    assert!(below.is_ok());
    match below {
        Ok(PageVersion::Missing(state)) => {
            assert!(state.records.is_empty());
            assert!(state.img.is_none());
        },
        other => panic!("unexpected {other:?}"),
    }
    // what lies at the branch point is still there
    assert_eq!(get(&tenant, NEW_TIMELINE_ID, TEST_KEY, 0x40), "foo at 0x40");
}
