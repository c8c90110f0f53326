use layer_store::access_stats::AccessCounts;
use layer_store::access_stats::AccessStatsBehavior;
use layer_store::access_stats::HistoryBuffer;
use layer_store::access_stats::LayerAccessKind;
use layer_store::access_stats::LayerAccessStatFullDetails;
use layer_store::access_stats::LayerAccessStats;
use layer_store::access_stats::LayerAccessStatsReset;
use layer_store::access_stats::LayerResidenceEvent;
use layer_store::access_stats::LayerResidenceEventReason;
use layer_store::access_stats::LayerResidenceStatus;
use layer_store::access_stats::TaskKind;
use layer_store::access_stats::system_time_to_millis_since_epoch;
use layer_store::access_stats::HISTORY_LEN;
use layer_store::id::TenantId;
use layer_store::id::TimelineId;
use layer_store::layer_desc::make_desc;
use layer_store::layer_desc::DeltaFileName;
use layer_store::layer_desc::ImageFileName;
use layer_store::layer_desc::LayerFileName;
use layer_store::layer_desc::PersistentLayerDesc;
use layer_store::lsn::Key;
use layer_store::lsn::Lsn;
use layer_store::storage_layer::AccessError;
use layer_store::storage_layer::AccessNext;
use layer_store::storage_layer::AsLayerDesc;
use layer_store::storage_layer::DownloadBehavior;
use layer_store::storage_layer::DownloadStep;
use layer_store::storage_layer::DropAction;
use layer_store::storage_layer::Evicting;
use layer_store::storage_layer::EvictionAction;
use layer_store::storage_layer::EvictionError;
use layer_store::storage_layer::EvictionTicket;
use layer_store::storage_layer::FileProbe;
use layer_store::storage_layer::HistoricLayerInfo;
use layer_store::storage_layer::LayerE;
use layer_store::storage_layer::LayerSummary;
use layer_store::storage_layer::NeedsDownload;
use layer_store::storage_layer::Residence;

const N: u64 = 8192;

fn delta_desc() -> PersistentLayerDesc {
    PersistentLayerDesc::new_delta(
        TenantId(1),
        TimelineId(2),
        Key(0)..Key(100),
        Lsn(0x10)..Lsn(0x20),
        N,
    )
}

fn same_name(a: &LayerFileName, b: &LayerFileName) -> bool {
    match (a, b) {
        (LayerFileName::Delta(x), LayerFileName::Delta(y)) => {
            x.key_range == y.key_range && x.lsn_range == y.lsn_range
        },
        (LayerFileName::Image(x), LayerFileName::Image(y)) => {
            x.key_range == y.key_range && x.lsn == y.lsn
        },
        _ => false,
    }
}

fn remote_layer() -> LayerE {
    LayerE::new(delta_desc(), true, false, LayerAccessStats::empty_will_record_residence_event_later())
}

const GOOD_FILE: FileProbe = FileProbe::Found { is_file: true, len: N };

#[test]
fn evict_download_round_trip() {
    // a layer whose file has just been written
    let mut layer = LayerE::for_written(delta_desc(), true, false);
    assert_eq!(layer.current_residence(), Residence::Resident);
    assert_eq!(layer.guard_count(), 1);

    // eviction is asked for while the writer still holds the layer
    assert_eq!(layer.evict(), Ok(Evicting { right_away: false, ticket: None }));
    assert_eq!(layer.current_residence(), Residence::WantedEvicted);
    assert!(layer.is_wanted_evicted());
    // the last user goes: the file can be removed
    let ticket = layer.release().expect("an eviction is due");
    assert_eq!(ticket, EvictionTicket { version: 0 });
    assert!(layer.can_run_eviction(ticket));
    assert_eq!(layer.run_eviction(ticket), EvictionAction::RemoveFile);
    assert_eq!(layer.current_residence(), Residence::Empty);
    // evicted already
    assert_eq!(layer.evict(), Err(EvictionError::FileNotFound));

    // the next read brings the file back
    assert_eq!(layer.get_or_download(Some(DownloadBehavior::Download), true), Ok(AccessNext::CheckFile));
    assert_eq!(layer.current_step(), DownloadStep::CheckingFile { may_download: true });
    assert_eq!(layer.current_version(), 1);
    assert!(!layer.is_wanted_evicted());
    assert_eq!(
        layer.file_checked(FileProbe::NotFound),
        Ok(AccessNext::Download { expected_size: N })
    );
    assert_eq!(layer.current_step(), DownloadStep::Downloading);
    assert_eq!(layer.download_finished(true), Ok(AccessNext::CheckFile));
    assert_eq!(layer.current_step(), DownloadStep::Rechecking);
    // only a file of exactly the expected size will do
    assert_eq!(layer.file_checked(GOOD_FILE), Ok(AccessNext::Ready));
    assert_eq!(layer.current_residence(), Residence::Resident);
    assert_eq!(layer.current_step(), DownloadStep::Idle);
    assert_eq!(layer.guard_count(), 1);
    // the old ticket is void
    assert!(layer.can_run_eviction(ticket));
    assert_eq!(layer.run_eviction(ticket), EvictionAction::Nothing);
    assert_eq!(layer.current_residence(), Residence::Resident);
}

#[test]
fn download_failures_leave_the_layer_off_disk() {
    let mut layer = remote_layer();
    assert_eq!(layer.get_or_download(None, true), Ok(AccessNext::CheckFile));
    assert_eq!(layer.file_checked(FileProbe::Failed), Err(AccessError::CheckFailed));
    assert_eq!(layer.current_residence(), Residence::Empty);
    assert_eq!(layer.current_step(), DownloadStep::Idle);

    assert_eq!(layer.get_or_download(None, true), Ok(AccessNext::CheckFile));
    assert_eq!(
        layer.file_checked(FileProbe::Found { is_file: true, len: N - 1 }),
        Ok(AccessNext::Download { expected_size: N })
    );
    assert_eq!(layer.download_finished(false), Err(AccessError::DownloadFailed));
    assert_eq!(layer.current_residence(), Residence::Empty);
    assert_eq!(layer.current_step(), DownloadStep::Idle);

    assert_eq!(layer.get_or_download(None, true), Ok(AccessNext::CheckFile));
    assert!(layer.file_checked(FileProbe::NotFound).is_ok());
    assert!(layer.download_finished(true).is_ok());
    assert_eq!(
        layer.file_checked(FileProbe::Found { is_file: true, len: N + 1 }),
        Err(AccessError::StillNeedsDownload(NeedsDownload::WrongSize { actual: N + 1, expected: N }))
    );
    assert_eq!(layer.current_residence(), Residence::Empty);
    assert_eq!(layer.guard_count(), 0);
    assert_eq!(layer.current_version(), 3);

    assert_eq!(layer.get_or_download(None, false), Err(AccessError::TimelineGone));
    assert_eq!(layer.current_step(), DownloadStep::Idle);
    assert_eq!(layer.current_version(), 4);

    // without a remote client nothing can be fetched
    let mut local = LayerE::new(
        delta_desc(),
        false,
        false,
        LayerAccessStats::empty_will_record_residence_event_later(),
    );
    assert!(!local.has_remote_client());
    assert_eq!(local.get_or_download(None, true), Ok(AccessNext::CheckFile));
    assert_eq!(
        local.file_checked(FileProbe::Found { is_file: false, len: N }),
        Err(AccessError::NoRemoteClient(NeedsDownload::NotFile))
    );
    // but a file that is there is taken
    assert_eq!(local.get_or_download(None, true), Ok(AccessNext::CheckFile));
    assert_eq!(local.file_checked(GOOD_FILE), Ok(AccessNext::Ready));
    assert_eq!(local.current_residence(), Residence::Resident);
}

#[test]
fn download_policy() {
    // the file is looked at whatever the caller allows
    let mut layer = remote_layer();
    assert_eq!(layer.get_or_download(Some(DownloadBehavior::Error), true), Ok(AccessNext::CheckFile));
    assert_eq!(layer.current_step(), DownloadStep::CheckingFile { may_download: false });
    assert_eq!(layer.current_version(), 1);
    // a file that cannot be used is not fetched for this caller
    assert_eq!(layer.file_checked(FileProbe::NotFound), Err(AccessError::RefusedByContext));
    assert_eq!(layer.current_residence(), Residence::Empty);
    assert_eq!(layer.current_step(), DownloadStep::Idle);
    assert_eq!(layer.get_or_download(Some(DownloadBehavior::Error), true), Ok(AccessNext::CheckFile));
    assert_eq!(
        layer.file_checked(FileProbe::Found { is_file: true, len: N + 1 }),
        Err(AccessError::RefusedByContext)
    );
    // a file of the expected size is taken, and nothing is fetched
    assert_eq!(layer.get_or_download(Some(DownloadBehavior::Error), true), Ok(AccessNext::CheckFile));
    assert_eq!(layer.file_checked(GOOD_FILE), Ok(AccessNext::Ready));
    assert_eq!(layer.current_residence(), Residence::Resident);
    assert_eq!(layer.release(), None);

    let mut layer = remote_layer();
    assert_eq!(layer.get_or_download(Some(DownloadBehavior::Warn), true), Ok(AccessNext::CheckFile));
    assert_eq!(layer.current_step(), DownloadStep::CheckingFile { may_download: true });
    assert!(layer.file_checked(GOOD_FILE).is_ok());
    // a resident layer is handed out whatever the policy
    assert_eq!(layer.get_or_download(Some(DownloadBehavior::Error), true), Ok(AccessNext::Ready));
    assert_eq!(layer.guard_count(), 2);

    let mut lenient = LayerE::new(
        delta_desc(),
        true,
        true,
        LayerAccessStats::empty_will_record_residence_event_later(),
    );
    assert_eq!(
        lenient.get_or_download(Some(DownloadBehavior::Error), true),
        Ok(AccessNext::CheckFile)
    );
    assert_eq!(
        lenient.file_checked(FileProbe::NotFound),
        Ok(AccessNext::Download { expected_size: N })
    );

    let mut layer = remote_layer();
    assert_eq!(layer.guard_against_eviction(false, true), Err(AccessError::NotDownloaded));
    assert!(!layer.get());
    assert_eq!(layer.guard_against_eviction(true, true), Ok(AccessNext::CheckFile));
    assert!(layer.file_checked(GOOD_FILE).is_ok());
    assert_eq!(layer.guard_against_eviction(false, true), Ok(AccessNext::Ready));
    assert!(layer.get());
    assert_eq!(layer.guard_count(), 3);
}

#[test]
fn eviction_during_download_and_reentry() {
    let mut layer = remote_layer();
    assert_eq!(layer.get_or_download(None, true), Ok(AccessNext::CheckFile));
    // while the download is under way the wish is only noted
    assert_eq!(layer.evict(), Ok(Evicting { right_away: false, ticket: None }));
    assert!(layer.is_wanted_evicted());
    assert_eq!(layer.file_checked(GOOD_FILE), Ok(AccessNext::Ready));
    assert_eq!(layer.current_residence(), Residence::WantedEvicted);
    assert_eq!(layer.guard_count(), 1);
    // another reader comes while the first still holds the layer: it is
    // resident again and the wish is forgotten
    assert_eq!(layer.get_or_download(None, true), Ok(AccessNext::Ready));
    assert_eq!(layer.current_residence(), Residence::Resident);
    assert!(!layer.is_wanted_evicted());
    assert_eq!(layer.release(), None);
    assert_eq!(layer.release(), None);
    assert_eq!(layer.guard_count(), 0);
    // nobody holds the resident layer: eviction can go ahead right away
    assert_eq!(
        layer.evict(),
        Ok(Evicting { right_away: true, ticket: Some(EvictionTicket { version: 2 }) })
    );
    assert_eq!(layer.evict(), Ok(Evicting { right_away: true, ticket: None }));
    // a reader comes before the ticket is run: the ticket is void
    assert_eq!(layer.get_or_download(None, true), Ok(AccessNext::CheckFile));
    assert!(!layer.can_run_eviction(EvictionTicket { version: 2 }));
    assert_eq!(layer.file_checked(GOOD_FILE), Ok(AccessNext::Ready));
    assert_eq!(layer.run_eviction(EvictionTicket { version: 2 }), EvictionAction::Nothing);
    assert_eq!(layer.current_residence(), Residence::Resident);
    // a ticket of the current version may not be run while the layer is in use
    assert!(!layer.can_run_eviction(EvictionTicket { version: 3 }));
}

#[test]
fn garbage_collect_then_drop() {
    let mut layer = LayerE::for_written(delta_desc(), true, false);
    assert_eq!(layer.drop_action(), DropAction::Nothing);
    layer.garbage_collect();
    assert!(layer.is_wanted_garbage_collected());
    // a layer that is garbage is not evicted: it goes with its handle
    assert_eq!(layer.evict(), Ok(Evicting { right_away: false, ticket: None }));
    assert_eq!(layer.release(), None);
    assert_eq!(layer.drop_action(), DropAction::RemoveLocalFile);
    match layer.local_file_removed(true, true, true) {
        Some((size, Some(name))) => {
            assert_eq!(size, N);
            assert!(same_name(&name, &delta_desc().filename()));
        },
        other => panic!("unexpected {other:?}"),
    }

    let gone = |removed, alive, remote| {
        let mut layer = LayerE::for_written(delta_desc(), true, false);
        layer.garbage_collect();
        layer.local_file_removed(removed, alive, remote)
    };
    assert!(gone(false, true, true).is_none());
    assert!(gone(true, false, true).is_none());
    assert!(matches!(gone(true, true, false), Some((N, None))));
}

#[test]
fn needs_download_reasons() {
    let layer = remote_layer();
    assert_eq!(layer.needs_download(FileProbe::NotFound), Ok(Some(NeedsDownload::NotFound)));
    assert_eq!(layer.needs_download(FileProbe::Failed), Err(()));
    assert_eq!(layer.needs_download(GOOD_FILE), Ok(None));
    assert_eq!(layer.is_file_present_and_good_size(false, N), Some(NeedsDownload::NotFile));
    assert_eq!(
        layer.is_file_present_and_good_size(true, 1),
        Some(NeedsDownload::WrongSize { actual: 1, expected: N })
    );
    assert_eq!(layer.is_file_present_and_good_size(true, N), None);
    assert!(NeedsDownload::NotFound.is_not_found());
    assert!(!NeedsDownload::NotFile.is_not_found());
    assert_eq!(NeedsDownload::NotFound.actual_size(), None);
    assert_eq!(NeedsDownload::WrongSize { actual: 3, expected: 4 }.actual_size(), Some(3));
}

#[test]
fn descriptions_and_file_names() {
    let delta = LayerFileName::Delta(DeltaFileName {
        key_range: Key(1)..Key(9),
        lsn_range: Lsn(0x10)..Lsn(0x20),
    });
    let d = make_desc(TenantId(1), TimelineId(2), &delta, 33);
    assert!(d.is_delta && d.is_incremental);
    assert_eq!(d.file_size, 33);
    assert_eq!(d.lsn_range, Lsn(0x10)..Lsn(0x20));
    assert!(same_name(&d.filename(), &delta));
    assert!(same_name(&d.clone().filename(), &delta.clone()));

    let image = LayerFileName::Image(ImageFileName { key_range: Key(1)..Key(9), lsn: Lsn(0x30) });
    let i = make_desc(TenantId(1), TimelineId(2), &image, 44);
    assert!(!i.is_delta);
    assert_eq!(i.lsn_range, Lsn(0x30)..Lsn(0x31));
    assert_eq!(i.image_layer_lsn(), Lsn(0x30));
    assert!(same_name(&i.filename(), &image));
    assert!(!same_name(&i.filename(), &delta));
    let img = PersistentLayerDesc::new_img(TenantId(1), TimelineId(2), Key(0)..Key(5), Lsn(7), false, 1);
    assert!(!img.is_incremental);
    assert_eq!(img.lsn_range, Lsn(7)..Lsn(8));

    let layer = LayerE::new(i, true, false, LayerAccessStats::empty_will_record_residence_event_later());
    assert_eq!(layer.layer_desc().file_size, 44);
    assert_eq!(layer.desc_ref().tenant_id, TenantId(1));
    assert!(layer.load_keys().is_err());
    assert!(matches!(
        layer.expected_summary(),
        LayerSummary::Image { lsn: Lsn(0x30), timeline_id: TimelineId(2), .. }
    ));
    let layer = remote_layer();
    assert!(layer.load_keys().is_ok());
    assert!(matches!(layer.expected_summary(), LayerSummary::Delta { .. }));
}

#[test]
fn access_statistics() {
    let mut stats = LayerAccessStats::for_loading_layer(LayerResidenceStatus::Evicted, 1000);
    // without a read the last change of residence counts
    assert_eq!(stats.latest_activity(), Some(1000));
    stats.record_access(
        LayerAccessKind::KeyIter,
        AccessStatsBehavior::Skip,
        TaskKind::Compaction,
        1500,
    );
    assert_eq!(stats.latest_activity(), Some(1000));
    stats.record_access(
        LayerAccessKind::GetValueReconstructData,
        AccessStatsBehavior::Update,
        TaskKind::PageRequestHandler,
        2000,
    );
    stats.record_access(
        LayerAccessKind::GetValueReconstructData,
        AccessStatsBehavior::Update,
        TaskKind::Compaction,
        3000,
    );
    stats.record_access(
        LayerAccessKind::Dump,
        AccessStatsBehavior::Update,
        TaskKind::PageRequestHandler,
        4000,
    );
    assert_eq!(stats.latest_activity(), Some(4000));
    stats.record_residence_event(
        LayerResidenceStatus::Resident,
        LayerResidenceEventReason::ResidenceChange,
        5000,
    );
    assert_eq!(stats.latest_activity(), Some(4000));

    let model = stats.as_api_model(LayerAccessStatsReset::NoReset);
    assert_eq!(
        model.access_count_by_access_kind,
        AccessCounts { get_value_reconstruct_data: 2, iter: 0, key_iter: 0, dump: 1 }
    );
    assert_eq!(
        model.task_kind_access_flag,
        vec![TaskKind::PageRequestHandler, TaskKind::Compaction]
    );
    assert_eq!(
        model.first,
        Some(LayerAccessStatFullDetails {
            when_millis: 2000,
            task_kind: TaskKind::PageRequestHandler,
            access_kind: LayerAccessKind::GetValueReconstructData,
        })
    );
    assert_eq!(model.accesses_history.buf.len(), 3);
    assert_eq!(
        model.residence_events_history.buf,
        vec![
            LayerResidenceEvent {
                status: LayerResidenceStatus::Evicted,
                reason: LayerResidenceEventReason::LayerLoad,
                timestamp_millis: 1000,
            },
            LayerResidenceEvent {
                status: LayerResidenceStatus::Resident,
                reason: LayerResidenceEventReason::ResidenceChange,
                timestamp_millis: 5000,
            },
        ]
    );

    let model = stats.as_api_model(LayerAccessStatsReset::JustTaskKindFlags);
    assert_eq!(model.task_kind_access_flag.len(), 2);
    let model = stats.as_api_model(LayerAccessStatsReset::AllStats);
    assert!(model.task_kind_access_flag.is_empty());
    assert_eq!(model.access_count_by_access_kind.dump, 1);
    let model = stats.as_api_model(LayerAccessStatsReset::NoReset);
    assert_eq!(model.access_count_by_access_kind.dump, 0);
    assert_eq!(model.first, None);
    assert!(model.residence_events_history.buf.is_empty());
    // what eviction goes by is never reset
    assert_eq!(stats.latest_activity(), Some(4000));
    assert_eq!(stats.for_eviction_policy.count_by_access_kind.dump, 1);

    let clone = stats.clone_for_residence_change(LayerResidenceStatus::Evicted, 6000);
    assert_eq!(clone.for_eviction_policy.last_residence_changes.buf.len(), 3);
    assert_eq!(stats.for_eviction_policy.last_residence_changes.buf.len(), 2);
    assert_eq!(clone.latest_activity(), Some(4000));
    assert_eq!(LayerAccessStats::empty_will_record_residence_event_later().latest_activity(), None);
}

#[test]
fn history_keeps_the_last_sixteen() {
    let mut h: HistoryBuffer<u32> = HistoryBuffer::new();
    assert_eq!(h.recent(), None);
    for i in 0..20u32 {
        h.write(i);
    }
    assert_eq!(h.buf.len(), HISTORY_LEN);
    assert_eq!(h.buf[0], 4);
    assert_eq!(h.recent(), Some(19));
    assert_eq!(h.drop_count, 4);
    let c = h.copy();
    assert_eq!(c.buf, h.buf);
    assert_eq!(c.drop_count, 4);
}

#[test]
fn reset_names_and_times() {
    assert_eq!(LayerAccessStatsReset::from_name("NoReset"), Some(LayerAccessStatsReset::NoReset));
    assert_eq!(
        LayerAccessStatsReset::from_name("JustTaskKindFlags"),
        Some(LayerAccessStatsReset::JustTaskKindFlags)
    );
    assert_eq!(LayerAccessStatsReset::from_name("AllStats"), Some(LayerAccessStatsReset::AllStats));
    assert_eq!(LayerAccessStatsReset::from_name("allstats"), None);
    assert_eq!(LayerAccessStatsReset::from_name("AllStats "), None);
    assert_eq!(LayerAccessStatsReset::from_name(""), None);

    assert_eq!(system_time_to_millis_since_epoch(0, 0), Some(0));
    assert_eq!(system_time_to_millis_since_epoch(1, 999_999), Some(1000));
    assert_eq!(system_time_to_millis_since_epoch(1_700_000_000, 123_456_789), Some(1_700_000_000_123));
    assert_eq!(system_time_to_millis_since_epoch(u64::MAX / 1000, 0), Some(u64::MAX / 1000 * 1000));
    assert_eq!(system_time_to_millis_since_epoch(u64::MAX / 1000 + 1, 0), None);
}

#[test]
fn layer_info() {
    let mut layer = remote_layer();
    layer.record_access(
        LayerAccessKind::Iter,
        AccessStatsBehavior::Update,
        TaskKind::GarbageCollector,
        10,
    );
    assert_eq!(layer.access_stats().latest_activity(), Some(10));
    match layer.info(LayerAccessStatsReset::AllStats, FileProbe::NotFound) {
        HistoricLayerInfo::Delta {
            layer_file_name,
            layer_file_size,
            lsn_start,
            lsn_end,
            remote,
            access_stats,
        } => {
            assert!(same_name(&layer_file_name, &delta_desc().filename()));
            assert_eq!(layer_file_size, N);
            assert_eq!((lsn_start, lsn_end), (Lsn(0x10), Lsn(0x20)));
            assert!(remote);
            assert_eq!(access_stats.access_count_by_access_kind.iter, 1);
        },
        other => panic!("unexpected {other:?}"),
    }
    // the statistics for reading have been reset, the others have not
    assert_eq!(layer.access_stats().for_scraping_api.count_by_access_kind.iter, 0);
    assert_eq!(layer.access_stats().for_eviction_policy.count_by_access_kind.iter, 1);
    assert!(matches!(
        layer.info(LayerAccessStatsReset::NoReset, GOOD_FILE),
        HistoricLayerInfo::Delta { remote: false, .. }
    ));
    // a path that cannot be examined does not make the layer remote
    assert!(matches!(
        layer.info(LayerAccessStatsReset::NoReset, FileProbe::Failed),
        HistoricLayerInfo::Delta { remote: false, .. }
    ));
    let image = PersistentLayerDesc::new_img(TenantId(1), TimelineId(2), Key(0)..Key(5), Lsn(7), true, 9);
    let mut layer = LayerE::new(image, false, false, LayerAccessStats::empty_will_record_residence_event_later());
    assert!(matches!(
        layer.info(LayerAccessStatsReset::NoReset, FileProbe::Found { is_file: true, len: 8 }),
        HistoricLayerInfo::Image { remote: true, lsn_start: Lsn(7), layer_file_size: 9, .. }
    ));
}

#[test]
fn abandoned_download_can_be_tried_again() {
    let mut layer = remote_layer();
    assert_eq!(layer.get_or_download(None, true), Ok(AccessNext::CheckFile));
    assert!(layer.file_checked(FileProbe::NotFound).is_ok());
    assert_eq!(layer.current_step(), DownloadStep::Downloading);
    // the task that ran the download is gone
    layer.abandon_download();
    assert_eq!(layer.current_step(), DownloadStep::Idle);
    assert_eq!(layer.current_residence(), Residence::Empty);
    assert_eq!(layer.guard_count(), 0);
    assert_eq!(layer.get_or_download(None, true), Ok(AccessNext::CheckFile));
    assert_eq!(layer.file_checked(GOOD_FILE), Ok(AccessNext::Ready));
    assert_eq!(layer.current_residence(), Residence::Resident);
}

#[test]
fn layer_file_names_round_trip() {
    let delta = LayerFileName::Delta(DeltaFileName {
        key_range: Key(0)..Key(0x100),
        lsn_range: Lsn(0x10)..Lsn(0x20),
    });
    let name = delta.file_name();
    assert_eq!(
        String::from_utf8(name.clone()).unwrap(),
        "0000000000000000-0000000000000100__0000000000000010-0000000000000020"
    );
    assert!(same_name(&LayerFileName::parse(&name).unwrap(), &delta));

    let image = LayerFileName::Image(ImageFileName {
        key_range: Key(0)..Key(u64::MAX),
        lsn: Lsn(0x16B59D8),
    });
    let name = image.file_name();
    assert_eq!(
        String::from_utf8(name.clone()).unwrap(),
        "0000000000000000-FFFFFFFFFFFFFFFF__00000000016B59D8"
    );
    assert!(same_name(&LayerFileName::parse(&name).unwrap(), &image));
    assert!(!same_name(&LayerFileName::parse(&name).unwrap(), &delta));

    for bad in [
        "",
        "0000000000000000-ffffffffffffffff__00000000016B59D8",
        "0000000000000000_FFFFFFFFFFFFFFFF__00000000016B59D8",
        "0000000000000000-FFFFFFFFFFFFFFFF_-00000000016B59D8",
        "0000000000000000-FFFFFFFFFFFFFFFF__00000000016B59D",
        "0000000000000000-FFFFFFFFFFFFFFFF__00000000016B59D8-",
        "0000000000000000-0000000000000100__0000000000000010_0000000000000020",
        "0000000000000000-0000000000000100__0000000000000010-000000000000002G",
        "0000000000000000-0000000000000100__0000000000000010-00000000000000200",
    ] {
        assert!(LayerFileName::parse(bad.as_bytes()).is_none(), "{bad}");
    }
    // what is read is written the same way
    let text = "00000000000000AB-00000000000000CD__0000000000000001-0000000000000002";
    let parsed = LayerFileName::parse(text.as_bytes()).unwrap();
    assert_eq!(parsed.file_name(), text.as_bytes().to_vec());
    assert!(same_name(
        &parsed,
        &LayerFileName::Delta(DeltaFileName { key_range: Key(0xAB)..Key(0xCD), lsn_range: Lsn(1)..Lsn(2) })
    ));
}
