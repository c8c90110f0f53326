//! One persistent layer and where its file is: resident on local disk,
//! wanted evicted, or evicted; with download on demand and deletion of the
//! garbage-collected layer when its handle goes.
//!
//! Nothing here touches a file or the remote storage. Each step that needs
//! one is answered with what has to be done, and the outcome is handed to
//! the next step.

use crate::access_stats::AccessStatsBehavior;
use crate::access_stats::LayerAccessKind;
use crate::access_stats::LayerAccessStats;
use crate::access_stats::LayerAccessStatsModel;
use crate::access_stats::LayerAccessStatsReset;
use crate::access_stats::TaskKind;
use crate::layer_desc::LayerFileName;
use crate::layer_desc::PersistentLayerDesc;
use crate::lsn::Lsn;
use vstd::prelude::*;

verus! {

/// How far the data for a page has been collected.
#[derive(Clone, Copy, Debug, PartialEq, Eq, Structural)]
pub enum ValueReconstructResult {
    /// All the data needed to reconstruct the page has been collected.
    Complete,
    /// The layers visited did not hold all the data: the search goes on in
    /// the layers before them.
    Continue,
    /// The data needed is nowhere.
    Missing,
}

/// The data collected for a page: the WAL records to apply, newest first,
/// and the image to apply them to.
#[derive(Debug)]
pub struct ValueReconstructState {
    pub records: Vec<(Lsn, Vec<u8>)>,
    pub img: Option<(Lsn, Vec<u8>)>,
}

/// Why the local file of a layer cannot be used as it is.
#[derive(Clone, Copy, Debug, PartialEq, Eq, Structural)]
pub enum NeedsDownload {
    NotFound,
    NotFile,
    WrongSize { actual: u64, expected: u64 },
}

impl NeedsDownload {
    pub fn is_not_found(&self) -> (r: bool)
        ensures
            r == (*self == NeedsDownload::NotFound),
    {
        match self {
            NeedsDownload::NotFound => true,
            _ => false,
        }
    }

    /// The size found, where the size is what is wrong.
    pub fn actual_size(&self) -> (r: Option<u64>)
        ensures
            r == match *self {
                NeedsDownload::WrongSize { actual, .. } => Some(actual),
                _ => None::<u64>,
            },
    {
        match self {
            NeedsDownload::WrongSize { actual, .. } => Some(*actual),
            _ => None,
        }
    }
}

/// What was found at the local path of a layer.
#[derive(Clone, Copy, Debug, PartialEq, Eq, Structural)]
pub enum FileProbe {
    /// Nothing is at the path.
    NotFound,
    /// The path could not be examined.
    Failed,
    /// Something is at the path: whether it is a file, and its length.
    Found { is_file: bool, len: u64 },
}

/// What a caller allows when a layer has to be downloaded on demand.
#[derive(Clone, Copy, Debug, PartialEq, Eq, Structural)]
pub enum DownloadBehavior {
    Download,
    Warn,
    Error,
}

/// Where the file of a layer is.
#[derive(Clone, Copy, Debug, PartialEq, Eq, Structural)]
pub enum Residence {
    /// Not known to be on local disk.
    Empty,
    /// On local disk, and kept there.
    Resident,
    /// On local disk until the last user has gone.
    WantedEvicted,
}

/// How far a download on demand has come.
#[derive(Clone, Copy, Debug, PartialEq, Eq, Structural)]
pub enum DownloadStep {
    /// None is under way.
    Idle,
    /// The local file is being examined. If it cannot be used, it may be
    /// fetched only where `may_download` says so.
    CheckingFile { may_download: bool },
    /// The file is being fetched from remote storage.
    Downloading,
    /// The fetched file is being examined.
    Rechecking,
}

/// What has to happen next for a layer to become resident.
#[derive(Clone, Copy, Debug, PartialEq, Eq, Structural)]
pub enum AccessNext {
    /// The layer is resident; the caller holds a guard on it.
    Ready,
    /// Examine the local file and report with `file_checked`.
    CheckFile,
    /// Fetch the file, which has `expected_size` bytes, and report with
    /// `download_finished`.
    Download { expected_size: u64 },
}

/// Why a layer did not become resident.
#[derive(Clone, Copy, Debug, PartialEq, Eq, Structural)]
pub enum AccessError {
    /// The local file cannot be used, and the caller does not allow a
    /// download.
    RefusedByContext,
    /// The timeline of the layer is gone.
    TimelineGone,
    /// The local file could not be examined.
    CheckFailed,
    /// The file is needed from remote storage, but there is no remote client.
    NoRemoteClient(NeedsDownload),
    /// The download failed, possibly for shutdown.
    DownloadFailed,
    /// The file is still not usable after the download.
    StillNeedsDownload(NeedsDownload),
    /// The layer is not resident and no download was allowed.
    NotDownloaded,
}

/// Why a layer could not be evicted.
#[derive(Clone, Copy, Debug, PartialEq, Eq, Structural)]
pub enum EvictionError {
    /// The layer is evicted already.
    FileNotFound,
}

/// The right to remove the local file of a layer later, valid as long as the
/// layer has not been asked for again.
#[derive(Clone, Copy, Debug, PartialEq, Eq, Structural)]
pub struct EvictionTicket {
    pub version: usize,
}

/// What an eviction request came to.
#[derive(Clone, Copy, Debug, PartialEq, Eq, Structural)]
pub struct Evicting {
    /// Nobody uses the layer any more: the file goes as soon as the ticket is
    /// run.
    pub right_away: bool,
    /// To be run in the background, if present.
    pub ticket: Option<EvictionTicket>,
}

/// What running an eviction ticket asks for.
#[derive(Clone, Copy, Debug, PartialEq, Eq, Structural)]
pub enum EvictionAction {
    Nothing,
    /// Note when the local file was last modified, then remove it.
    RemoveFile,
}

/// What the end of a layer handle asks for.
#[derive(Clone, Copy, Debug, PartialEq, Eq, Structural)]
pub enum DropAction {
    Nothing,
    /// Remove the local file and report with `local_file_removed`.
    RemoveLocalFile,
}

/// What is reported about a persistent layer.
#[derive(Debug)]
pub enum HistoricLayerInfo {
    Delta {
        layer_file_name: LayerFileName,
        layer_file_size: u64,
        lsn_start: Lsn,
        lsn_end: Lsn,
        /// The file would have to be fetched before the layer can be read.
        remote: bool,
        access_stats: LayerAccessStatsModel,
    },
    Image {
        layer_file_name: LayerFileName,
        layer_file_size: u64,
        lsn_start: Lsn,
        remote: bool,
        access_stats: LayerAccessStatsModel,
    },
}

/// What the file of a layer has to say of itself to be the file of that
/// layer.
#[derive(Debug)]
pub enum LayerSummary {
    Delta {
        tenant_id: crate::id::TenantId,
        timeline_id: crate::id::TimelineId,
        key_range: std::ops::Range<crate::lsn::Key>,
        lsn_range: std::ops::Range<Lsn>,
    },
    Image {
        tenant_id: crate::id::TenantId,
        timeline_id: crate::id::TimelineId,
        key_range: std::ops::Range<crate::lsn::Key>,
        lsn: Lsn,
    },
}

/// Keys can be listed for delta layers only.
#[derive(Clone, Copy, Debug, PartialEq, Eq, Structural)]
pub struct NotADeltaLayer;

/// Gives the description of a layer.
pub trait AsLayerDesc {
    /// The description of the layer.
    spec fn described(&self) -> PersistentLayerDesc;

    /// The description of the layer.
    fn layer_desc(&self) -> (d: &PersistentLayerDesc)
        ensures
            *d == self.described(),
    ;
}

/// The handle of one persistent layer.
pub struct LayerE {
    desc: PersistentLayerDesc,
    access_stats: LayerAccessStats,
    inner: Residence,
    step: DownloadStep,
    /// How many guards on the resident layer are held.
    guards: u64,
    wanted_garbage_collected: bool,
    wanted_evicted: bool,
    /// Counts the downloads on demand, so that an eviction ticket from
    /// before the last one is void.
    version: usize,
    have_remote_client: bool,
    treat_error_as_warn: bool,
}

/// What the file found says about the need for a download: a file of the
/// expected size is fine.
pub open spec fn probe_result(probe: FileProbe, expected: u64) -> Result<Option<NeedsDownload>,
    ()> {
    match probe {
        FileProbe::NotFound => Ok(Some(NeedsDownload::NotFound)),
        FileProbe::Failed => Err(()),
        FileProbe::Found { is_file, len } => if !is_file {
            Ok(Some(NeedsDownload::NotFile))
        } else if len != expected {
            Ok(Some(NeedsDownload::WrongSize { actual: len, expected }))
        } else {
            Ok(None)
        },
    }
}

/// The version of a handle after the one `v`: the counter starts again
/// after its last value.
pub open spec fn next_version(v: usize) -> usize {
    if v == usize::MAX {
        0
    } else {
        (v + 1) as usize
    }
}

impl LayerE {
    pub closed spec fn desc(&self) -> PersistentLayerDesc {
        self.desc
    }

    pub closed spec fn stats(&self) -> LayerAccessStats {
        self.access_stats
    }

    pub closed spec fn residence(&self) -> Residence {
        self.inner
    }

    pub closed spec fn step(&self) -> DownloadStep {
        self.step
    }

    pub closed spec fn guards(&self) -> u64 {
        self.guards
    }

    pub closed spec fn wanted_garbage_collected(&self) -> bool {
        self.wanted_garbage_collected
    }

    pub closed spec fn wanted_evicted(&self) -> bool {
        self.wanted_evicted
    }

    pub closed spec fn version(&self) -> usize {
        self.version
    }

    pub closed spec fn have_remote_client(&self) -> bool {
        self.have_remote_client
    }

    pub closed spec fn treat_error_as_warn(&self) -> bool {
        self.treat_error_as_warn
    }

    /// What holds of every handle: a layer that is not on local disk has no
    /// guards; a resident layer is not wanted evicted, and one in the state
    /// of that name is; and while a download is under way the layer is not
    /// on local disk.
    pub open spec fn wf(&self) -> bool {
        &&& self.residence() == Residence::Empty ==> self.guards() == 0
        &&& self.residence() == Residence::Resident ==> !self.wanted_evicted()
        &&& self.residence() == Residence::WantedEvicted ==> self.wanted_evicted()
        &&& self.step() != DownloadStep::Idle ==> self.residence() == Residence::Empty
    }

    /// Everything about the handle but where its file is.
    pub open spec fn same_settings(&self, other: &LayerE) -> bool {
        &&& self.desc() == other.desc()
        &&& self.stats() == other.stats()
        &&& self.have_remote_client() == other.have_remote_client()
        &&& self.treat_error_as_warn() == other.treat_error_as_warn()
        &&& self.wanted_garbage_collected() == other.wanted_garbage_collected()
    }

    /// Nothing about the handle differs.
    pub open spec fn unchanged(&self, other: &LayerE) -> bool {
        &&& self.same_settings(other)
        &&& self.residence() == other.residence()
        &&& self.step() == other.step()
        &&& self.guards() == other.guards()
        &&& self.wanted_evicted() == other.wanted_evicted()
        &&& self.version() == other.version()
    }

    /// The handle of a layer that is not known to be on local disk.
    pub fn new(
        desc: PersistentLayerDesc,
        have_remote_client: bool,
        treat_error_as_warn: bool,
        access_stats: LayerAccessStats,
    ) -> (l: LayerE)
        ensures
            l.wf(),
            l.desc() == desc,
            l.stats() == access_stats,
            l.residence() == Residence::Empty,
            l.step() == DownloadStep::Idle,
            l.guards() == 0,
            !l.wanted_garbage_collected(),
            !l.wanted_evicted(),
            l.version() == 0,
            l.have_remote_client() == have_remote_client,
            l.treat_error_as_warn() == treat_error_as_warn,
    {
        LayerE {
            desc,
            access_stats,
            inner: Residence::Empty,
            step: DownloadStep::Idle,
            guards: 0,
            wanted_garbage_collected: false,
            wanted_evicted: false,
            version: 0,
            have_remote_client,
            treat_error_as_warn,
        }
    }

    /// The handle of a layer whose file has just been written: it is
    /// resident, and the writer holds one guard.
    pub fn for_written(
        desc: PersistentLayerDesc,
        have_remote_client: bool,
        treat_error_as_warn: bool,
    ) -> (l: LayerE)
        ensures
            l.wf(),
            l.desc() == desc,
            l.stats().wf(),
            l.stats().for_scraping_api.is_empty(),
            l.stats().for_eviction_policy.is_empty(),
            l.residence() == Residence::Resident,
            l.step() == DownloadStep::Idle,
            l.guards() == 1,
            !l.wanted_garbage_collected(),
            !l.wanted_evicted(),
            l.version() == 0,
            l.have_remote_client() == have_remote_client,
            l.treat_error_as_warn() == treat_error_as_warn,
    {
        LayerE {
            desc,
            access_stats: LayerAccessStats::empty_will_record_residence_event_later(),
            inner: Residence::Resident,
            step: DownloadStep::Idle,
            guards: 1,
            wanted_garbage_collected: false,
            wanted_evicted: false,
            version: 0,
            have_remote_client,
            treat_error_as_warn,
        }
    }

    /// The description of the layer.
    pub fn desc_ref(&self) -> (d: &PersistentLayerDesc)
        ensures
            *d == self.desc(),
    {
        &self.desc
    }

    /// What the file of the layer has to say of itself when it is loaded.
    pub fn expected_summary(&self) -> (r: LayerSummary)
        ensures
            r == (if self.desc().is_delta {
                LayerSummary::Delta {
                    tenant_id: self.desc().tenant_id,
                    timeline_id: self.desc().timeline_id,
                    key_range: self.desc().key_range,
                    lsn_range: self.desc().lsn_range,
                }
            } else {
                LayerSummary::Image {
                    tenant_id: self.desc().tenant_id,
                    timeline_id: self.desc().timeline_id,
                    key_range: self.desc().key_range,
                    lsn: self.desc().lsn_range.start,
                }
            }),
    {
        if self.desc.is_delta {
            LayerSummary::Delta {
                tenant_id: self.desc.tenant_id,
                timeline_id: self.desc.timeline_id,
                key_range: self.desc.key_range.start..self.desc.key_range.end,
                lsn_range: self.desc.lsn_range.start..self.desc.lsn_range.end,
            }
        } else {
            LayerSummary::Image {
                tenant_id: self.desc.tenant_id,
                timeline_id: self.desc.timeline_id,
                key_range: self.desc.key_range.start..self.desc.key_range.end,
                lsn: self.desc.image_layer_lsn(),
            }
        }
    }

    /// Whether the keys of the layer can be listed: of a delta layer they
    /// can.
    pub fn load_keys(&self) -> (r: Result<(), NotADeltaLayer>)
        ensures
            r is Ok == self.desc().is_delta,
    {
        if self.desc.is_delta {
            Ok(())
        } else {
            Err(NotADeltaLayer)
        }
    }

    /// The statistics of the layer.
    pub fn access_stats(&self) -> (s: &LayerAccessStats)
        ensures
            *s == self.stats(),
    {
        &self.access_stats
    }

    /// Everything but the statistics is the same.
    pub open spec fn same_but_stats(&self, other: &LayerE) -> bool {
        &&& self.desc() == other.desc()
        &&& self.have_remote_client() == other.have_remote_client()
        &&& self.treat_error_as_warn() == other.treat_error_as_warn()
        &&& self.wanted_garbage_collected() == other.wanted_garbage_collected()
        &&& self.residence() == other.residence()
        &&& self.step() == other.step()
        &&& self.guards() == other.guards()
        &&& self.wanted_evicted() == other.wanted_evicted()
        &&& self.version() == other.version()
    }

    /// Records a read of the layer, unless the reader asks for it not to be
    /// counted.
    pub fn record_access(
        &mut self,
        access_kind: LayerAccessKind,
        behavior: AccessStatsBehavior,
        task_kind: TaskKind,
        now_millis: u64,
    )
        requires
            old(self).stats().wf(),
        ensures
            final(self).stats().wf(),
            final(self).same_but_stats(old(self)),
            behavior == AccessStatsBehavior::Skip ==> final(self).stats().for_scraping_api.same(
                &old(self).stats().for_scraping_api,
            ) && final(self).stats().for_eviction_policy.same(
                &old(self).stats().for_eviction_policy,
            ),
            behavior == AccessStatsBehavior::Update ==> old(self).stats().for_scraping_api.accessed(
                &final(self).stats().for_scraping_api,
                crate::access_stats::LayerAccessStatFullDetails {
                    when_millis: now_millis,
                    task_kind,
                    access_kind,
                },
            ) && old(self).stats().for_eviction_policy.accessed(
                &final(self).stats().for_eviction_policy,
                crate::access_stats::LayerAccessStatFullDetails {
                    when_millis: now_millis,
                    task_kind,
                    access_kind,
                },
            ),
    {
        self.access_stats.record_access(access_kind, behavior, task_kind, now_millis);
    }

    /// Reports on the layer, given what was found at its local path, and
    /// forgets of the statistics what `reset` names. A layer counts as
    /// remote where its file is not usable as it is; where the path could
    /// not be examined, it does not.
    pub fn info(&mut self, reset: LayerAccessStatsReset, probe: FileProbe) -> (r: HistoricLayerInfo)
        requires
            old(self).stats().wf(),
        ensures
            final(self).stats().wf(),
            final(self).same_but_stats(old(self)),
            final(self).stats().for_eviction_policy.same(&old(self).stats().for_eviction_policy),
            Self::is_info_of(*old(self), probe, r),
    {
        let layer_file_name = self.desc.filename();
        let remote = match self.needs_download(probe) {
            Ok(Some(_)) => true,
            _ => false,
        };
        let access_stats = self.access_stats.as_api_model(reset);
        if self.desc.is_delta {
            HistoricLayerInfo::Delta {
                layer_file_name,
                layer_file_size: self.desc.file_size,
                lsn_start: self.desc.lsn_range.start,
                lsn_end: self.desc.lsn_range.end,
                remote,
                access_stats,
            }
        } else {
            HistoricLayerInfo::Image {
                layer_file_name,
                layer_file_size: self.desc.file_size,
                lsn_start: self.desc.image_layer_lsn(),
                remote,
                access_stats,
            }
        }
    }

    /// `r` reports on `layer`, given what was found at its local path.
    pub open spec fn is_info_of(layer: LayerE, probe: FileProbe, r: HistoricLayerInfo) -> bool {
        match r {
            HistoricLayerInfo::Delta {
                layer_file_name,
                layer_file_size,
                lsn_start,
                lsn_end,
                remote,
                access_stats,
            } => {
                &&& layer.desc().is_delta
                &&& layer_file_name == layer.desc().filename_spec()
                &&& layer_file_size == layer.desc().file_size
                &&& lsn_start == layer.desc().lsn_range.start
                &&& lsn_end == layer.desc().lsn_range.end
                &&& remote == Self::is_remote(probe, layer.desc().file_size)
                &&& Self::reports(layer.stats(), access_stats)
            },
            HistoricLayerInfo::Image {
                layer_file_name,
                layer_file_size,
                lsn_start,
                remote,
                access_stats,
            } => {
                &&& !layer.desc().is_delta
                &&& layer_file_name == layer.desc().filename_spec()
                &&& layer_file_size == layer.desc().file_size
                &&& lsn_start == layer.desc().lsn_range.start
                &&& remote == Self::is_remote(probe, layer.desc().file_size)
                &&& Self::reports(layer.stats(), access_stats)
            },
        }
    }

    /// The file found is not usable as it is.
    pub open spec fn is_remote(probe: FileProbe, expected: u64) -> bool {
        probe_result(probe, expected) matches Ok(Some(_))
    }

    /// `model` reports the statistics `stats` that are kept for reading.
    pub open spec fn reports(stats: LayerAccessStats, model: LayerAccessStatsModel) -> bool {
        &&& model.access_count_by_access_kind == stats.for_scraping_api.count_by_access_kind
        &&& model.task_kind_access_flag@ == stats.for_scraping_api.task_kind_flag@
        &&& model.first == stats.for_scraping_api.first_access
        &&& model.accesses_history.buf@ == stats.for_scraping_api.last_accesses.buf@
        &&& model.accesses_history.drop_count == stats.for_scraping_api.last_accesses.drop_count
        &&& model.residence_events_history.buf@
            == stats.for_scraping_api.last_residence_changes.buf@
        &&& model.residence_events_history.drop_count
            == stats.for_scraping_api.last_residence_changes.drop_count
    }

    pub fn current_residence(&self) -> (r: Residence)
        ensures
            r == self.residence(),
    {
        self.inner
    }

    pub fn current_step(&self) -> (r: DownloadStep)
        ensures
            r == self.step(),
    {
        self.step
    }

    pub fn guard_count(&self) -> (r: u64)
        ensures
            r == self.guards(),
    {
        self.guards
    }

    pub fn current_version(&self) -> (r: usize)
        ensures
            r == self.version(),
    {
        self.version
    }

    pub fn is_wanted_evicted(&self) -> (r: bool)
        ensures
            r == self.wanted_evicted(),
    {
        self.wanted_evicted
    }

    pub fn is_wanted_garbage_collected(&self) -> (r: bool)
        ensures
            r == self.wanted_garbage_collected(),
    {
        self.wanted_garbage_collected
    }

    pub fn has_remote_client(&self) -> (r: bool)
        ensures
            r == self.have_remote_client(),
    {
        self.have_remote_client
    }

    /// The layer is on local disk and somebody holds it there: it is
    /// resident, or wanted evicted but still in use.
    pub open spec fn in_use(&self) -> bool {
        self.residence() == Residence::Resident || (self.residence() == Residence::WantedEvicted
            && self.guards() > 0)
    }

    /// The caller does not allow a download.
    pub open spec fn refuses(&self, ctx: Option<DownloadBehavior>) -> bool {
        ctx == Some(DownloadBehavior::Error) && !self.treat_error_as_warn()
    }

    /// What the file found says about the need for a download.
    pub fn is_file_present_and_good_size(&self, is_file: bool, len: u64) -> (r: Option<
        NeedsDownload,
    >)
        ensures
            Ok::<Option<NeedsDownload>, ()>(r) == probe_result(
                FileProbe::Found { is_file, len },
                self.desc().file_size,
            ),
    {
        if !is_file {
            Some(NeedsDownload::NotFile)
        } else if len != self.desc.file_size {
            Some(NeedsDownload::WrongSize { actual: len, expected: self.desc.file_size })
        } else {
            None
        }
    }

    /// Whether the layer has to be downloaded, given what was found at its
    /// local path.
    pub fn needs_download(&self, probe: FileProbe) -> (r: Result<Option<NeedsDownload>, ()>)
        ensures
            r == probe_result(probe, self.desc().file_size),
    {
        match probe {
            FileProbe::NotFound => Ok(Some(NeedsDownload::NotFound)),
            FileProbe::Failed => Err(()),
            FileProbe::Found { is_file, len } => Ok(self.is_file_present_and_good_size(is_file,
                len)),
        }
    }

    /// Hands out a guard if the layer is on local disk and in use there. A
    /// layer that was wanted evicted is resident again, and the wish is
    /// forgotten.
    pub fn get(&mut self) -> (r: bool)
        requires
            old(self).wf(),
            old(self).step() == DownloadStep::Idle,
            old(self).guards() < u64::MAX,
        ensures
            final(self).wf(),
            final(self).same_settings(old(self)),
            final(self).step() == DownloadStep::Idle,
            final(self).version() == old(self).version(),
            r == old(self).in_use(),
            r ==> final(self).residence() == Residence::Resident && final(self).guards()
                == old(self).guards() + 1 && !final(self).wanted_evicted(),
            !r ==> final(self).unchanged(old(self)),
    {
        match self.inner {
            Residence::Resident => {
                self.guards = self.guards + 1;
                true
            },
            Residence::WantedEvicted => {
                if self.guards > 0 {
                    self.inner = Residence::Resident;
                    self.wanted_evicted = false;
                    self.guards = self.guards + 1;
                    true
                } else {
                    false
                }
            },
            Residence::Empty => false,
        }
    }

    /// Asks for the layer to be resident.
    ///
    /// Every call makes the eviction tickets that were handed out before
    /// void. A layer in use is handed out at once. Otherwise the wish to
    /// evict is forgotten, and, if the timeline is still there, the local
    /// file has to be examined next, whatever the caller allows: only the
    /// download that the examination may ask for can be refused.
    pub fn get_or_download(&mut self, ctx: Option<DownloadBehavior>, timeline_alive: bool) -> (r:
        Result<AccessNext, AccessError>)
        requires
            old(self).wf(),
            old(self).step() == DownloadStep::Idle,
            old(self).guards() < u64::MAX,
        ensures
            final(self).wf(),
            final(self).same_settings(old(self)),
            r == Self::get_or_download_result(*old(self), timeline_alive),
            final(self).version() == next_version(old(self).version()),
            !final(self).wanted_evicted(),
            match r {
                Ok(AccessNext::Ready) => {
                    &&& final(self).residence() == Residence::Resident
                    &&& final(self).step() == DownloadStep::Idle
                    &&& final(self).guards() == old(self).guards() + 1
                },
                Ok(_) => {
                    &&& final(self).residence() == Residence::Empty
                    &&& final(self).guards() == 0
                    &&& final(self).step() == (DownloadStep::CheckingFile {
                        may_download: !old(self).refuses(ctx),
                    })
                },
                Err(_) => {
                    &&& final(self).residence() == Residence::Empty
                    &&& final(self).guards() == 0
                    &&& final(self).step() == DownloadStep::Idle
                },
            },
    {
        // No eviction that was scheduled before may remove the file any more.
        self.version = if self.version == usize::MAX {
            0
        } else {
            self.version + 1
        };
        if self.get() {
            return Ok(AccessNext::Ready);
        }
        self.wanted_evicted = false;
        self.inner = Residence::Empty;
        if !timeline_alive {
            return Err(AccessError::TimelineGone);
        }
        let may_download = match ctx {
            Some(DownloadBehavior::Error) => self.treat_error_as_warn,
            _ => true,
        };
        self.step = DownloadStep::CheckingFile { may_download };
        Ok(AccessNext::CheckFile)
    }

    /// What `get_or_download` answers.
    pub open spec fn get_or_download_result(layer: LayerE, timeline_alive: bool) -> Result<
        AccessNext,
        AccessError,
    > {
        if layer.in_use() {
            Ok(AccessNext::Ready)
        } else if !timeline_alive {
            Err(AccessError::TimelineGone)
        } else {
            Ok(AccessNext::CheckFile)
        }
    }

    /// Goes on with a download on demand after the local file was examined.
    ///
    /// A file of the expected size makes the layer resident, or wanted
    /// evicted if an eviction was asked for meanwhile; the caller holds the
    /// one guard. Before the download, any other file is fetched if the
    /// caller allows it and there is a remote client. After the download,
    /// any other file is an error. On every error the layer stays off the
    /// local disk.
    pub fn file_checked(&mut self, probe: FileProbe) -> (r: Result<AccessNext, AccessError>)
        requires
            old(self).wf(),
            old(self).step() is CheckingFile || old(self).step() == DownloadStep::Rechecking,
        ensures
            final(self).wf(),
            final(self).same_settings(old(self)),
            final(self).version() == old(self).version(),
            final(self).wanted_evicted() == old(self).wanted_evicted(),
            r == Self::file_checked_result(*old(self), probe),
            match r {
                Ok(AccessNext::Ready) => {
                    &&& final(self).residence() == (if old(self).wanted_evicted() {
                        Residence::WantedEvicted
                    } else {
                        Residence::Resident
                    })
                    &&& final(self).guards() == 1
                    &&& final(self).step() == DownloadStep::Idle
                },
                Ok(_) => {
                    &&& final(self).residence() == Residence::Empty
                    &&& final(self).guards() == 0
                    &&& final(self).step() == DownloadStep::Downloading
                },
                Err(_) => {
                    &&& final(self).residence() == Residence::Empty
                    &&& final(self).guards() == 0
                    &&& final(self).step() == DownloadStep::Idle
                },
            },
    {
        let (rechecking, may_download) = match self.step {
            DownloadStep::Rechecking => (true, true),
            DownloadStep::CheckingFile { may_download } => (false, may_download),
            _ => (false, true),
        };
        match self.needs_download(probe) {
            Err(_) => {
                self.step = DownloadStep::Idle;
                Err(AccessError::CheckFailed)
            },
            Ok(None) => {
                self.inner = if self.wanted_evicted {
                    Residence::WantedEvicted
                } else {
                    Residence::Resident
                };
                self.guards = 1;
                self.step = DownloadStep::Idle;
                Ok(AccessNext::Ready)
            },
            Ok(Some(reason)) => {
                if rechecking {
                    self.step = DownloadStep::Idle;
                    Err(AccessError::StillNeedsDownload(reason))
                } else if !may_download {
                    self.step = DownloadStep::Idle;
                    Err(AccessError::RefusedByContext)
                } else if !self.have_remote_client {
                    self.step = DownloadStep::Idle;
                    Err(AccessError::NoRemoteClient(reason))
                } else {
                    self.step = DownloadStep::Downloading;
                    Ok(AccessNext::Download { expected_size: self.desc.file_size })
                }
            },
        }
    }

    /// What `file_checked` answers.
    pub open spec fn file_checked_result(layer: LayerE, probe: FileProbe) -> Result<
        AccessNext,
        AccessError,
    > {
        match probe_result(probe, layer.desc().file_size) {
            Err(_) => Err(AccessError::CheckFailed),
            Ok(None) => Ok(AccessNext::Ready),
            Ok(Some(reason)) => if layer.step() == DownloadStep::Rechecking {
                Err(AccessError::StillNeedsDownload(reason))
            } else if layer.step() == (DownloadStep::CheckingFile { may_download: false }) {
                Err(AccessError::RefusedByContext)
            } else if !layer.have_remote_client() {
                Err(AccessError::NoRemoteClient(reason))
            } else {
                Ok(AccessNext::Download { expected_size: layer.desc().file_size })
            },
        }
    }

    /// Goes on with a download on demand after the download ended. After a
    /// download that succeeded the file has to be examined again; one that
    /// failed ends the attempt, and the layer stays off the local disk.
    pub fn download_finished(&mut self, succeeded: bool) -> (r: Result<AccessNext, AccessError>)
        requires
            old(self).wf(),
            old(self).step() == DownloadStep::Downloading,
        ensures
            final(self).wf(),
            final(self).same_settings(old(self)),
            final(self).version() == old(self).version(),
            final(self).wanted_evicted() == old(self).wanted_evicted(),
            final(self).residence() == Residence::Empty,
            final(self).guards() == 0,
            succeeded ==> r == Ok::<AccessNext, AccessError>(AccessNext::CheckFile)
                && final(self).step() == DownloadStep::Rechecking,
            !succeeded ==> r == Err::<AccessNext, AccessError>(AccessError::DownloadFailed)
                && final(self).step() == DownloadStep::Idle,
    {
        if succeeded {
            self.step = DownloadStep::Rechecking;
            Ok(AccessNext::CheckFile)
        } else {
            self.step = DownloadStep::Idle;
            Err(AccessError::DownloadFailed)
        }
    }

    /// Gives up a download on demand that is under way, as when the task that
    /// ran it was cancelled. The layer stays off the local disk, and can be
    /// asked for again.
    pub fn abandon_download(&mut self)
        requires
            old(self).wf(),
        ensures
            final(self).wf(),
            final(self).same_settings(old(self)),
            final(self).step() == DownloadStep::Idle,
            final(self).residence() == old(self).residence(),
            final(self).guards() == old(self).guards(),
            final(self).version() == old(self).version(),
            final(self).wanted_evicted() == old(self).wanted_evicted(),
    {
        self.step = DownloadStep::Idle;
    }

    /// Asks for a guard that keeps the layer on local disk. Without
    /// `allow_download` only a layer in use gives one.
    pub fn guard_against_eviction(&mut self, allow_download: bool, timeline_alive: bool) -> (r:
        Result<AccessNext, AccessError>)
        requires
            old(self).wf(),
            old(self).step() == DownloadStep::Idle,
            old(self).guards() < u64::MAX,
        ensures
            final(self).wf(),
            final(self).same_settings(old(self)),
            allow_download ==> r == Self::get_or_download_result(*old(self), timeline_alive),
            allow_download && r == Ok::<AccessNext, AccessError>(AccessNext::CheckFile)
                ==> final(self).step() == (DownloadStep::CheckingFile { may_download: true }),
            !allow_download ==> r == (if old(self).in_use() {
                Ok::<AccessNext, AccessError>(AccessNext::Ready)
            } else {
                Err::<AccessNext, AccessError>(AccessError::NotDownloaded)
            }),
            !allow_download && !old(self).in_use() ==> final(self).unchanged(old(self)),
            final(self).version() == (if allow_download {
                next_version(old(self).version())
            } else {
                old(self).version()
            }),
            r == Ok::<AccessNext, AccessError>(AccessNext::Ready) ==> final(self).residence()
                == Residence::Resident && final(self).guards() == old(self).guards() + 1,
    {
        if !allow_download {
            if self.get() {
                Ok(AccessNext::Ready)
            } else {
                Err(AccessError::NotDownloaded)
            }
        } else {
            self.get_or_download(None, timeline_alive)
        }
    }

    /// What the going of the last user asks for: nothing where the layer is
    /// to be garbage collected, which happens when the handle goes; else an
    /// eviction ticket where the layer is wanted evicted and can be fetched
    /// again.
    pub open spec fn on_drop_ticket(&self) -> Option<EvictionTicket> {
        if self.wanted_garbage_collected() {
            None
        } else if self.have_remote_client() && self.wanted_evicted() {
            Some(EvictionTicket { version: self.version() })
        } else {
            None
        }
    }

    fn on_drop(&self) -> (r: Option<EvictionTicket>)
        ensures
            r == self.on_drop_ticket(),
    {
        if self.wanted_garbage_collected {
            None
        } else if self.have_remote_client && self.wanted_evicted {
            Some(EvictionTicket { version: self.version })
        } else {
            None
        }
    }

    /// Asks for the file to leave the local disk as soon as nobody uses it,
    /// which needs a remote client to fetch it again.
    ///
    /// The wish is noted in any case. While a download is under way nothing
    /// else happens. A layer off the local disk gives `FileNotFound`. A
    /// layer on local disk becomes wanted evicted; if it has no guards, the
    /// file can go right away, and a resident one gives a ticket for that.
    pub fn evict(&mut self) -> (r: Result<Evicting, EvictionError>)
        requires
            old(self).wf(),
            old(self).have_remote_client(),
        ensures
            final(self).wf(),
            final(self).same_settings(old(self)),
            final(self).wanted_evicted(),
            final(self).step() == old(self).step(),
            final(self).guards() == old(self).guards(),
            final(self).version() == old(self).version(),
            final(self).residence() == (if old(self).residence() == Residence::Empty {
                Residence::Empty
            } else {
                Residence::WantedEvicted
            }),
            r == Self::evict_result(*old(self)),
    {
        self.wanted_evicted = true;
        match self.step {
            DownloadStep::Idle => {},
            _ => {
                return Ok(Evicting { right_away: false, ticket: None });
            },
        }
        match self.inner {
            Residence::Empty => Err(EvictionError::FileNotFound),
            Residence::Resident => {
                self.inner = Residence::WantedEvicted;
                let right_away = self.guards == 0;
                let ticket = if right_away {
                    self.on_drop()
                } else {
                    None
                };
                Ok(Evicting { right_away, ticket })
            },
            Residence::WantedEvicted => Ok(Evicting { right_away: self.guards == 0, ticket: None }),
        }
    }

    /// What `evict` answers.
    pub open spec fn evict_result(layer: LayerE) -> Result<Evicting, EvictionError> {
        if layer.step() != DownloadStep::Idle {
            Ok(Evicting { right_away: false, ticket: None })
        } else {
            match layer.residence() {
                Residence::Empty => Err(EvictionError::FileNotFound),
                Residence::Resident => Ok(
                    Evicting {
                        right_away: layer.guards() == 0,
                        ticket: if layer.guards() == 0 && !layer.wanted_garbage_collected() {
                            Some(EvictionTicket { version: layer.version() })
                        } else {
                            None
                        },
                    },
                ),
                Residence::WantedEvicted => Ok(
                    Evicting { right_away: layer.guards() == 0, ticket: None },
                ),
            }
        }
    }

    /// Gives a guard back. When the last guard of a layer that is wanted
    /// evicted goes, the answer is what the going of the last user asks for.
    pub fn release(&mut self) -> (r: Option<EvictionTicket>)
        requires
            old(self).wf(),
            old(self).guards() > 0,
        ensures
            final(self).wf(),
            final(self).same_settings(old(self)),
            final(self).residence() == old(self).residence(),
            final(self).step() == old(self).step(),
            final(self).wanted_evicted() == old(self).wanted_evicted(),
            final(self).version() == old(self).version(),
            final(self).guards() == old(self).guards() - 1,
            r == (if old(self).guards() == 1 && old(self).residence()
                == Residence::WantedEvicted {
                old(self).on_drop_ticket()
            } else {
                None
            }),
    {
        self.guards = self.guards - 1;
        if self.guards == 0 {
            match self.inner {
                Residence::WantedEvicted => self.on_drop(),
                _ => None,
            }
        } else {
            None
        }
    }

    /// Whether `ticket` may be run: no download is under way, and, if the
    /// ticket is still valid, the layer is neither resident nor in use.
    pub open spec fn can_run(&self, ticket: EvictionTicket) -> bool {
        &&& self.step() == DownloadStep::Idle
        &&& ticket.version == self.version() ==> self.residence() != Residence::Resident
            && self.guards() == 0
    }

    /// Whether `ticket` may be run.
    pub fn can_run_eviction(&self, ticket: EvictionTicket) -> (r: bool)
        ensures
            r == self.can_run(ticket),
    {
        let idle = match self.step {
            DownloadStep::Idle => true,
            _ => false,
        };
        let resident = match self.inner {
            Residence::Resident => true,
            _ => false,
        };
        idle && (ticket.version != self.version || (!resident && self.guards == 0))
    }

    /// Runs an eviction ticket. A ticket from before the last download on
    /// demand does nothing. Otherwise the layer is off the local disk from
    /// now on, and its file has to be removed if the layer is still wanted
    /// evicted.
    pub fn run_eviction(&mut self, ticket: EvictionTicket) -> (r: EvictionAction)
        requires
            old(self).wf(),
            old(self).can_run(ticket),
        ensures
            final(self).wf(),
            final(self).same_settings(old(self)),
            final(self).step() == DownloadStep::Idle,
            final(self).guards() == old(self).guards(),
            final(self).wanted_evicted() == old(self).wanted_evicted(),
            final(self).version() == old(self).version(),
            ticket.version != old(self).version() ==> r == EvictionAction::Nothing
                && final(self).residence() == old(self).residence(),
            ticket.version == old(self).version() ==> final(self).residence() == Residence::Empty
                && r == (if old(self).wanted_evicted() {
                EvictionAction::RemoveFile
            } else {
                EvictionAction::Nothing
            }),
    {
        if ticket.version != self.version {
            return EvictionAction::Nothing;
        }
        self.inner = Residence::Empty;
        if !self.wanted_evicted {
            return EvictionAction::Nothing;
        }
        EvictionAction::RemoveFile
    }

    /// Marks the layer as garbage: its local file is removed, and its removal
    /// from remote storage scheduled, when the handle goes.
    pub fn garbage_collect(&mut self)
        ensures
            final(self).wanted_garbage_collected(),
            final(self).desc() == old(self).desc(),
            final(self).stats() == old(self).stats(),
            final(self).have_remote_client() == old(self).have_remote_client(),
            final(self).treat_error_as_warn() == old(self).treat_error_as_warn(),
            final(self).residence() == old(self).residence(),
            final(self).step() == old(self).step(),
            final(self).guards() == old(self).guards(),
            final(self).wanted_evicted() == old(self).wanted_evicted(),
            final(self).version() == old(self).version(),
            old(self).wf() ==> final(self).wf(),
    {
        self.wanted_garbage_collected = true;
    }

    /// What the end of the handle asks for: the local file of a layer that
    /// is garbage is removed, and nothing else.
    pub open spec fn drop_action_of(&self) -> DropAction {
        if self.wanted_garbage_collected() {
            DropAction::RemoveLocalFile
        } else {
            DropAction::Nothing
        }
    }

    /// What the end of the handle asks for.
    pub fn drop_action(&self) -> (r: DropAction)
        ensures
            r == self.drop_action_of(),
    {
        if self.wanted_garbage_collected {
            DropAction::RemoveLocalFile
        } else {
            DropAction::Nothing
        }
    }

    /// What is left to do after the attempt to remove the local file of a
    /// layer that is garbage. Where the file was removed and the timeline is
    /// still there: the size to take off the count of resident bytes and,
    /// where the timeline has a remote client, the file name whose removal
    /// from remote storage is to be scheduled.
    pub open spec fn removal_follow_up(
        &self,
        removed: bool,
        timeline_alive: bool,
        timeline_has_remote_client: bool,
    ) -> Option<(u64, Option<LayerFileName>)> {
        if removed && timeline_alive {
            Some(
                (
                    self.desc().file_size,
                    if timeline_has_remote_client {
                        Some(self.desc().filename_spec())
                    } else {
                        None
                    },
                ),
            )
        } else {
            None
        }
    }

    /// Ends the handle of a layer that is garbage, after the attempt to
    /// remove its local file, and says what is left to do.
    pub fn local_file_removed(
        self,
        removed: bool,
        timeline_alive: bool,
        timeline_has_remote_client: bool,
    ) -> (r: Option<(u64, Option<LayerFileName>)>)
        requires
            self.wanted_garbage_collected(),
        ensures
            r == self.removal_follow_up(removed, timeline_alive, timeline_has_remote_client),
    {
        if removed && timeline_alive {
            let name = if timeline_has_remote_client {
                Some(self.desc.filename())
            } else {
                None
            };
            Some((self.desc.file_size, name))
        } else {
            None
        }
    }
}

impl AsLayerDesc for LayerE {
    closed spec fn described(&self) -> PersistentLayerDesc {
        self.desc
    }

    fn layer_desc(&self) -> (d: &PersistentLayerDesc) {
        &self.desc
    }
}

/// The description that a handle gives is its own.
pub proof fn lemma_layer_desc(layer: LayerE)
    ensures
        layer.described() == layer.desc(),
{
}

/// A download on demand ends with the layer on local disk only after a file
/// of exactly the expected size was found at its path.
pub proof fn lemma_resident_after_good_file(layer: LayerE, probe: FileProbe)
    ensures
        LayerE::file_checked_result(layer, probe) == Ok::<AccessNext, AccessError>(
            AccessNext::Ready,
        ) <==> probe == (FileProbe::Found { is_file: true, len: layer.desc().file_size }),
{
}

/// Where the caller does not allow a download, a local file that can be
/// used is taken all the same; one that cannot is refused, and no download
/// is asked for.
pub proof fn lemma_only_the_download_is_refused(layer: LayerE, probe: FileProbe)
    requires
        layer.step() == (DownloadStep::CheckingFile { may_download: false }),
    ensures
        LayerE::file_checked_result(layer, probe) == (match probe_result(
            probe,
            layer.desc().file_size,
        ) {
            Err(_) => Err::<AccessNext, AccessError>(AccessError::CheckFailed),
            Ok(None) => Ok::<AccessNext, AccessError>(AccessNext::Ready),
            Ok(Some(_)) => Err::<AccessNext, AccessError>(AccessError::RefusedByContext),
        }),
{
}

/// A layer that was marked as garbage asks for its local file to be removed
/// when its handle goes and, once the file is gone, for its removal from
/// remote storage to be scheduled under its own file name. No eviction gets
/// in the way: the going of its last user asks for nothing.
pub proof fn lemma_garbage_goes_with_the_handle(layer: LayerE)
    requires
        layer.wanted_garbage_collected(),
    ensures
        layer.drop_action_of() == DropAction::RemoveLocalFile,
        layer.removal_follow_up(true, true, true) == Some(
            (layer.desc().file_size, Some(layer.desc().filename_spec())),
        ),
        layer.on_drop_ticket() is None,
{
}

/// A ticket that `evict` or `release` hands out may be run as long as the
/// layer is not asked for again: the layer is then wanted evicted and
/// without guards.
pub proof fn lemma_fresh_ticket_can_run(layer: LayerE, ticket: EvictionTicket)
    requires
        layer.wf(),
        layer.step() == DownloadStep::Idle,
        layer.residence() == Residence::WantedEvicted,
        layer.guards() == 0,
        layer.on_drop_ticket() == Some(ticket),
    ensures
        layer.can_run(ticket),
        ticket.version == layer.version(),
{
}

} // verus!
