//! What is remembered about the use of a layer: how often and by whom it
//! was read, and when it came to or left the local disk.
//!
//! Times are milliseconds since the Unix epoch, given by the caller.

use vstd::prelude::*;
use vstd::string::StringSliceAdditionalSpecFns;

verus! {

/// How many entries a history keeps.
pub const HISTORY_LEN: usize = 16;

/// How a layer was read.
#[derive(Clone, Copy, Debug, PartialEq, Eq, Structural)]
pub enum LayerAccessKind {
    GetValueReconstructData,
    Iter,
    KeyIter,
    Dump,
}

/// The kind of task that read a layer.
#[derive(Clone, Copy, Debug, PartialEq, Eq, Structural)]
pub enum TaskKind {
    PageRequestHandler,
    MgmtRequest,
    WalReceiverManager,
    GarbageCollector,
    Compaction,
    Eviction,
    InitialLoad,
    Attach,
    CreateTimeline,
    RemoteDownloadTask,
    TimelineDeletionWorker,
    UnitTest,
}

/// Whether a read is to be counted.
#[derive(Clone, Copy, Debug, PartialEq, Eq, Structural)]
pub enum AccessStatsBehavior {
    Update,
    Skip,
}

/// Whether the file of a layer is on local disk.
#[derive(Clone, Copy, Debug, PartialEq, Eq, Structural)]
pub enum LayerResidenceStatus {
    Resident,
    Evicted,
}

/// Why the residence of a layer was noted.
#[derive(Clone, Copy, Debug, PartialEq, Eq, Structural)]
pub enum LayerResidenceEventReason {
    LayerLoad,
    LayerCreate,
    ResidenceChange,
}

/// A change of residence, and when it was noted.
#[derive(Clone, Copy, Debug, PartialEq, Eq, Structural)]
pub struct LayerResidenceEvent {
    pub status: LayerResidenceStatus,
    pub reason: LayerResidenceEventReason,
    pub timestamp_millis: u64,
}

/// One read of a layer.
#[derive(Clone, Copy, Debug, PartialEq, Eq, Structural)]
pub struct LayerAccessStatFullDetails {
    pub when_millis: u64,
    pub task_kind: TaskKind,
    pub access_kind: LayerAccessKind,
}

/// What is to be forgotten when the statistics are read.
#[derive(Clone, Copy, Debug, PartialEq, Eq, Structural)]
pub enum LayerAccessStatsReset {
    NoReset,
    JustTaskKindFlags,
    AllStats,
}

/// The bytes of `NoReset`.
pub open spec fn no_reset_name() -> Seq<u8> {
    seq![78u8, 111u8, 82u8, 101u8, 115u8, 101u8, 116u8]
}

/// The bytes of `JustTaskKindFlags`.
pub open spec fn just_task_kind_flags_name() -> Seq<u8> {
    seq![
        74u8,
        117u8,
        115u8,
        116u8,
        84u8,
        97u8,
        115u8,
        107u8,
        75u8,
        105u8,
        110u8,
        100u8,
        70u8,
        108u8,
        97u8,
        103u8,
        115u8,
    ]
}

/// The bytes of `AllStats`.
pub open spec fn all_stats_name() -> Seq<u8> {
    seq![65u8, 108u8, 108u8, 83u8, 116u8, 97u8, 116u8, 115u8]
}

/// Whether the bytes `a` and `b` are the same.
fn same_bytes(a: &[u8], b: &[u8]) -> (r: bool)
    ensures
        r == (a@ == b@),
{
    if a.len() != b.len() {
        return false;
    }
    let mut i: usize = 0;
    while i < a.len()
        invariant
            0 <= i <= a@.len(),
            a@.len() == b@.len(),
            forall|k: int| 0 <= k < i ==> a@[k] == b@[k],
        decreases a@.len() - i,
    {
        if a[i] != b[i] {
            return false;
        }
        i += 1;
    }
    proof {
        assert(a@ =~= b@);
    }
    true
}

impl LayerAccessStatsReset {
    /// The choice that `name` spells: the name of a variant, letter for
    /// letter.
    pub open spec fn named(name: Seq<u8>) -> Option<LayerAccessStatsReset> {
        if name == no_reset_name() {
            Some(LayerAccessStatsReset::NoReset)
        } else if name == just_task_kind_flags_name() {
            Some(LayerAccessStatsReset::JustTaskKindFlags)
        } else if name == all_stats_name() {
            Some(LayerAccessStatsReset::AllStats)
        } else {
            None
        }
    }

    /// Reads the choice from the name of a variant.
    pub fn from_name(name: &str) -> (r: Option<LayerAccessStatsReset>)
        ensures
            r == Self::named(name.spec_bytes()),
    {
        let bytes = name.as_bytes();
        let no_reset: [u8; 7] = [78, 111, 82, 101, 115, 101, 116];
        let flags: [u8; 17] = [
            74,
            117,
            115,
            116,
            84,
            97,
            115,
            107,
            75,
            105,
            110,
            100,
            70,
            108,
            97,
            103,
            115,
        ];
        let all: [u8; 8] = [65, 108, 108, 83, 116, 97, 116, 115];
        proof {
            assert(no_reset@ =~= no_reset_name());
            assert(flags@ =~= just_task_kind_flags_name());
            assert(all@ =~= all_stats_name());
        }
        if same_bytes(bytes, no_reset.as_slice()) {
            Some(LayerAccessStatsReset::NoReset)
        } else if same_bytes(bytes, flags.as_slice()) {
            Some(LayerAccessStatsReset::JustTaskKindFlags)
        } else if same_bytes(bytes, all.as_slice()) {
            Some(LayerAccessStatsReset::AllStats)
        } else {
            None
        }
    }
}

/// The milliseconds in a span of `secs` seconds and `subsec_nanos`
/// nanoseconds.
pub open spec fn millis_of(secs: u64, subsec_nanos: u32) -> int {
    secs * 1000 + subsec_nanos / 1_000_000
}

/// The time in milliseconds since the epoch, for a time that lies `secs`
/// seconds and `subsec_nanos` nanoseconds after it; `None` where the number
/// does not fit.
pub fn system_time_to_millis_since_epoch(secs: u64, subsec_nanos: u32) -> (r: Option<u64>)
    ensures
        r == (if millis_of(secs, subsec_nanos) <= u64::MAX {
            Some(millis_of(secs, subsec_nanos) as u64)
        } else {
            None
        }),
{
    let millis: u128 = (secs as u128) * 1000 + (subsec_nanos / 1_000_000) as u128;
    if millis <= u64::MAX as u128 {
        Some(millis as u64)
    } else {
        None
    }
}

/// The last entries written, up to sixteen, and how many older ones were
/// dropped.
#[derive(Debug)]
pub struct HistoryBuffer<T> {
    /// The entries, the oldest first.
    pub buf: Vec<T>,
    pub drop_count: u64,
}

/// `c + 1`, unless `c` is the largest number.
pub open spec fn bump(c: u64) -> u64 {
    if c < u64::MAX {
        (c + 1) as u64
    } else {
        c
    }
}

fn bumped(c: u64) -> (r: u64)
    ensures
        r == bump(c),
{
    if c < u64::MAX {
        c + 1
    } else {
        c
    }
}

impl<T: Copy> HistoryBuffer<T> {
    pub open spec fn wf(&self) -> bool {
        self.buf@.len() <= HISTORY_LEN
    }

    pub fn new() -> (h: HistoryBuffer<T>)
        ensures
            h.wf(),
            h.buf@ == Seq::<T>::empty(),
            h.drop_count == 0,
    {
        HistoryBuffer { buf: Vec::new(), drop_count: 0 }
    }

    /// What the history holds after `entry` has been written to one that
    /// held `before`: a full history loses its oldest entry.
    pub open spec fn written(before: Seq<T>, entry: T) -> Seq<T> {
        if before.len() >= HISTORY_LEN {
            before.drop_first().push(entry)
        } else {
            before.push(entry)
        }
    }

    /// Writes an entry. A full history drops its oldest entry for it and
    /// counts the drop.
    pub fn write(&mut self, entry: T)
        requires
            old(self).wf(),
        ensures
            final(self).wf(),
            final(self).buf@ == Self::written(old(self).buf@, entry),
            final(self).drop_count == (if old(self).buf@.len() >= HISTORY_LEN {
                bump(old(self).drop_count)
            } else {
                old(self).drop_count
            }),
    {
        if self.buf.len() >= HISTORY_LEN {
            self.buf.remove(0);
            self.drop_count = bumped(self.drop_count);
            proof {
                assert(self.buf@ =~= old(self).buf@.drop_first());
            }
        }
        self.buf.push(entry);
    }

    /// The entry written last.
    pub fn recent(&self) -> (r: Option<T>)
        ensures
            r == (if self.buf@.len() > 0 {
                Some(self.buf@.last())
            } else {
                None
            }),
    {
        let n = self.buf.len();
        if n == 0 {
            None
        } else {
            Some(self.buf[n - 1])
        }
    }

    /// A copy of the history.
    pub fn copy(&self) -> (h: HistoryBuffer<T>)
        ensures
            h.buf@ == self.buf@,
            h.drop_count == self.drop_count,
    {
        let mut buf: Vec<T> = Vec::new();
        let mut i: usize = 0;
        while i < self.buf.len()
            invariant
                0 <= i <= self.buf@.len(),
                buf@ == self.buf@.subrange(0, i as int),
            decreases self.buf@.len() - i,
        {
            buf.push(self.buf[i]);
            proof {
                assert(buf@ =~= self.buf@.subrange(0, i + 1));
            }
            i += 1;
        }
        proof {
            assert(buf@ =~= self.buf@);
        }
        HistoryBuffer { buf, drop_count: self.drop_count }
    }
}

/// How often a layer was read, by the way it was read.
#[derive(Clone, Copy, Debug, PartialEq, Eq, Structural)]
pub struct AccessCounts {
    pub get_value_reconstruct_data: u64,
    pub iter: u64,
    pub key_iter: u64,
    pub dump: u64,
}

impl AccessCounts {
    /// The counts after one more read of the kind `kind`. A count that has
    /// reached the largest number stays there.
    pub open spec fn counted(self, kind: LayerAccessKind) -> AccessCounts {
        match kind {
            LayerAccessKind::GetValueReconstructData => AccessCounts {
                get_value_reconstruct_data: bump(self.get_value_reconstruct_data),
                ..self
            },
            LayerAccessKind::Iter => AccessCounts { iter: bump(self.iter), ..self },
            LayerAccessKind::KeyIter => AccessCounts { key_iter: bump(self.key_iter), ..self },
            LayerAccessKind::Dump => AccessCounts { dump: bump(self.dump), ..self },
        }
    }

    fn count(self, kind: LayerAccessKind) -> (r: AccessCounts)
        ensures
            r == self.counted(kind),
    {
        match kind {
            LayerAccessKind::GetValueReconstructData => AccessCounts {
                get_value_reconstruct_data: bumped(self.get_value_reconstruct_data),
                ..self
            },
            LayerAccessKind::Iter => AccessCounts { iter: bumped(self.iter), ..self },
            LayerAccessKind::KeyIter => AccessCounts { key_iter: bumped(self.key_iter), ..self },
            LayerAccessKind::Dump => AccessCounts { dump: bumped(self.dump), ..self },
        }
    }
}

/// One set of statistics.
#[derive(Debug)]
pub struct LayerAccessStatsInner {
    pub first_access: Option<LayerAccessStatFullDetails>,
    pub count_by_access_kind: AccessCounts,
    /// The kinds of task that read the layer, in the order in which each
    /// came first.
    pub task_kind_flag: Vec<TaskKind>,
    pub last_accesses: HistoryBuffer<LayerAccessStatFullDetails>,
    pub last_residence_changes: HistoryBuffer<LayerResidenceEvent>,
}

/// The statistics as they are reported.
#[derive(Debug)]
pub struct LayerAccessStatsModel {
    pub access_count_by_access_kind: AccessCounts,
    pub task_kind_access_flag: Vec<TaskKind>,
    pub first: Option<LayerAccessStatFullDetails>,
    pub accesses_history: HistoryBuffer<LayerAccessStatFullDetails>,
    pub residence_events_history: HistoryBuffer<LayerResidenceEvent>,
}

/// No kind is in `kinds` twice.
pub open spec fn kinds_unique(kinds: Seq<TaskKind>) -> bool {
    forall|i: int, j: int| 0 <= i < j < kinds.len() ==> kinds[i] != kinds[j]
}

/// A copy of `kinds`.
fn copy_kinds(kinds: &Vec<TaskKind>) -> (r: Vec<TaskKind>)
    ensures
        r@ == kinds@,
{
    let mut out: Vec<TaskKind> = Vec::new();
    let mut i: usize = 0;
    while i < kinds.len()
        invariant
            0 <= i <= kinds@.len(),
            out@ == kinds@.subrange(0, i as int),
        decreases kinds@.len() - i,
    {
        out.push(kinds[i]);
        proof {
            assert(out@ =~= kinds@.subrange(0, i + 1));
        }
        i += 1;
    }
    proof {
        assert(out@ =~= kinds@);
    }
    out
}

/// Whether `kind` is among `kinds`.
fn has_kind(kinds: &Vec<TaskKind>, kind: TaskKind) -> (r: bool)
    ensures
        r == kinds@.contains(kind),
{
    let mut i: usize = 0;
    while i < kinds.len()
        invariant
            0 <= i <= kinds@.len(),
            forall|k: int| 0 <= k < i ==> kinds@[k] != kind,
        decreases kinds@.len() - i,
    {
        if kinds[i] == kind {
            return true;
        }
        i += 1;
    }
    false
}

impl LayerAccessStatsInner {
    pub open spec fn wf(&self) -> bool {
        &&& self.last_accesses.wf()
        &&& self.last_residence_changes.wf()
        &&& kinds_unique(self.task_kind_flag@)
    }

    /// Statistics of a layer that nothing is known about.
    pub open spec fn is_empty(&self) -> bool {
        &&& self.first_access is None
        &&& self.count_by_access_kind == AccessCounts {
            get_value_reconstruct_data: 0,
            iter: 0,
            key_iter: 0,
            dump: 0,
        }
        &&& self.task_kind_flag@ == Seq::<TaskKind>::empty()
        &&& self.last_accesses.buf@ == Seq::<LayerAccessStatFullDetails>::empty()
        &&& self.last_accesses.drop_count == 0
        &&& self.last_residence_changes.buf@ == Seq::<LayerResidenceEvent>::empty()
        &&& self.last_residence_changes.drop_count == 0
    }

    pub fn new() -> (s: LayerAccessStatsInner)
        ensures
            s.wf(),
            s.is_empty(),
    {
        LayerAccessStatsInner {
            first_access: None,
            count_by_access_kind: AccessCounts {
                get_value_reconstruct_data: 0,
                iter: 0,
                key_iter: 0,
                dump: 0,
            },
            task_kind_flag: Vec::new(),
            last_accesses: HistoryBuffer::new(),
            last_residence_changes: HistoryBuffer::new(),
        }
    }

    /// The same statistics.
    pub open spec fn same(&self, other: &LayerAccessStatsInner) -> bool {
        &&& self.first_access == other.first_access
        &&& self.count_by_access_kind == other.count_by_access_kind
        &&& self.task_kind_flag@ == other.task_kind_flag@
        &&& self.last_accesses.buf@ == other.last_accesses.buf@
        &&& self.last_accesses.drop_count == other.last_accesses.drop_count
        &&& self.last_residence_changes.buf@ == other.last_residence_changes.buf@
        &&& self.last_residence_changes.drop_count == other.last_residence_changes.drop_count
    }

    pub fn copy(&self) -> (s: LayerAccessStatsInner)
        ensures
            s.same(self),
    {
        LayerAccessStatsInner {
            first_access: self.first_access,
            count_by_access_kind: self.count_by_access_kind,
            task_kind_flag: copy_kinds(&self.task_kind_flag),
            last_accesses: self.last_accesses.copy(),
            last_residence_changes: self.last_residence_changes.copy(),
        }
    }

    /// The statistics after a read: the first read is remembered for good,
    /// the read is counted by its kind, the kind of task is noted, and the
    /// read goes into the history.
    pub open spec fn accessed(&self, after: &LayerAccessStatsInner,
        this: LayerAccessStatFullDetails) -> bool {
        &&& after.first_access == (match self.first_access {
            Some(f) => Some(f),
            None => Some(this),
        })
        &&& after.count_by_access_kind == self.count_by_access_kind.counted(this.access_kind)
        &&& after.task_kind_flag@ == (if self.task_kind_flag@.contains(this.task_kind) {
            self.task_kind_flag@
        } else {
            self.task_kind_flag@.push(this.task_kind)
        })
        &&& after.last_accesses.buf@ == HistoryBuffer::<LayerAccessStatFullDetails>::written(
            self.last_accesses.buf@,
            this,
        )
        &&& after.last_accesses.drop_count == (if self.last_accesses.buf@.len() >= HISTORY_LEN {
            bump(self.last_accesses.drop_count)
        } else {
            self.last_accesses.drop_count
        })
        &&& after.last_residence_changes.buf@ == self.last_residence_changes.buf@
        &&& after.last_residence_changes.drop_count == self.last_residence_changes.drop_count
    }

    fn record_access(&mut self, this: LayerAccessStatFullDetails)
        requires
            old(self).wf(),
        ensures
            final(self).wf(),
            old(self).accessed(final(self), this),
    {
        if self.first_access.is_none() {
            self.first_access = Some(this);
        }
        self.count_by_access_kind = self.count_by_access_kind.count(this.access_kind);
        if !has_kind(&self.task_kind_flag, this.task_kind) {
            self.task_kind_flag.push(this.task_kind);
        }
        self.last_accesses.write(this);
    }

    /// The statistics after a change of residence, which goes into its
    /// history.
    pub open spec fn residence_changed(
        &self,
        after: &LayerAccessStatsInner,
        event: LayerResidenceEvent,
    ) -> bool {
        &&& after.first_access == self.first_access
        &&& after.count_by_access_kind == self.count_by_access_kind
        &&& after.task_kind_flag@ == self.task_kind_flag@
        &&& after.last_accesses.buf@ == self.last_accesses.buf@
        &&& after.last_accesses.drop_count == self.last_accesses.drop_count
        &&& after.last_residence_changes.buf@ == HistoryBuffer::<LayerResidenceEvent>::written(
            self.last_residence_changes.buf@,
            event,
        )
        &&& after.last_residence_changes.drop_count == (if self.last_residence_changes.buf@.len()
            >= HISTORY_LEN {
            bump(self.last_residence_changes.drop_count)
        } else {
            self.last_residence_changes.drop_count
        })
    }

    fn record_residence_event(&mut self, event: LayerResidenceEvent)
        requires
            old(self).wf(),
        ensures
            final(self).wf(),
            old(self).residence_changed(final(self), event),
    {
        self.last_residence_changes.write(event);
    }
}

/// The statistics of a layer, twice: one set can be reset by who reads it,
/// the other, which eviction goes by, never is.
#[derive(Debug)]
pub struct LayerAccessStats {
    pub for_scraping_api: LayerAccessStatsInner,
    pub for_eviction_policy: LayerAccessStatsInner,
}

impl LayerAccessStats {
    pub open spec fn wf(&self) -> bool {
        self.for_scraping_api.wf() && self.for_eviction_policy.wf()
    }

    /// Statistics without any entry. A residence event has to be recorded
    /// before `latest_activity` can answer.
    pub fn empty_will_record_residence_event_later() -> (s: LayerAccessStats)
        ensures
            s.wf(),
            s.for_scraping_api.is_empty(),
            s.for_eviction_policy.is_empty(),
    {
        LayerAccessStats {
            for_scraping_api: LayerAccessStatsInner::new(),
            for_eviction_policy: LayerAccessStatsInner::new(),
        }
    }

    /// The statistics hold nothing but changes of residence, none of which
    /// has been dropped.
    pub open spec fn nothing_but_residence(inner: LayerAccessStatsInner) -> bool {
        &&& inner.first_access is None
        &&& inner.count_by_access_kind == AccessCounts {
            get_value_reconstruct_data: 0,
            iter: 0,
            key_iter: 0,
            dump: 0,
        }
        &&& inner.task_kind_flag@ == Seq::<TaskKind>::empty()
        &&& inner.last_accesses.buf@ == Seq::<LayerAccessStatFullDetails>::empty()
        &&& inner.last_accesses.drop_count == 0
        &&& inner.last_residence_changes.drop_count == 0
    }

    /// Statistics of a layer that has just been loaded with the residence
    /// `status`.
    pub fn for_loading_layer(status: LayerResidenceStatus, now_millis: u64) -> (s: LayerAccessStats)
        ensures
            s.wf(),
            s.for_scraping_api.last_residence_changes.buf@ == seq![
                LayerResidenceEvent {
                    status,
                    reason: LayerResidenceEventReason::LayerLoad,
                    timestamp_millis: now_millis,
                },
            ],
            s.for_eviction_policy.last_residence_changes.buf@ == seq![
                LayerResidenceEvent {
                    status,
                    reason: LayerResidenceEventReason::LayerLoad,
                    timestamp_millis: now_millis,
                },
            ],
            Self::nothing_but_residence(s.for_scraping_api),
            Self::nothing_but_residence(s.for_eviction_policy),
    {
        let mut s = LayerAccessStats::empty_will_record_residence_event_later();
        s.record_residence_event(status, LayerResidenceEventReason::LayerLoad, now_millis);
        proof {
            let e = LayerResidenceEvent {
                status,
                reason: LayerResidenceEventReason::LayerLoad,
                timestamp_millis: now_millis,
            };
            assert(Seq::<LayerResidenceEvent>::empty().push(e) =~= seq![e]);
        }
        s
    }

    /// A copy of the statistics in which the change to `new_status` is
    /// recorded. `self` stays as it is.
    pub fn clone_for_residence_change(&self, new_status: LayerResidenceStatus, now_millis: u64)
        -> (s:
        LayerAccessStats)
        requires
            self.wf(),
        ensures
            s.wf(),
            self.for_scraping_api.residence_changed(
                &s.for_scraping_api,
                LayerResidenceEvent {
                    status: new_status,
                    reason: LayerResidenceEventReason::ResidenceChange,
                    timestamp_millis: now_millis,
                },
            ),
            self.for_eviction_policy.residence_changed(
                &s.for_eviction_policy,
                LayerResidenceEvent {
                    status: new_status,
                    reason: LayerResidenceEventReason::ResidenceChange,
                    timestamp_millis: now_millis,
                },
            ),
    {
        let mut s = LayerAccessStats {
            for_scraping_api: self.for_scraping_api.copy(),
            for_eviction_policy: self.for_eviction_policy.copy(),
        };
        s.record_residence_event(
            new_status,
            LayerResidenceEventReason::ResidenceChange,
            now_millis,
        );
        s
    }

    /// Records a change of residence in both sets.
    pub fn record_residence_event(
        &mut self,
        status: LayerResidenceStatus,
        reason: LayerResidenceEventReason,
        now_millis: u64,
    )
        requires
            old(self).wf(),
        ensures
            final(self).wf(),
            old(self).for_scraping_api.residence_changed(
                &final(self).for_scraping_api,
                LayerResidenceEvent { status, reason, timestamp_millis: now_millis },
            ),
            old(self).for_eviction_policy.residence_changed(
                &final(self).for_eviction_policy,
                LayerResidenceEvent { status, reason, timestamp_millis: now_millis },
            ),
    {
        let event = LayerResidenceEvent { status, reason, timestamp_millis: now_millis };
        self.for_scraping_api.record_residence_event(event);
        self.for_eviction_policy.record_residence_event(event);
    }

    /// Records a read in both sets, unless the reader asks for it not to be
    /// counted.
    pub fn record_access(
        &mut self,
        access_kind: LayerAccessKind,
        behavior: AccessStatsBehavior,
        task_kind: TaskKind,
        now_millis: u64,
    )
        requires
            old(self).wf(),
        ensures
            final(self).wf(),
            behavior == AccessStatsBehavior::Skip ==> final(self).for_scraping_api.same(
                &old(self).for_scraping_api,
            ) && final(self).for_eviction_policy.same(&old(self).for_eviction_policy),
            behavior == AccessStatsBehavior::Update ==> old(self).for_scraping_api.accessed(
                &final(self).for_scraping_api,
                LayerAccessStatFullDetails { when_millis: now_millis, task_kind, access_kind },
            ) && old(self).for_eviction_policy.accessed(
                &final(self).for_eviction_policy,
                LayerAccessStatFullDetails { when_millis: now_millis, task_kind, access_kind },
            ),
    {
        match behavior {
            AccessStatsBehavior::Skip => {
                return ;
            },
            AccessStatsBehavior::Update => {},
        }
        let this_access = LayerAccessStatFullDetails {
            when_millis: now_millis,
            task_kind,
            access_kind,
        };
        self.for_scraping_api.record_access(this_access);
        self.for_eviction_policy.record_access(this_access);
    }

    /// Reports the statistics that are kept for reading, and then forgets of
    /// them what `reset` names. The set that eviction goes by stays.
    pub fn as_api_model(&mut self, reset: LayerAccessStatsReset) -> (ret: LayerAccessStatsModel)
        requires
            old(self).wf(),
        ensures
            final(self).wf(),
            final(self).for_eviction_policy.same(&old(self).for_eviction_policy),
            ret.access_count_by_access_kind == old(self).for_scraping_api.count_by_access_kind,
            ret.task_kind_access_flag@ == old(self).for_scraping_api.task_kind_flag@,
            ret.first == old(self).for_scraping_api.first_access,
            ret.accesses_history.buf@ == old(self).for_scraping_api.last_accesses.buf@,
            ret.accesses_history.drop_count == old(self).for_scraping_api.last_accesses.drop_count,
            ret.residence_events_history.buf@
                == old(self).for_scraping_api.last_residence_changes.buf@,
            ret.residence_events_history.drop_count
                == old(self).for_scraping_api.last_residence_changes.drop_count,
            match reset {
                LayerAccessStatsReset::NoReset => final(self).for_scraping_api.same(
                    &old(self).for_scraping_api,
                ),
                LayerAccessStatsReset::JustTaskKindFlags => {
                    &&& final(self).for_scraping_api.task_kind_flag@ == Seq::<TaskKind>::empty()
                    &&& final(self).for_scraping_api.first_access
                        == old(self).for_scraping_api.first_access
                    &&& final(self).for_scraping_api.count_by_access_kind
                        == old(self).for_scraping_api.count_by_access_kind
                    &&& final(self).for_scraping_api.last_accesses.buf@
                        == old(self).for_scraping_api.last_accesses.buf@
                    &&& final(self).for_scraping_api.last_accesses.drop_count
                        == old(self).for_scraping_api.last_accesses.drop_count
                    &&& final(self).for_scraping_api.last_residence_changes.buf@
                        == old(self).for_scraping_api.last_residence_changes.buf@
                    &&& final(self).for_scraping_api.last_residence_changes.drop_count
                        == old(self).for_scraping_api.last_residence_changes.drop_count
                },
                LayerAccessStatsReset::AllStats => final(self).for_scraping_api.is_empty(),
            },
    {
        let ret = LayerAccessStatsModel {
            access_count_by_access_kind: self.for_scraping_api.count_by_access_kind,
            task_kind_access_flag: copy_kinds(&self.for_scraping_api.task_kind_flag),
            first: self.for_scraping_api.first_access,
            accesses_history: self.for_scraping_api.last_accesses.copy(),
            residence_events_history: self.for_scraping_api.last_residence_changes.copy(),
        };
        match reset {
            LayerAccessStatsReset::NoReset => {},
            LayerAccessStatsReset::JustTaskKindFlags => {
                self.for_scraping_api.task_kind_flag = Vec::new();
            },
            LayerAccessStatsReset::AllStats => {
                self.for_scraping_api = LayerAccessStatsInner::new();
            },
        }
        ret
    }

    /// When the layer was last used: the time of the last read or, where
    /// there was none, of the last change of residence. `None` only where
    /// no residence event has been recorded.
    pub fn latest_activity(&self) -> (r: Option<u64>)
        ensures
            r == (if self.for_eviction_policy.last_accesses.buf@.len() > 0 {
                Some(self.for_eviction_policy.last_accesses.buf@.last().when_millis)
            } else if self.for_eviction_policy.last_residence_changes.buf@.len() > 0 {
                Some(self.for_eviction_policy.last_residence_changes.buf@.last().timestamp_millis)
            } else {
                None
            }),
    {
        match self.for_eviction_policy.last_accesses.recent() {
            Some(a) => Some(a.when_millis),
            None => match self.for_eviction_policy.last_residence_changes.recent() {
                Some(e) => Some(e.timestamp_millis),
                None => None,
            },
        }
    }
}

} // verus!
