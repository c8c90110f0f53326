//! Loading and attaching a tenant: reading the names in its timelines
//! directory, deciding which metadata of a timeline counts, and putting the
//! loaded timelines into the map.

use crate::historic::HistoricStuff;
use crate::id::TimelineId;
use crate::metadata::merge_local_remote_metadata;
use crate::metadata::merge_spec;
use crate::metadata::MergeMetadataError;
use crate::metadata::TimelineMetadata;
use crate::tenant::id_absent;
use crate::tenant::AncestorArg;
use crate::tenant::Tenant;
use crate::tenant::TimelineLoadCause;
use crate::timeline::CreationPhase;
use crate::timeline::Timeline;
use crate::timeline::TimelineState;
use crate::timeline::Value;
use crate::tree_sort::TimelineEntry;
use vstd::prelude::*;

verus! {

/// What a name in the timelines directory stands for.
#[derive(Clone, Copy, Debug, PartialEq, Eq, Structural)]
pub enum EntryKind {
    /// A temporary directory, left over from an unfinished creation.
    Temporary,
    /// The uninit mark of a timeline whose creation did not finish.
    UninitMark,
    /// Anything else: the directory of a timeline.
    Timeline,
}

/// Why the names in the timelines directory could not be made sense of.
#[derive(Clone, Copy, Debug, PartialEq, Eq, Structural)]
pub enum LoadScanError {
    /// The name at this place is an uninit mark, but not of a timeline id.
    BadUninitMarkName(usize),
    /// The name at this place is no timeline id.
    BadTimelineDirName(usize),
}

/// What is to be done with the names in the timelines directory.
#[derive(Debug)]
pub struct LoadScan {
    /// The places of the temporary directories, which are to be removed.
    pub temporary: Vec<usize>,
    /// The places of the uninit marks, each with the timeline it marks. The
    /// mark and the directory of the timeline are to be removed, and the
    /// directory is to be read again.
    pub uninit_marks: Vec<(usize, TimelineId)>,
    /// The timelines to load, if there is no uninit mark.
    pub timelines: Vec<TimelineId>,
}

/// The value of a hexadecimal digit.
pub open spec fn hex_digit(c: u8) -> Option<u8> {
    if 48 <= c <= 57 {
        Some((c - 48) as u8)
    } else if 97 <= c <= 102 {
        Some((c - 87) as u8)
    } else if 65 <= c <= 70 {
        Some((c - 55) as u8)
    } else {
        None
    }
}

/// The number that the hexadecimal digits `s` spell, the first digit being
/// the most significant; `None` if `s` holds anything else.
pub open spec fn hex_int(s: Seq<u8>) -> Option<int>
    decreases s.len(),
{
    if s.len() == 0 {
        Some(0)
    } else {
        match (hex_int(s.drop_last()), hex_digit(s.last())) {
            (Some(v), Some(d)) => Some(v * 16 + d),
            _ => None,
        }
    }
}

/// The timeline id that `s` spells: thirty-two hexadecimal digits.
pub open spec fn timeline_id_of(s: Seq<u8>) -> Option<TimelineId> {
    if s.len() == 32 {
        match hex_int(s) {
            Some(v) => Some(TimelineId(v as u128)),
            None => None,
        }
    } else {
        None
    }
}

/// Sixteen to the power of `n`.
pub open spec fn pow16(n: nat) -> int
    decreases n,
{
    if n == 0 {
        1
    } else {
        16 * pow16((n - 1) as nat)
    }
}

proof fn lemma_hex_int_bound(s: Seq<u8>)
    ensures
        hex_int(s) is Some ==> 0 <= hex_int(s).unwrap() < pow16(s.len()),
    decreases s.len(),
{
    if s.len() > 0 {
        lemma_hex_int_bound(s.drop_last());
    }
}

proof fn lemma_pow16_32()
    ensures
        pow16(32) == 0x1_0000_0000_0000_0000_0000_0000_0000_0000,
{
    assert(pow16(4) == 0x1_0000) by {
        reveal_with_fuel(pow16, 6);
    }
    assert(pow16(8) == 0x1_0000 * pow16(4)) by {
        reveal_with_fuel(pow16, 5);
    }
    assert(pow16(12) == 0x1_0000 * pow16(8)) by {
        reveal_with_fuel(pow16, 5);
    }
    assert(pow16(16) == 0x1_0000 * pow16(12)) by {
        reveal_with_fuel(pow16, 5);
    }
    assert(pow16(20) == 0x1_0000 * pow16(16)) by {
        reveal_with_fuel(pow16, 5);
    }
    assert(pow16(24) == 0x1_0000 * pow16(20)) by {
        reveal_with_fuel(pow16, 5);
    }
    assert(pow16(28) == 0x1_0000 * pow16(24)) by {
        reveal_with_fuel(pow16, 5);
    }
    assert(pow16(32) == 0x1_0000 * pow16(28)) by {
        reveal_with_fuel(pow16, 5);
    }
}

/// Powers of sixteen grow with the exponent, and the sixteenth is the number
/// of the numbers that fit in sixty-four bits.
pub proof fn lemma_pow16(a: nat, b: nat)
    requires
        a <= b,
    ensures
        0 < pow16(a) <= pow16(b),
        pow16(16) == 0x1_0000_0000_0000_0000,
{
    lemma_pow16_monotone(a, b);
    assert(pow16(4) == 0x1_0000) by {
        reveal_with_fuel(pow16, 6);
    }
    assert(pow16(8) == 0x1_0000 * pow16(4)) by {
        reveal_with_fuel(pow16, 5);
    }
    assert(pow16(12) == 0x1_0000 * pow16(8)) by {
        reveal_with_fuel(pow16, 5);
    }
    assert(pow16(16) == 0x1_0000 * pow16(12)) by {
        reveal_with_fuel(pow16, 5);
    }
}

proof fn lemma_pow16_monotone(a: nat, b: nat)
    requires
        a <= b,
    ensures
        0 < pow16(a) <= pow16(b),
    decreases b,
{
    if a < b {
        lemma_pow16_monotone(a, (b - 1) as nat);
    } else if a > 0 {
        lemma_pow16_monotone((a - 1) as nat, (a - 1) as nat);
    }
}

/// Reads a timeline id: thirty-two hexadecimal digits.
pub fn parse_timeline_id(s: &[u8]) -> (r: Option<TimelineId>)
    ensures
        r == timeline_id_of(s@),
{
    if s.len() != 32 {
        return None;
    }
    let mut acc: u128 = 0;
    let mut i: usize = 0;
    proof {
        assert(s@.subrange(0, 0) =~= Seq::<u8>::empty());
    }
    while i < 32
        invariant
            0 <= i <= 32,
            s@.len() == 32,
            hex_int(s@.subrange(0, i as int)) == Some(acc as int),
        decreases 32 - i,
    {
        let c = s[i];
        let ghost head = s@.subrange(0, i as int);
        let ghost next = s@.subrange(0, i + 1);
        proof {
            assert(next.drop_last() =~= head);
            assert(next.last() == c);
        }
        let d: u8 = if 48 <= c && c <= 57 {
            c - 48
        } else if 97 <= c && c <= 102 {
            c - 87
        } else if 65 <= c && c <= 70 {
            c - 55
        } else {
            proof {
                assert(hex_int(next) is None);
                lemma_hex_prefix_none(s@, i + 1);
            }
            return None;
        };
        proof {
            lemma_hex_int_bound(head);
            lemma_pow16_monotone((i + 1) as nat, 32);
            lemma_pow16_32();
            assert(pow16((i + 1) as nat) == 16 * pow16(i as nat));
            assert(acc * 16 + d < pow16((i + 1) as nat)) by (nonlinear_arith)
                requires
                    0 <= acc < pow16(i as nat),
                    0 <= d < 16,
                    pow16((i + 1) as nat) == 16 * pow16(i as nat),
            ;
        }
        acc = acc * 16 + d as u128;
        i += 1;
    }
    proof {
        assert(s@.subrange(0, 32) =~= s@);
    }
    Some(TimelineId(acc))
}

/// Digits that do not spell a number up to some place do not spell one as a
/// whole.
proof fn lemma_hex_prefix_none(s: Seq<u8>, n: int)
    requires
        0 <= n <= s.len(),
        hex_int(s.subrange(0, n)) is None,
    ensures
        hex_int(s) is None,
    decreases s.len() - n,
{
    if n < s.len() {
        assert(s.subrange(0, n + 1).drop_last() =~= s.subrange(0, n));
        lemma_hex_prefix_none(s, n + 1);
    } else {
        assert(s.subrange(0, n) =~= s);
    }
}

/// The bytes of `___temp`.
pub open spec fn temp_suffix() -> Seq<u8> {
    seq![95u8, 95u8, 95u8, 116u8, 101u8, 109u8, 112u8]
}

/// The bytes of `.___uninit`.
pub open spec fn uninit_suffix() -> Seq<u8> {
    seq![46u8, 95u8, 95u8, 95u8, 117u8, 110u8, 105u8, 110u8, 105u8, 116u8]
}

/// `name` ends with `suffix`.
pub open spec fn ends_with(name: Seq<u8>, suffix: Seq<u8>) -> bool {
    name.len() >= suffix.len() && name.subrange(name.len() - suffix.len(), name.len() as int)
        == suffix
}

/// What a name in the timelines directory stands for: a name that ends with
/// `___temp` is temporary; else one that ends with `.___uninit`, with
/// something before it, is an uninit mark; any other names a timeline.
pub open spec fn kind_of(name: Seq<u8>) -> EntryKind {
    if ends_with(name, temp_suffix()) {
        EntryKind::Temporary
    } else if name.len() > uninit_suffix().len() && ends_with(name, uninit_suffix()) {
        EntryKind::UninitMark
    } else {
        EntryKind::Timeline
    }
}

/// Whether `name` ends with the bytes `suffix`.
fn has_suffix(name: &[u8], suffix: &[u8]) -> (r: bool)
    ensures
        r == ends_with(name@, suffix@),
{
    if name.len() < suffix.len() {
        return false;
    }
    let start = name.len() - suffix.len();
    let mut i: usize = 0;
    while i < suffix.len()
        invariant
            0 <= i <= suffix@.len(),
            start + suffix@.len() == name@.len(),
            name@.len() <= usize::MAX,
            forall|k: int| 0 <= k < i ==> name@[start + k] == suffix@[k],
        decreases suffix@.len() - i,
    {
        if name[start + i] != suffix[i] {
            proof {
                let tail = name@.subrange(name@.len() - suffix@.len(), name@.len() as int);
                assert(tail[i as int] == name@[start + i]);
            }
            return false;
        }
        i += 1;
    }
    proof {
        assert(name@.subrange(name@.len() - suffix@.len(), name@.len() as int) =~= suffix@);
    }
    true
}

/// What a name in the timelines directory stands for.
pub fn classify_entry(name: &[u8]) -> (r: EntryKind)
    ensures
        r == kind_of(name@),
{
    let temp: [u8; 7] = [95, 95, 95, 116, 101, 109, 112];
    let uninit: [u8; 10] = [46, 95, 95, 95, 117, 110, 105, 110, 105, 116];
    proof {
        assert(temp@ =~= temp_suffix());
        assert(uninit@ =~= uninit_suffix());
    }
    if has_suffix(name, temp.as_slice()) {
        EntryKind::Temporary
    } else if name.len() > 10 && has_suffix(name, uninit.as_slice()) {
        EntryKind::UninitMark
    } else {
        EntryKind::Timeline
    }
}

/// The timeline that the uninit mark `name` marks.
pub open spec fn marked_timeline(name: Seq<u8>) -> Option<TimelineId> {
    timeline_id_of(name.subrange(0, name.len() - uninit_suffix().len()))
}

/// The places of the temporary names among the first `n`.
pub open spec fn temporaries(names: Seq<Vec<u8>>, n: int) -> Seq<usize>
    decreases n,
{
    if n <= 0 {
        Seq::empty()
    } else if kind_of(names[n - 1]@) == EntryKind::Temporary {
        temporaries(names, n - 1).push((n - 1) as usize)
    } else {
        temporaries(names, n - 1)
    }
}

/// The uninit marks among the first `n` names, each with its place and the
/// timeline it marks; or the place of the first mark that marks none.
pub open spec fn uninit_marks(names: Seq<Vec<u8>>, n: int) -> Result<Seq<(usize, TimelineId)>,
    usize>
    decreases n,
{
    if n <= 0 {
        Ok(Seq::empty())
    } else {
        match uninit_marks(names, n - 1) {
            Err(at) => Err(at),
            Ok(marks) => if kind_of(names[n - 1]@) == EntryKind::UninitMark {
                match marked_timeline(names[n - 1]@) {
                    Some(id) => Ok(marks.push(((n - 1) as usize, id))),
                    None => Err((n - 1) as usize),
                }
            } else {
                Ok(marks)
            },
        }
    }
}

/// The timelines that the first `n` names name, leaving out the temporary
/// ones; or the place of the first name that names none.
pub open spec fn timeline_dirs(names: Seq<Vec<u8>>, n: int) -> Result<Seq<TimelineId>, usize>
    decreases n,
{
    if n <= 0 {
        Ok(Seq::empty())
    } else {
        match timeline_dirs(names, n - 1) {
            Err(at) => Err(at),
            Ok(ids) => if kind_of(names[n - 1]@) == EntryKind::Temporary {
                Ok(ids)
            } else {
                match timeline_id_of(names[n - 1]@) {
                    Some(id) => Ok(ids.push(id)),
                    None => Err((n - 1) as usize),
                }
            },
        }
    }
}

/// Decides what to do with the names found in the timelines directory.
///
/// Temporary directories are to be removed. Where there are uninit marks,
/// the timelines they mark are to be removed with them, and the directory
/// is to be read again: no timeline is named for loading. Without uninit
/// marks, every name that is not temporary has to be a timeline id, and
/// these are the timelines to load.
pub fn scan_timelines_dir(names: &Vec<Vec<u8>>) -> (r: Result<LoadScan, LoadScanError>)
    ensures
        match uninit_marks(names@, names@.len() as int) {
            Err(at) => r == Err::<LoadScan, LoadScanError>(LoadScanError::BadUninitMarkName(at)),
            Ok(marks) => if marks.len() > 0 {
                &&& r is Ok
                &&& r.unwrap().temporary@ == temporaries(names@, names@.len() as int)
                &&& r.unwrap().uninit_marks@ == marks
                &&& r.unwrap().timelines@ == Seq::<TimelineId>::empty()
            } else {
                match timeline_dirs(names@, names@.len() as int) {
                    Err(at) => r == Err::<LoadScan, LoadScanError>(
                        LoadScanError::BadTimelineDirName(at),
                    ),
                    Ok(ids) => {
                        &&& r is Ok
                        &&& r.unwrap().temporary@ == temporaries(names@, names@.len() as int)
                        &&& r.unwrap().uninit_marks@ == marks
                        &&& r.unwrap().timelines@ == ids
                    },
                }
            },
        },
{
    let mut temporary: Vec<usize> = Vec::new();
    let mut marks: Vec<(usize, TimelineId)> = Vec::new();
    let mut i: usize = 0;
    while i < names.len()
        invariant
            0 <= i <= names@.len(),
            temporary@ == temporaries(names@, i as int),
            uninit_marks(names@, i as int) == Ok::<Seq<(usize, TimelineId)>, usize>(marks@),
        decreases names@.len() - i,
    {
        let name = &names[i];
        match classify_entry(name.as_slice()) {
            EntryKind::Temporary => {
                temporary.push(i);
            },
            EntryKind::UninitMark => {
                let stem = slice_subrange(name.as_slice(), 0, name.len() - 10);
                match parse_timeline_id(stem) {
                    Some(id) => {
                        marks.push((i, id));
                    },
                    None => {
                        proof {
                            lemma_marks_error_stays(names@, i + 1, names@.len() as int);
                        }
                        return Err(LoadScanError::BadUninitMarkName(i));
                    },
                }
            },
            EntryKind::Timeline => {},
        }
        i += 1;
    }
    if marks.len() > 0 {
        return Ok(LoadScan { temporary, uninit_marks: marks, timelines: Vec::new() });
    }
    let mut timelines: Vec<TimelineId> = Vec::new();
    let mut j: usize = 0;
    while j < names.len()
        invariant
            0 <= j <= names@.len(),
            timeline_dirs(names@, j as int) == Ok::<Seq<TimelineId>, usize>(timelines@),
            uninit_marks(names@, names@.len() as int) == Ok::<Seq<(usize, TimelineId)>, usize>(
                marks@,
            ),
            marks@.len() == 0,
            temporary@ == temporaries(names@, names@.len() as int),
        decreases names@.len() - j,
    {
        let name = &names[j];
        match classify_entry(name.as_slice()) {
            EntryKind::Temporary => {},
            _ => {
                match parse_timeline_id(name.as_slice()) {
                    Some(id) => {
                        timelines.push(id);
                    },
                    None => {
                        proof {
                            lemma_dirs_error_stays(names@, j + 1, names@.len() as int);
                        }
                        return Err(LoadScanError::BadTimelineDirName(j));
                    },
                }
            },
        }
        j += 1;
    }
    Ok(LoadScan { temporary, uninit_marks: marks, timelines })
}

/// The part of `s` from `from` up to `to`.
fn slice_subrange(s: &[u8], from: usize, to: usize) -> (r: &[u8])
    requires
        from <= to <= s@.len(),
    ensures
        r@ == s@.subrange(from as int, to as int),
{
    vstd::slice::slice_subrange(s, from, to)
}

proof fn lemma_marks_error_stays(names: Seq<Vec<u8>>, n: int, m: int)
    requires
        0 <= n <= m,
        uninit_marks(names, n) is Err,
    ensures
        uninit_marks(names, m) == uninit_marks(names, n),
    decreases m - n,
{
    if n < m {
        lemma_marks_error_stays(names, n, m - 1);
    }
}

proof fn lemma_dirs_error_stays(names: Seq<Vec<u8>>, n: int, m: int)
    requires
        0 <= n <= m,
        timeline_dirs(names, n) is Err,
    ensures
        timeline_dirs(names, m) == timeline_dirs(names, n),
    decreases m - n,
{
    if n < m {
        lemma_dirs_error_stays(names, n, m - 1);
    }
}

/// What was found in remote storage for a timeline.
#[derive(Clone, Copy, Debug, PartialEq, Eq, Structural)]
pub enum RemoteIndex {
    /// The index of the timeline, with this metadata.
    Found(TimelineMetadata),
    /// The timeline is marked as deleted.
    Deleted,
}

/// The timelines of a tenant in remote storage that are to be attached, in
/// the order given: those that are not marked as deleted.
pub open spec fn attachable(parts: Seq<(TimelineId, RemoteIndex)>) -> Seq<TimelineEntry>
    decreases parts.len(),
{
    if parts.len() == 0 {
        Seq::empty()
    } else {
        let rest = attachable(parts.drop_last());
        match parts.last().1 {
            RemoteIndex::Found(m) => rest.push((parts.last().0, m)),
            RemoteIndex::Deleted => rest,
        }
    }
}

/// The timelines that are to be attached, out of what was found in remote
/// storage: a timeline that is marked as deleted is passed over.
pub fn select_attachable(parts: &Vec<(TimelineId, RemoteIndex)>) -> (r: Vec<TimelineEntry>)
    ensures
        r@ == attachable(parts@),
{
    let mut out: Vec<TimelineEntry> = Vec::new();
    let mut i: usize = 0;
    proof {
        assert(parts@.subrange(0, 0) =~= Seq::<(TimelineId, RemoteIndex)>::empty());
    }
    while i < parts.len()
        invariant
            0 <= i <= parts@.len(),
            out@ == attachable(parts@.subrange(0, i as int)),
        decreases parts@.len() - i,
    {
        proof {
            let next = parts@.subrange(0, i + 1);
            assert(next.drop_last() =~= parts@.subrange(0, i as int));
            assert(next.last() == parts@[i as int]);
        }
        match parts[i].1 {
            RemoteIndex::Found(m) => {
                out.push((parts[i].0, m));
            },
            RemoteIndex::Deleted => {},
        }
        i += 1;
    }
    proof {
        assert(parts@.subrange(0, parts@.len() as int) =~= parts@);
    }
    out
}

/// Why a timeline could not be set up from its metadata.
#[derive(Clone, Copy, Debug, PartialEq, Eq, Structural)]
pub enum TimelineInitError {
    /// The local and the remote metadata name different ancestors.
    AncestorMismatch { local: Option<TimelineId>, remote: Option<TimelineId> },
    /// No metadata could be chosen.
    Merge(MergeMetadataError),
    /// The timeline branches off a timeline that the tenant does not have.
    AncestorNotFound(TimelineId),
    /// The timeline has neither an ancestor nor a layer: it holds nothing.
    NoAncestorNoLayers,
}

/// The ancestor that the metadata given agree on; `None` twice over where
/// they do not agree.
pub open spec fn agreed_ancestor(
    local: Option<TimelineMetadata>,
    remote: Option<TimelineMetadata>,
) -> Option<Option<TimelineId>> {
    match (local, remote) {
        (Some(l), Some(r)) => if l.ancestor_timeline == r.ancestor_timeline {
            Some(l.ancestor_timeline)
        } else {
            None
        },
        (Some(m), None) => Some(m.ancestor_timeline),
        (None, Some(m)) => Some(m.ancestor_timeline),
        (None, None) => None,
    }
}

/// Whether the layers found are in order for a timeline that is loaded for
/// `cause`: a timeline without ancestor must have layers, unless it has just
/// been created empty or is loaded in a test.
pub open spec fn layers_in_order(cause: TimelineLoadCause, has_ancestor: bool,
    has_layers: bool) -> bool {
    match cause {
        TimelineLoadCause::TimelineCreate { expxect_layer_files, .. } => !expxect_layer_files
            || has_ancestor || has_layers,
        TimelineLoadCause::Test => true,
        _ => has_ancestor || has_layers,
    }
}

/// The two metadata agree on the ancestor, and one of them counts: the
/// setting up of a timeline gets as far as looking at what caused it.
pub open spec fn metadata_in_order(
    local: Option<TimelineMetadata>,
    remote: Option<TimelineMetadata>,
) -> bool {
    agreed_ancestor(local, remote) is Some && merge_spec(local, remote) is Ok
}

/// What the setting up of a timeline answers.
pub open spec fn init_result(
    local: Option<TimelineMetadata>,
    remote: Option<TimelineMetadata>,
    cause: TimelineLoadCause,
    has_layers: bool,
) -> Result<(TimelineMetadata, bool), TimelineInitError> {
    match agreed_ancestor(local, remote) {
        None => Err(
            TimelineInitError::AncestorMismatch {
                local: local.unwrap().ancestor_timeline,
                remote: remote.unwrap().ancestor_timeline,
            },
        ),
        Some(ancestor) => match merge_spec(local, remote) {
            Err(e) => Err(TimelineInitError::Merge(e)),
            Ok((metadata, picked_local)) => if !layers_in_order(
                cause,
                ancestor is Some,
                has_layers,
            ) {
                Err(TimelineInitError::NoAncestorNoLayers)
            } else {
                Ok((metadata, picked_local))
            },
        },
    }
}

impl Tenant {
    /// A timeline in `Loading` as `new_metadata` describes it. A timeline
    /// that branches off another needs the ancestor to be given.
    pub fn create_timeline_struct(
        &self,
        new_timeline_id: TimelineId,
        new_metadata: &TimelineMetadata,
        ancestor: Option<TimelineId>,
        has_remote_client: bool,
    ) -> (r: Result<Timeline, TimelineInitError>)
        ensures
            match r {
                Err(e) => new_metadata.ancestor_timeline is Some && ancestor is None && e
                    == TimelineInitError::AncestorNotFound(
                    new_metadata.ancestor_timeline.unwrap(),
                ),
                Ok(t) => {
                    &&& !(new_metadata.ancestor_timeline is Some && ancestor is None)
                    &&& Self::is_loading_timeline(*self, t, new_timeline_id, *new_metadata)
                    &&& t.has_remote_client == has_remote_client
                },
            },
    {
        match (new_metadata.ancestor_timeline, ancestor) {
            (Some(a), None) => {
                return Err(TimelineInitError::AncestorNotFound(a));
            },
            _ => {},
        }
        Ok(
            Timeline::new(
                self.tenant_id,
                new_timeline_id,
                new_metadata,
                false,
                has_remote_client,
                self.layer_capacity,
            ),
        )
    }

    /// `t` is the timeline of `tenant` with id `id` that `metadata`
    /// describes, in `Loading` and without layers.
    pub open spec fn is_loading_timeline(
        tenant: Tenant,
        t: Timeline,
        id: TimelineId,
        metadata: TimelineMetadata,
    ) -> bool {
        &&& t.wf()
        &&& t.tenant_id == tenant.tenant_id
        &&& t.timeline_id == id
        &&& t.ancestor == (match metadata.ancestor_timeline {
            Some(a) => Some((a, metadata.ancestor_lsn)),
            None => None,
        })
        &&& t.state == TimelineState::Loading
        &&& t.creation == CreationPhase::NotCreating
        &&& t.last_record_lsn == metadata.disk_consistent_lsn
        &&& t.prev_record_lsn == (match metadata.prev_record_lsn {
            Some(l) => l,
            None => crate::lsn::Lsn(0),
        })
        &&& t.gc_info.retain_lsns@ == Seq::<crate::lsn::Lsn>::empty()
        &&& t.gc_info.horizon_cutoff == crate::lsn::Lsn(0)
        &&& t.gc_info.pitr_cutoff == crate::lsn::Lsn(0)
        &&& !t.layers.gate().is_shutdown()
        &&& t.disk_consistent_lsn == metadata.disk_consistent_lsn
        &&& t.latest_gc_cutoff_lsn == metadata.latest_gc_cutoff_lsn
        &&& t.initdb_lsn == metadata.initdb_lsn
        &&& t.pg_version == metadata.pg_version
        &&& !t.delete_in_progress
        &&& !t.deleted
        &&& t.layers.open_layer() is None
        &&& t.layers.capacity() == tenant.layer_capacity
    }

    /// Sets up a timeline from its local and its remote metadata and the
    /// layers that were found for it.
    ///
    /// The two metadata have to agree on the ancestor, which has to be the
    /// one that the caller found. The metadata that counts is the local one
    /// unless only the remote one is there, and never one that lies behind
    /// the other. A timeline without ancestor must have layers, unless it
    /// has just been created empty. Where the metadata are in order, the
    /// cause is not the creation of a tenant, which makes no timelines, and
    /// a timeline created empty has no layers. The answer is the timeline, in
    /// `Loading`, and whether its metadata has to be saved locally, which is
    /// so where the remote one counts.
    pub fn timeline_init_and_sync(
        &self,
        timeline_id: TimelineId,
        has_remote_client: bool,
        remote_metadata: Option<&TimelineMetadata>,
        local_metadata: Option<&TimelineMetadata>,
        ancestor: AncestorArg,
        cause: TimelineLoadCause,
        historic: HistoricStuff<Value>,
    ) -> (r: Result<(Timeline, bool), TimelineInitError>)
        requires
            local_metadata is Some || remote_metadata is Some,
            agreed_ancestor(
                crate::metadata::deref_opt(local_metadata),
                crate::metadata::deref_opt(remote_metadata),
            ) is Some ==> agreed_ancestor(
                crate::metadata::deref_opt(local_metadata),
                crate::metadata::deref_opt(remote_metadata),
            ) == Some(ancestor.0),
            metadata_in_order(
                crate::metadata::deref_opt(local_metadata),
                crate::metadata::deref_opt(remote_metadata),
            ) ==> cause != TimelineLoadCause::TenantCreate && (cause
                matches TimelineLoadCause::TimelineCreate { expxect_layer_files, .. }
                && !expxect_layer_files ==> historic.layers().len() == 0),
            historic.wf(),
        ensures
            match init_result(
                crate::metadata::deref_opt(local_metadata),
                crate::metadata::deref_opt(remote_metadata),
                cause,
                historic.layers().len() > 0,
            ) {
                Err(e) => r == Err::<(Timeline, bool), TimelineInitError>(e),
                Ok((metadata, picked_local)) => {
                    &&& r is Ok
                    &&& r.unwrap().1 == !picked_local
                    &&& Self::is_loading_timeline(*self, r.unwrap().0, timeline_id, metadata)
                    &&& r.unwrap().0.has_remote_client == has_remote_client
                    &&& r.unwrap().0.layers.historic() == historic
                },
            },
    {
        match (local_metadata, remote_metadata) {
            (Some(l), Some(r)) => {
                let same = match (l.ancestor_timeline, r.ancestor_timeline) {
                    (Some(a), Some(b)) => a.0 == b.0,
                    (None, None) => true,
                    _ => false,
                };
                if !same {
                    return Err(
                        TimelineInitError::AncestorMismatch {
                            local: l.ancestor_timeline,
                            remote: r.ancestor_timeline,
                        },
                    );
                }
            },
            _ => {},
        }
        let (up_to_date_metadata, picked_local) = match merge_local_remote_metadata(
            local_metadata,
            remote_metadata,
        ) {
            Ok((m, picked_local)) => (*m, picked_local),
            Err(e) => {
                return Err(TimelineInitError::Merge(e));
            },
        };
        proof {
            crate::metadata::lemma_merge_returns_an_input(
                crate::metadata::deref_opt(local_metadata),
                crate::metadata::deref_opt(remote_metadata),
            );
        }
        let mut timeline = match self.create_timeline_struct(
            timeline_id,
            &up_to_date_metadata,
            ancestor.0,
            has_remote_client,
        ) {
            Ok(t) => t,
            Err(e) => {
                proof {
                    assert(false);
                }
                return Err(e);
            },
        };
        let has_layers = historic.len() > 0;
        timeline.load_layer_map(historic);
        let in_order = match cause {
            TimelineLoadCause::TimelineCreate { expxect_layer_files, .. } => !expxect_layer_files
                || ancestor.0.is_some() || has_layers,
            TimelineLoadCause::Test => true,
            _ => ancestor.0.is_some() || has_layers,
        };
        if !in_order {
            return Err(TimelineInitError::NoAncestorNoLayers);
        }
        Ok((timeline, !picked_local))
    }

    /// The ancestor of a timeline to be loaded, as far as the tenant has it.
    pub fn resolve_ancestor(&self, metadata: &TimelineMetadata) -> (r: Result<
        AncestorArg,
        TimelineInitError,
    >)
        ensures
            r == (match metadata.ancestor_timeline {
                None => Ok::<AncestorArg, TimelineInitError>(AncestorArg(None)),
                Some(a) => if Self::has_timeline(self.timelines@, a) {
                    Ok::<AncestorArg, TimelineInitError>(AncestorArg(Some(a)))
                } else {
                    Err::<AncestorArg, TimelineInitError>(TimelineInitError::AncestorNotFound(a))
                },
            }),
    {
        match metadata.ancestor_timeline {
            None => Ok(AncestorArg::no_ancestor()),
            Some(a) => match self.find(a) {
                Some(at) => {
                    proof {
                        Self::lemma_found(self.timelines@, a, at as int);
                    }
                    Ok(AncestorArg::ancestor(a))
                },
                None => Err(TimelineInitError::AncestorNotFound(a)),
            },
        }
    }

    /// Whether `timeline` can be put into the map: it is a loaded timeline
    /// with a new id, and the timeline it branches off, if any, is in the
    /// map and loaded.
    pub open spec fn can_insert(tenant: Tenant, timeline: Timeline) -> bool {
        &&& timeline.wf()
        &&& timeline.creation == CreationPhase::NotCreating
        &&& timeline.state != TimelineState::Creating
        &&& id_absent(tenant.timelines@, timeline.timeline_id)
        &&& match timeline.ancestor {
            Some((a, _)) => Self::has_real_timeline(tenant.timelines@, a),
            None => true,
        }
    }

    /// Whether `timeline` can be put into the map.
    pub fn can_insert_timeline(&self, timeline: &Timeline) -> (r: bool)
        requires
            self.wf(),
            timeline.wf(),
        ensures
            r == Self::can_insert(*self, *timeline),
    {
        let loaded = match (timeline.creation, timeline.state) {
            (CreationPhase::NotCreating, TimelineState::Creating) => false,
            (CreationPhase::NotCreating, _) => true,
            _ => false,
        };
        if !loaded || self.find(timeline.timeline_id).is_some() {
            return false;
        }
        match timeline.ancestor {
            None => true,
            Some((a, _)) => match self.find(a) {
                None => false,
                Some(k) => {
                    let found = match self.timelines[k].creation {
                        CreationPhase::NotCreating => true,
                        _ => false,
                    };
                    proof {
                        if !found {
                            assert forall|j: int|
                                0 <= j < self.timelines@.len() && (
                                #[trigger] self.timelines@[j]).timeline_id == a implies j == k by {
                                if j < k {
                                    assert(self.timelines@[j].timeline_id
                                        != self.timelines@[k as int].timeline_id);
                                } else if j > k {
                                    assert(self.timelines@[k as int].timeline_id
                                        != self.timelines@[j].timeline_id);
                                }
                            }
                        }
                    }
                    found
                },
            },
        }
    }

    /// Puts a loaded timeline into the map, behind all others.
    pub fn insert_loaded_timeline(&mut self, timeline: Timeline)
        requires
            old(self).wf(),
            Self::can_insert(*old(self), timeline),
        ensures
            final(self).wf(),
            final(self).same_settings(old(self)),
            final(self).state == old(self).state,
            final(self).timelines@ == old(self).timelines@.push(timeline),
    {
        proof {
            let ts = self.timelines@;
            if timeline.ancestor is Some {
                let a = timeline.ancestor.unwrap().0;
                let k = choose|k: int|
                    0 <= k < ts.len() && (#[trigger] ts[k]).timeline_id == a && ts[k].creation
                        == CreationPhase::NotCreating;
                assert(crate::tenant::stands_before(ts, a, ts.len() as int));
            }
            Self::lemma_push_timeline(ts, timeline);
        }
        self.timelines.push(timeline);
        proof {
            let before = old(self).timelines@;
            let after = self.timelines@;
            if !(self.state is Stopping || self.state is Broken) {
                assert forall|i: int| 0 <= i < after.len() implies ((#[trigger] after[i]).state
                    == TimelineState::Creating) == (after[i].creation
                    != CreationPhase::NotCreating) by {
                    if i < before.len() {
                        assert(after[i] == before[i]);
                    }
                }
            }
            if self.state.is_starting() {
                assert forall|i: int| 0 <= i < after.len() implies (#[trigger] after[i]).creation
                    == CreationPhase::NotCreating by {
                    if i < before.len() {
                        assert(after[i] == before[i]);
                    }
                }
            }
        }
    }

    /// The sizes of the timelines in remote storage, added up; the largest
    /// number if the sum is beyond it.
    pub fn get_remote_size(&self, remote_sizes: &Vec<(TimelineId, u64)>) -> (r: u64)
        ensures
            r == Self::remote_size(self.timelines@, remote_sizes@, self.timelines@.len() as int),
    {
        let mut size: u64 = 0;
        let mut i: usize = 0;
        while i < self.timelines.len()
            invariant
                0 <= i <= self.timelines@.len(),
                size == Self::remote_size(self.timelines@, remote_sizes@, i as int),
            decreases self.timelines@.len() - i,
        {
            if self.timelines[i].has_remote_client {
                let s = size_of(remote_sizes, self.timelines[i].timeline_id);
                size = if size > u64::MAX - s {
                    u64::MAX
                } else {
                    size + s
                };
            }
            i += 1;
        }
        size
    }

    /// The sizes in remote storage of the first `n` timelines that have a
    /// remote client, added up and capped.
    pub open spec fn remote_size(ts: Seq<Timeline>, sizes: Seq<(TimelineId, u64)>, n: int) -> u64
        decreases n,
    {
        if n <= 0 {
            0
        } else if ts[n - 1].has_remote_client {
            crate::gc::sat_add(
                Self::remote_size(ts, sizes, n - 1),
                size_in(sizes, ts[n - 1].timeline_id),
            )
        } else {
            Self::remote_size(ts, sizes, n - 1)
        }
    }
}

/// The size noted for the timeline `id` in `sizes`, by the first entry for
/// it; zero where there is none.
pub open spec fn size_in(sizes: Seq<(TimelineId, u64)>, id: TimelineId) -> u64
    decreases sizes.len(),
{
    if sizes.len() == 0 {
        0
    } else if sizes.first().0 == id {
        sizes.first().1
    } else {
        size_in(sizes.drop_first(), id)
    }
}

/// The size noted for the timeline `id` in `sizes`.
fn size_of(sizes: &Vec<(TimelineId, u64)>, id: TimelineId) -> (r: u64)
    ensures
        r == size_in(sizes@, id),
{
    let mut i: usize = 0;
    proof {
        assert(sizes@.subrange(0, sizes@.len() as int) =~= sizes@);
    }
    while i < sizes.len()
        invariant
            0 <= i <= sizes@.len(),
            size_in(sizes@, id) == size_in(sizes@.subrange(i as int, sizes@.len() as int), id),
        decreases sizes@.len() - i,
    {
        let ghost rest = sizes@.subrange(i as int, sizes@.len() as int);
        proof {
            assert(rest.first() == sizes@[i as int]);
            assert(rest.drop_first() =~= sizes@.subrange(i + 1, sizes@.len() as int));
        }
        if sizes[i].0.0 == id.0 {
            return sizes[i].1;
        }
        i += 1;
    }
    0
}

} // verus!
