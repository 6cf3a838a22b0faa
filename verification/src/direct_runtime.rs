//! Direct playback: one connection, the source it plays, and how sources follow
//! each other on it.

use vstd::prelude::*;

use crate::cue::{parse_cue_virtual_path, virtual_parts};
use crate::direct_dsd::producer::{started_at, DirectDsdSource};
use crate::direct_dsd::reader::{at_most_u64, DirectDsdReader};
use crate::direct_dsd::ring::DirectDsdMonitor;
use crate::direct_dsd::runs::{
    handed_out, is_playing, law_source_hands_out_the_stream_in_order, law_source_keeps_its_rate,
    PlayEvent,
};
use crate::direct_dsd::DirectDsdFormat;
use crate::direct_pcm::decoder::{is_http, is_http_source};
use crate::direct_pcm::producer::DirectPcmSource;
use crate::direct_pcm::ring::{DirectPcmMonitor, PcmFrame};
use crate::direct_pcm::runs::{
    law_opened_pcm_stands_at_its_start, law_pcm_source_hands_out_its_frames_in_order,
    law_pcm_source_keeps_its_rate, part_of, playable, position_after, taken,
    PcmPlayEvent,
};
use crate::direct_pcm::{
    DirectPcmFormat, DirectPcmMemoryPath, DirectPcmSampleFormat,
};
use crate::path::{extension, path_extension};
use crate::text::{
    ascii_lower_all, contains_literal, contains_text, find_in_class, is_literal, next_in_class, part,
    to_ascii_lower, to_chars, to_text, CharClass,
};

verus! {

/// Blocks of silence that a drain delivers at least.
pub const DIRECT_FADE_DRAIN_MIN_BLOCKS: u32 = 4;

/// Microseconds of silence that a drain delivers where no target was set.
pub const DIRECT_FADE_DRAIN_MIN_MICROS: u64 = 200_000;

/// Least target of a drain, in microseconds.
pub const DIRECT_FADE_DRAIN_FLOOR_MICROS: u64 = 120_000;

/// Longest wait for a staged source, in milliseconds.
pub const DIRECT_HANDOFF_STAGE_WAIT_MS: u64 = 800;

/// Longest wait for a drain without a target, in milliseconds.
pub const DIRECT_FADE_DRAIN_TIMEOUT_MS: u64 = 600;

/// What the wait for a drain exceeds its target by, in milliseconds.
pub const DIRECT_FADE_DRAIN_EXTRA_MS: u64 = 400;

/// Time for a target to settle after a new connection, in milliseconds.
pub const DIRECT_FULL_RECONNECT_STABILIZATION_MS: u64 = 150;

/// Time for a target to settle on DSD after a new connection, in milliseconds.
pub const DIRECT_DSD_FULL_RECONNECT_STABILIZATION_MS: u64 = 800;

/// Longest wait for the first block to be played, in milliseconds.
pub const DIRECT_START_TIMEOUT_MS: u64 = 2_000;

/// The same for DSD and for PCM above 96 kHz.
pub const DIRECT_START_TIMEOUT_HIGH_RATE_MS: u64 = 5_000;

/// Longest single wait, so that a new load is noticed.
pub const DIRECT_START_POLL_MS: u64 = 100;

/// Format of a direct stream.
#[derive(Debug, Clone, Copy, PartialEq, Eq, Structural)]
pub enum DirectFormat {
    Pcm(DirectPcmFormat),
    Dsd(DirectDsdFormat),
}

/// A load that gave way to a newer one. This is no failure.
#[derive(Debug, Clone, Copy, PartialEq, Eq, Structural)]
pub struct LoadSuperseded;

impl LoadSuperseded {
    /// A description of it. It begins with a mark that tells it from failures.
    pub fn message(&self) -> (r: &'static str)
        ensures
            r@ == "[Cancelled] load 已被更新的请求取代"@,
    {
        "[Cancelled] load 已被更新的请求取代"
    }
}

/// Why a direct stream cannot play a source.
#[derive(Debug, Clone, Copy, PartialEq, Eq, Structural)]
pub enum DirectError {
    /// The source is on the network.
    NotLocal,
    /// The source is on the network and no copy of it is at hand.
    NotMaterialized,
    /// A PCM connection cannot take DSD.
    PcmToDsd,
    /// A DSD connection cannot take PCM.
    DsdToPcm,
    /// The source failed before anything was played.
    FailedBeforeStart,
    /// The source ended before anything was played.
    EndedBeforeStart,
    /// The device never began to play.
    NotStarted,
    /// A newer load took over.
    Superseded(LoadSuperseded),
}

impl DirectError {
    /// A description of the error.
    pub open spec fn text(self) -> Seq<char> {
        match self {
            DirectError::NotLocal => {
                "[Direct] 当前 Direct Lifecycle Gate 仅支持本地 seekable 音源"@
            },
            DirectError::NotMaterialized => {
                "[Direct] 在线 gapless staging 需要已物化的本地 seekable 输入"@
            },
            DirectError::PcmToDsd => {
                "[Direct] PCM → Native DSD 需要重新协商 Diretta connection"@
            },
            DirectError::DsdToPcm => {
                "[Direct] Native DSD → PCM 需要重新协商 Diretta connection"@
            },
            DirectError::FailedBeforeStart => "[Direct] Diretta 音源在首块消费前失败"@,
            DirectError::EndedBeforeStart => "[Direct] Diretta 音源在首块消费前结束"@,
            DirectError::NotStarted => "[Device] Diretta 连接未开始消费音频"@,
            DirectError::Superseded(_) => "[Cancelled] load 已被更新的请求取代"@,
        }
    }

    /// A description of the error.
    pub fn message(&self) -> (r: &'static str)
        ensures
            r@ == self.text(),
    {
        match self {
            DirectError::NotLocal => "[Direct] 当前 Direct Lifecycle Gate 仅支持本地 seekable 音源",
            DirectError::NotMaterialized => {
                "[Direct] 在线 gapless staging 需要已物化的本地 seekable 输入"
            },
            DirectError::PcmToDsd => "[Direct] PCM → Native DSD 需要重新协商 Diretta connection",
            DirectError::DsdToPcm => "[Direct] Native DSD → PCM 需要重新协商 Diretta connection",
            DirectError::FailedBeforeStart => "[Direct] Diretta 音源在首块消费前失败",
            DirectError::EndedBeforeStart => "[Direct] Diretta 音源在首块消费前结束",
            DirectError::NotStarted => "[Device] Diretta 连接未开始消费音频",
            DirectError::Superseded(s) => s.message(),
        }
    }
}

// ---------------------------------------------------------------------------
// Settings and sources
// ---------------------------------------------------------------------------

/// Whether a setting switches off what is on by default.
pub open spec fn switched_off(setting: Option<Seq<char>>) -> bool {
    match setting {
        Some(s) => s == "0"@ || s == "false"@ || s == "off"@ || s == "OFF"@,
        None => false,
    }
}

fn is_switched_off(setting: Option<&str>) -> (r: bool)
    ensures
        r == switched_off(
            match setting {
                Some(s) => Some(s@),
                None => None,
            },
        ),
{
    match setting {
        Some(s) => {
            let chars: Vec<char> = to_chars(s);
            is_literal(chars.as_slice(), "0") || is_literal(chars.as_slice(), "false")
                || is_literal(chars.as_slice(), "off") || is_literal(chars.as_slice(), "OFF")
        },
        None => false,
    }
}

/// Whether sources of one format follow each other without a fade, by a setting.
pub fn tiny_lms_switch_enabled(setting: Option<&str>) -> (r: bool)
    ensures
        r == !switched_off(
            match setting {
                Some(s) => Some(s@),
                None => None,
            },
        ),
{
    !is_switched_off(setting)
}

/// Whether a pause fades to silence first, by a setting.
pub fn direct_soft_pause_enabled(setting: Option<&str>) -> (r: bool)
    ensures
        r == !switched_off(
            match setting {
                Some(s) => Some(s@),
                None => None,
            },
        ),
{
    !is_switched_off(setting)
}

/// A text up to the first of a character, or all of it.
pub open spec fn up_to(s: Seq<char>, c: char) -> Seq<char> {
    s.take(next_in_class(s, CharClass::Only(c), 0))
}

fn cut_at(s: &[char], c: char) -> (r: Vec<char>)
    ensures
        r@ == up_to(s@, c),
{
    let stop: usize = find_in_class(s, CharClass::Only(c), 0);
    let r: Vec<char> = part(s, 0, stop);
    assert(r@ =~= up_to(s@, c));
    r
}

/// The path whose extension tells what a source holds: that of the file for a
/// track of a cue sheet, and of an address without its query.
pub open spec fn telling_path(source: Seq<char>) -> Seq<char> {
    let path = match virtual_parts(source) {
        Some((path, _, _, _)) => path,
        None => source,
    };
    if is_http(path) {
        up_to(up_to(path, '#'), '?')
    } else {
        path
    }
}

/// Whether a source is native DSD: by its extension, or as a track of a disc
/// image.
pub open spec fn names_native_dsd(source: Seq<char>) -> bool {
    let ext = match extension(telling_path(source)) {
        Some(e) => ascii_lower_all(e),
        None => Seq::empty(),
    };
    ||| ext == "dsf"@
    ||| ext == "dff"@
    ||| contains_text(source, ".iso|"@)
    ||| contains_text(source, ".ISO|"@)
}

/// Tests whether a source is native DSD: a DSF or DFF file, or a track of a disc
/// image.
pub fn is_native_dsd_source(source: &str) -> (r: bool)
    ensures
        r == names_native_dsd(source@),
{
    let whole: Vec<char> = to_chars(source);
    let mut path: Vec<char> = match parse_cue_virtual_path(source) {
        Some(info) => to_chars(info.physical_path.as_str()),
        None => to_chars(source),
    };
    let text: String = to_text(path.as_slice());
    if is_http_source(text.as_str()) {
        let head: Vec<char> = cut_at(path.as_slice(), '#');
        path = cut_at(head.as_slice(), '?');
    }
    assert(path@ == telling_path(source@));
    let ext: Vec<char> = match path_extension(path.as_slice()) {
        Some(e) => to_ascii_lower(e.as_slice()),
        None => Vec::new(),
    };
    assert(ext@ == match extension(path@) {
        Some(e) => ascii_lower_all(e),
        None => Seq::<char>::empty(),
    });
    is_literal(ext.as_slice(), "dsf") || is_literal(ext.as_slice(), "dff") || contains_literal(
        whole.as_slice(),
        ".iso|",
    ) || contains_literal(whole.as_slice(), ".ISO|")
}

/// Whether a path leads to DSD: by its extension, or as a track of a disc image.
pub open spec fn leads_to_dsd(path: Seq<char>) -> bool {
    let ext = match extension(path) {
        Some(e) => ascii_lower_all(e),
        None => Seq::empty(),
    };
    ||| ext == "dsf"@
    ||| ext == "dff"@
    ||| ext == "dsdiff"@
    ||| ext == "iso"@
    ||| contains_text(path, ".iso|"@)
    ||| contains_text(path, ".ISO|"@)
}

fn path_leads_to_dsd(path: &[char]) -> (r: bool)
    ensures
        r == leads_to_dsd(path@),
{
    let ext: Vec<char> = match path_extension(path) {
        Some(e) => to_ascii_lower(e.as_slice()),
        None => Vec::new(),
    };
    assert(ext@ == match extension(path@) {
        Some(e) => ascii_lower_all(e),
        None => Seq::<char>::empty(),
    });
    is_literal(ext.as_slice(), "dsf") || is_literal(ext.as_slice(), "dff") || is_literal(
        ext.as_slice(),
        "dsdiff",
    ) || is_literal(ext.as_slice(), "iso") || contains_literal(path, ".iso|") || contains_literal(
        path,
        ".ISO|",
    )
}

/// What is known of the times of a source, in microseconds.
#[derive(Debug, Clone, Copy, PartialEq, Eq)]
pub struct SourceTimes {
    /// Start and duration of a track of a cue sheet, where its virtual path
    /// writes them as numbers; a duration of 0 is unknown.
    pub cue: Option<(u64, u64)>,
    /// Duration of a track of a disc image; 0 is unknown.
    pub sacd_duration: Option<u64>,
    /// Duration that the caller gives.
    pub duration: u64,
}

/// How a source is opened.
pub struct SourcePlan {
    /// The file that the source is in.
    pub path: String,
    /// The file that is opened: that one, or a copy of it.
    pub open_path: String,
    /// Where the source begins in the file, in microseconds.
    pub start: u64,
    /// How long it lasts; 0 where unknown.
    pub duration: u64,
    /// Where it ends in the file; 0 for the file's end.
    pub stop: u64,
    pub is_dsd: bool,
}

/// Whether the source is a track of a cue sheet.
pub open spec fn is_cue_track(source: Seq<char>, times: SourceTimes) -> bool {
    virtual_parts(source) is Some && times.cue is Some
}

/// The file that a source is in.
pub open spec fn source_file(source: Seq<char>, times: SourceTimes) -> Seq<char> {
    match virtual_parts(source) {
        Some((path, _, _, _)) if times.cue is Some => path,
        _ => source,
    }
}

/// A duration, or another where it is unknown.
pub open spec fn known_or(duration: u64, other: u64) -> u64 {
    if duration > 0 {
        duration
    } else {
        other
    }
}

/// Whether a plan is the one of a source.
pub open spec fn is_plan_of(
    plan: SourcePlan,
    source: Seq<char>,
    open_path: Option<Seq<char>>,
    times: SourceTimes,
) -> bool {
    let path = source_file(source, times);
    &&& plan.path@ == path
    &&& plan.open_path@ == match open_path {
        Some(p) => p,
        None => path,
    }
    &&& plan.is_dsd == leads_to_dsd(path)
    &&& match times.cue {
        Some((start, duration)) if virtual_parts(source) is Some => {
            &&& plan.start == start
            &&& plan.duration == known_or(duration, times.duration)
            &&& plan.stop == at_most_u64(plan.start + plan.duration)
        },
        _ => {
            &&& plan.start == 0
            &&& plan.stop == 0
            &&& plan.duration == match times.sacd_duration {
                Some(d) => known_or(d, times.duration),
                None => times.duration,
            }
        },
    }
}

fn known_duration(duration: u64, other: u64) -> (r: u64)
    ensures
        r == known_or(duration, other),
{
    if duration > 0 {
        duration
    } else {
        other
    }
}

/// Settles how a source is opened.
pub fn plan_source(source: &str, open_path: Option<&str>, times: SourceTimes) -> (r: SourcePlan)
    ensures
        is_plan_of(
            r,
            source@,
            match open_path {
                Some(p) => Some(p@),
                None => None,
            },
            times,
        ),
{
    let cue = parse_cue_virtual_path(source);
    let (path, start, duration, stop): (Vec<char>, u64, u64, u64) = match (cue, times.cue) {
        (Some(info), Some((start, duration))) => {
            let lasts: u64 = known_duration(duration, times.duration);
            let stop: u64 = match start.checked_add(lasts) {
                Some(stop) => stop,
                None => u64::MAX,
            };
            (to_chars(info.physical_path.as_str()), start, lasts, stop)
        },
        _ => {
            let lasts: u64 = match times.sacd_duration {
                Some(d) => known_duration(d, times.duration),
                None => times.duration,
            };
            (to_chars(source), 0, lasts, 0)
        },
    };
    let opened: Vec<char> = match open_path {
        Some(p) => to_chars(p),
        None => {
            let copy: Vec<char> = part(path.as_slice(), 0, path.len());
            assert(copy@ =~= path@);
            copy
        },
    };
    SourcePlan {
        is_dsd: path_leads_to_dsd(path.as_slice()),
        path: to_text(path.as_slice()),
        open_path: to_text(opened.as_slice()),
        start,
        duration,
        stop,
    }
}

/// Kinds of connection.
#[derive(Debug, Clone, Copy, PartialEq, Eq, Structural)]
pub enum TransportKind {
    Pcm,
    Dsd,
}

/// Whether a connection can take a source of that family.
pub open spec fn family_error(kind: TransportKind, is_dsd: bool) -> Option<DirectError> {
    match kind {
        TransportKind::Pcm => if is_dsd {
            Some(DirectError::PcmToDsd)
        } else {
            None
        },
        TransportKind::Dsd => if is_dsd {
            None
        } else {
            Some(DirectError::DsdToPcm)
        },
    }
}

fn check_family(kind: TransportKind, is_dsd: bool) -> (r: Option<DirectError>)
    ensures
        r == family_error(kind, is_dsd),
{
    match kind {
        TransportKind::Pcm => {
            if is_dsd {
                Some(DirectError::PcmToDsd)
            } else {
                None
            }
        },
        TransportKind::Dsd => {
            if is_dsd {
                None
            } else {
                Some(DirectError::DsdToPcm)
            }
        },
    }
}

/// Plans to open a source on a new connection. Only local sources are opened so.
pub fn open_local(source: &str, times: SourceTimes) -> (r: Result<SourcePlan, DirectError>)
    ensures
        match r {
            Ok(plan) => !is_http(source@) && is_plan_of(plan, source@, None, times),
            Err(e) => is_http(source@) && e == DirectError::NotLocal,
        },
{
    if is_http_source(source) {
        return Err(DirectError::NotLocal);
    }
    Ok(plan_source(source, None, times))
}

/// Plans to stage a source on a connection. A source on the network needs a copy
/// at hand, and the source has to fit the connection.
pub fn stage_local(
    kind: TransportKind,
    source: &str,
    open_path: Option<&str>,
    times: SourceTimes,
) -> (r: Result<SourcePlan, DirectError>)
    ensures
        ({
            let remote = is_http(source@) && open_path is None;
            let misfit = family_error(kind, leads_to_dsd(source_file(source@, times)));
            let opened = match open_path {
                Some(p) => Some(p@),
                None => None,
            };
            match r {
                Ok(plan) => !remote && misfit is None && is_plan_of(plan, source@, opened, times),
                Err(e) => if remote {
                    e == DirectError::NotMaterialized
                } else {
                    misfit == Some(e)
                },
            }
        }),
{
    if is_http_source(source) && open_path.is_none() {
        return Err(DirectError::NotMaterialized);
    }
    let plan = plan_source(source, open_path, times);
    match check_family(kind, plan.is_dsd) {
        Some(e) => Err(e),
        None => Ok(plan),
    }
}

/// How a connection is silenced before it is torn down for another format.
#[derive(Debug, Clone, Copy, PartialEq, Eq, Structural)]
pub enum PreMutePlan {
    /// So many pulls are answered with silence; the caller waits for them.
    Cycles(u32),
    /// Silence is asked for and waited for so many milliseconds.
    Wait(u64),
}

/// Settles how a connection is silenced before it is torn down.
pub fn trigger_tinylms_pre_mute(kind: TransportKind) -> (r: PreMutePlan)
    ensures
        r == match kind {
            TransportKind::Pcm => PreMutePlan::Cycles(8),
            TransportKind::Dsd => PreMutePlan::Wait(80),
        },
{
    match kind {
        TransportKind::Pcm => PreMutePlan::Cycles(8),
        TransportKind::Dsd => PreMutePlan::Wait(80),
    }
}

/// Milliseconds to wait for a drain with this target.
pub fn drain_timeout_ms(target_micros: u64) -> (r: u64)
    ensures
        r == target_micros as int / 1000 + DIRECT_FADE_DRAIN_EXTRA_MS,
        1000 * (r - 400) <= target_micros < 1000 * (r - 399),
{
    target_micros / 1000 + DIRECT_FADE_DRAIN_EXTRA_MS
}

// ---------------------------------------------------------------------------
// What is played
// ---------------------------------------------------------------------------

/// A connection that is only imagined.
#[derive(Debug, Clone, Copy, PartialEq, Eq, Structural)]
pub struct FakeDirectState {
    pub position_micros: u64,
    pub playing: bool,
    pub failed: bool,
    pub finished: bool,
}

impl FakeDirectState {
    /// One at its start.
    pub fn new(playing: bool) -> (r: Self)
        ensures
            r == (FakeDirectState { position_micros: 0, playing, failed: false, finished: false }),
    {
        FakeDirectState { position_micros: 0, playing, failed: false, finished: false }
    }

    /// Sets how far it has played, in microseconds.
    pub fn set_position(&mut self, position_micros: u64)
        ensures
            *final(self) == (FakeDirectState { position_micros, ..*old(self) }),
    {
        self.position_micros = position_micros;
    }

    /// Whether it plays.
    pub fn playing(&self) -> (r: bool)
        ensures
            r == self.playing,
    {
        self.playing
    }

    /// Sets whether it has failed.
    pub fn set_failed(&mut self, failed: bool)
        ensures
            *final(self) == (FakeDirectState { failed, ..*old(self) }),
    {
        self.failed = failed;
    }

    /// Sets whether it is at its end.
    pub fn set_finished(&mut self, finished: bool)
        ensures
            *final(self) == (FakeDirectState { finished, ..*old(self) }),
    {
        self.finished = finished;
    }
}

/// A stream as the control side sees it.
pub enum DirectMonitor<'a> {
    Pcm(&'a DirectPcmMonitor),
    Dsd(&'a DirectDsdMonitor),
    Fake(&'a FakeDirectState),
}

impl<'a> DirectMonitor<'a> {
    /// What the device has played of each channel: samples, bits or
    /// microseconds.
    pub open spec fn units(self) -> u64 {
        match self {
            DirectMonitor::Pcm(m) => m.ring@.consumed_frames,
            DirectMonitor::Dsd(m) => m.ring@.consumed_bits_per_channel,
            DirectMonitor::Fake(f) => f.position_micros,
        }
    }

    /// Those in a second.
    pub open spec fn units_per_second(self) -> u32 {
        match self {
            DirectMonitor::Pcm(m) => m.sample_rate,
            DirectMonitor::Dsd(m) => m.bit_rate,
            DirectMonitor::Fake(_) => 1_000_000,
        }
    }

    /// Changes of source that the device has reached.
    pub open spec fn transitions(self) -> u64 {
        match self {
            DirectMonitor::Pcm(m) => m.ring@.transition_count,
            DirectMonitor::Dsd(m) => m.ring@.transition_count,
            DirectMonitor::Fake(_) => 0,
        }
    }

    /// Whether the stream has failed.
    pub open spec fn has_failed(self) -> bool {
        match self {
            DirectMonitor::Pcm(m) => m.ring@.failed,
            DirectMonitor::Dsd(m) => m.ring@.failed,
            DirectMonitor::Fake(f) => f.failed,
        }
    }

    /// Whether all was played.
    pub open spec fn is_over(self) -> bool {
        match self {
            DirectMonitor::Pcm(m) => m.ring@.played_out(),
            DirectMonitor::Dsd(m) => m.ring@.played_out(),
            DirectMonitor::Fake(f) => f.finished,
        }
    }

    /// Whether blocks last long.
    pub open spec fn high_rate(self) -> bool {
        match self {
            DirectMonitor::Pcm(m) => m.sample_rate > 96_000,
            DirectMonitor::Dsd(_) => true,
            DirectMonitor::Fake(_) => false,
        }
    }

    /// What the device has played, and how much of that is a second.
    pub fn consumed_position(&self) -> (r: (u64, u32))
        ensures
            r.0 == self.units(),
            r.1 == self.units_per_second(),
            match *self {
                DirectMonitor::Pcm(m) => r == (m.ring@.consumed_frames, m.sample_rate),
                DirectMonitor::Dsd(m) => r == (m.ring@.consumed_bits_per_channel, m.bit_rate),
                DirectMonitor::Fake(f) => r == (f.position_micros, 1_000_000u32),
            },
    {
        match self {
            DirectMonitor::Pcm(m) => (m.consumed_frames(), m.sample_rate()),
            DirectMonitor::Dsd(m) => (m.consumed_bits(), m.bit_rate),
            DirectMonitor::Fake(f) => (f.position_micros, 1_000_000),
        }
    }

    /// Whether the stream has failed.
    pub fn failed(&self) -> (r: bool)
        ensures
            r == self.has_failed(),
    {
        match self {
            DirectMonitor::Pcm(m) => m.failed(),
            DirectMonitor::Dsd(m) => m.failed(),
            DirectMonitor::Fake(f) => f.failed,
        }
    }

    /// Blocks that wait for the device or are in its hands.
    pub fn pending_blocks(&self) -> (r: usize)
        ensures
            r == match self {
                DirectMonitor::Pcm(m) => m.ring@.pending(),
                DirectMonitor::Dsd(m) => m.ring@.pending(),
                DirectMonitor::Fake(_) => 0,
            },
    {
        match self {
            DirectMonitor::Pcm(m) => m.pending_blocks(),
            DirectMonitor::Dsd(m) => m.pending_blocks(),
            DirectMonitor::Fake(_) => 0,
        }
    }

    /// Whether blocks last long: PCM above 96 kHz, and all DSD.
    pub fn is_high_rate(&self) -> (r: bool)
        ensures
            r == self.high_rate(),
    {
        match self {
            DirectMonitor::Pcm(m) => m.sample_rate() > 96_000,
            DirectMonitor::Dsd(_) => true,
            DirectMonitor::Fake(_) => false,
        }
    }

    /// Whether a wait for the stream to fall silent is over.
    pub fn wait_fade_drained(&self, min_blocks: u32) -> (r: bool)
        ensures
            r == match self {
                DirectMonitor::Pcm(m) => m.ring@.fade.silent && m.ring@.fade.silence_blocks
                    >= min_blocks,
                DirectMonitor::Dsd(m) => m.ring@.drain_done(min_blocks),
                DirectMonitor::Fake(_) => true,
            },
    {
        match self {
            DirectMonitor::Pcm(m) => m.wait_fade_drained(min_blocks),
            DirectMonitor::Dsd(m) => m.ring.drain_complete(min_blocks),
            DirectMonitor::Fake(_) => true,
        }
    }

    /// Microseconds of silence that complete a drain.
    pub fn drain_target_micros(&self) -> (r: u64)
        ensures
            r == match self {
                DirectMonitor::Dsd(m) => m.ring@.drain_target(),
                _ => DIRECT_FADE_DRAIN_MIN_MICROS,
            },
    {
        match self {
            DirectMonitor::Pcm(_) => DIRECT_FADE_DRAIN_MIN_MICROS,
            DirectMonitor::Dsd(m) => m.drain_target_micros(),
            DirectMonitor::Fake(_) => DIRECT_FADE_DRAIN_MIN_MICROS,
        }
    }

    /// Whether all was played.
    pub fn finished(&self) -> (r: bool)
        ensures
            r == self.is_over(),
    {
        match self {
            DirectMonitor::Pcm(m) => m.finished(),
            DirectMonitor::Dsd(m) => m.finished(),
            DirectMonitor::Fake(f) => f.finished,
        }
    }

    /// Whether a next source was accepted and is not in the ring yet. A PCM ring
    /// gets its next source before it is at its end.
    pub fn staging(&self) -> (r: bool)
        ensures
            r == match self {
                DirectMonitor::Dsd(m) => m.ring@.stage_pending,
                _ => false,
            },
    {
        match self {
            DirectMonitor::Pcm(_) => false,
            DirectMonitor::Dsd(m) => m.staging(),
            DirectMonitor::Fake(_) => false,
        }
    }

    /// Whether a wait for the first block to be played is over.
    pub fn wait_first_consumed(&self) -> (r: bool)
        ensures
            r == match self {
                DirectMonitor::Pcm(m) => m.ring@.consumed_frames > 0 || m.ring@.failed
                    || m.ring@.finished,
                DirectMonitor::Dsd(m) => m.ring@.started(),
                DirectMonitor::Fake(_) => true,
            },
    {
        match self {
            DirectMonitor::Pcm(m) => m.wait_first_consumed(),
            DirectMonitor::Dsd(m) => m.wait_first_consumed(),
            DirectMonitor::Fake(_) => true,
        }
    }

    /// Changes of source that the device has reached.
    pub fn transition_count(&self) -> (r: u64)
        ensures
            r == self.transitions(),
    {
        match self {
            DirectMonitor::Pcm(m) => m.transition_count(),
            DirectMonitor::Dsd(m) => m.transition_count(),
            DirectMonitor::Fake(_) => 0,
        }
    }

    /// Duration of what is played, in microseconds.
    pub open spec fn stated_duration(self) -> u64 {
        match self {
            DirectMonitor::Pcm(m) => m.ring@.duration_micros,
            DirectMonitor::Dsd(m) => m.ring@.duration_micros,
            DirectMonitor::Fake(_) => 0,
        }
    }

    /// Duration of what is played, in microseconds.
    pub fn duration(&self) -> (r: u64)
        ensures
            r == self.stated_duration(),
    {
        match self {
            DirectMonitor::Pcm(m) => m.duration_micros(),
            DirectMonitor::Dsd(m) => m.duration_micros(),
            DirectMonitor::Fake(_) => 0,
        }
    }

    /// Generation of the last change of source that the device has reached.
    pub fn boundary_generation(&self) -> (r: u64)
        ensures
            r == match self {
                DirectMonitor::Pcm(m) => m.ring@.boundary_generation,
                DirectMonitor::Dsd(m) => m.ring@.boundary_generation,
                DirectMonitor::Fake(_) => 0,
            },
    {
        match self {
            DirectMonitor::Pcm(m) => m.boundary_generation(),
            DirectMonitor::Dsd(m) => m.boundary_generation(),
            DirectMonitor::Fake(_) => 0,
        }
    }
}

// ---------------------------------------------------------------------------
// Playback
// ---------------------------------------------------------------------------

/// What a connection plays.
pub enum DirectTransport {
    Pcm(DirectPcmSource),
    Dsd(DirectDsdSource),
    Fake(FakeDirectState),
}

/// The format of an imagined connection.
pub open spec fn fake_format() -> DirectPcmFormat {
    DirectPcmFormat {
        sample_rate: 44_100,
        channels: 2,
        valid_bits: 16,
        storage_bits: 16,
        sample_format: DirectPcmSampleFormat::Signed16,
        memory_path: DirectPcmMemoryPath::ZeroCopyPacked,
    }
}

impl DirectTransport {
    /// The source's invariant.
    pub open spec fn wf(self) -> bool {
        match self {
            DirectTransport::Pcm(s) => s.wf(),
            DirectTransport::Dsd(s) => s.wf(),
            DirectTransport::Fake(_) => true,
        }
    }

    /// The stream as the control side sees it.
    pub open spec fn monitored(&self) -> DirectMonitor<'_> {
        match self {
            DirectTransport::Pcm(s) => DirectMonitor::Pcm(&s.monitor),
            DirectTransport::Dsd(s) => DirectMonitor::Dsd(&s.monitor),
            DirectTransport::Fake(f) => DirectMonitor::Fake(f),
        }
    }

    /// The stream as the control side sees it.
    pub fn monitor(&self) -> (r: DirectMonitor<'_>)
        ensures
            r == self.monitored(),
    {
        match self {
            DirectTransport::Pcm(s) => DirectMonitor::Pcm(&s.monitor),
            DirectTransport::Dsd(s) => DirectMonitor::Dsd(&s.monitor),
            DirectTransport::Fake(f) => DirectMonitor::Fake(f),
        }
    }

    /// The format of the source.
    pub fn format(&self) -> (r: DirectFormat)
        ensures
            r == match self {
                DirectTransport::Pcm(s) => DirectFormat::Pcm(s.format),
                DirectTransport::Dsd(s) => DirectFormat::Dsd(s.format),
                DirectTransport::Fake(_) => DirectFormat::Pcm(fake_format()),
            },
    {
        match self {
            DirectTransport::Pcm(s) => DirectFormat::Pcm(s.format()),
            DirectTransport::Dsd(s) => DirectFormat::Dsd(s.format()),
            DirectTransport::Fake(_) => DirectFormat::Pcm(
                DirectPcmFormat {
                    sample_rate: 44_100,
                    channels: 2,
                    valid_bits: 16,
                    storage_bits: 16,
                    sample_format: DirectPcmSampleFormat::Signed16,
                    memory_path: DirectPcmMemoryPath::ZeroCopyPacked,
                },
            ),
        }
    }

    /// Asks for silence: PCM fades out, and DSD, which has no gain, drains.
    pub fn begin_fade_out(&mut self)
        requires
            old(self).wf(),
        ensures
            final(self).wf(),
            match (*old(self), *final(self)) {
                (DirectTransport::Pcm(a), DirectTransport::Pcm(b)) => {
                    &&& b.ring() == (crate::direct_pcm::ring::PcmRingView {
                        fade: a.ring().fade.begun(
                            a.format.storage_bits,
                            a.format.valid_bits,
                            a.format.sample_rate,
                        ),
                        ..a.ring()
                    })
                    &&& b.keeps_all_but_ring(&a)
                },
                (DirectTransport::Dsd(a), DirectTransport::Dsd(b)) => {
                    &&& b.ring() == (crate::direct_dsd::ring::RingView {
                        drain_requested: true,
                        ..a.ring()
                    })
                    &&& b.keeps_all_but_ring(&a)
                },
                (DirectTransport::Fake(a), DirectTransport::Fake(b)) => a == b,
                _ => false,
            },
    {
        match self {
            DirectTransport::Pcm(s) => s.begin_fade_out(),
            DirectTransport::Dsd(s) => s.begin_drain(),
            DirectTransport::Fake(_) => {},
        }
    }

    /// Whether every block from now on is silence. DSD is judged by its drain
    /// alone.
    pub fn is_faded_out(&self) -> (r: bool)
        ensures
            r == match self {
                DirectTransport::Pcm(s) => s.ring().fade.silent,
                _ => true,
            },
    {
        match self {
            DirectTransport::Pcm(s) => s.is_faded_out(),
            DirectTransport::Dsd(_) => true,
            DirectTransport::Fake(_) => true,
        }
    }

    /// Whether a wait for a soft pause is over, once silence was asked for: the
    /// device has got a block of it, so that playback may stop without a step.
    pub fn soft_paused(&self) -> (r: bool)
        ensures
            r == match self {
                DirectTransport::Pcm(s) => s.ring().fade.silent && s.ring().fade.silence_blocks
                    >= 1,
                DirectTransport::Dsd(s) => s.ring().drain_requested && s.ring().silence_blocks
                    >= 1,
                DirectTransport::Fake(_) => true,
            },
    {
        match self {
            DirectTransport::Pcm(s) => s.wait_fade_drained(1),
            DirectTransport::Dsd(s) => s.wait_soft_pause(),
            DirectTransport::Fake(_) => true,
        }
    }

    /// Ends the silence without a fade, so that the next block joins the last.
    pub fn resume_handoff_no_fade(&mut self)
        requires
            old(self).wf(),
        ensures
            final(self).wf(),
            match (*old(self), *final(self)) {
                (DirectTransport::Pcm(a), DirectTransport::Pcm(b)) => {
                    &&& b.ring() == (crate::direct_pcm::ring::PcmRingView {
                        fade: a.ring().fade.cleared(),
                        ..a.ring()
                    })
                    &&& b.keeps_all_but_ring(&a)
                },
                (DirectTransport::Dsd(a), DirectTransport::Dsd(b)) => {
                    &&& b.ring() == (crate::direct_dsd::ring::RingView {
                        drain_requested: false,
                        silence_blocks: 0,
                        silence_micros: 0,
                        ..a.ring()
                    })
                    &&& b.keeps_all_but_ring(&a)
                },
                (DirectTransport::Fake(a), DirectTransport::Fake(b)) => a == b,
                _ => false,
            },
    {
        match self {
            DirectTransport::Pcm(s) => s.monitor.ring.fade.reset(),
            DirectTransport::Dsd(s) => s.clear_drain(),
            DirectTransport::Fake(_) => {},
        }
    }
}

/// A position: so many microseconds, and so many units of which so many make a
/// second.
#[derive(Debug, Clone, Copy, PartialEq, Eq, Structural)]
pub struct DirectPosition {
    pub base_micros: i128,
    pub units: u64,
    pub units_per_second: u32,
}

impl DirectPosition {
    /// Whether the position lies after a time in microseconds.
    pub open spec fn after(self, micros: int) -> bool {
        self.units * 1_000_000 > (micros - self.base_micros) * self.units_per_second
    }
}

/// How the wait for the first block goes on.
#[derive(Debug, Clone, Copy, PartialEq, Eq, Structural)]
pub enum StartStep {
    /// Playback has begun.
    Started,
    /// It cannot begin.
    Refused(DirectError),
    /// It has not begun in time.
    TimedOut,
    /// Wait so many milliseconds.
    Wait(u64),
}

/// The outcome of the wait: an error where playback has not begun.
pub fn start_outcome(step: StartStep) -> (r: Result<(), DirectError>)
    ensures
        r == match step {
            StartStep::Refused(e) => Err::<(), DirectError>(e),
            StartStep::TimedOut => Err(DirectError::NotStarted),
            _ => Ok(()),
        },
{
    match step {
        StartStep::Refused(e) => Err(e),
        StartStep::TimedOut => Err(DirectError::NotStarted),
        StartStep::Started => Ok(()),
        StartStep::Wait(_) => Ok(()),
    }
}

/// Playback of a source on a connection. Times are in microseconds.
pub struct DirectPlayback {
    pub duration: u64,
    /// Where in the source playback began, by the last seek.
    pub seek_base: i128,
    /// Changes of source up to that seek.
    pub seek_transition_count: u64,
    /// Where the source begins in its file.
    pub start_offset: u64,
    pub selector: String,
    pub source: String,
    pub transport: DirectTransport,
}

/// How another source is put in place of the current one.
pub struct HandoffPlan {
    pub plan: SourcePlan,
    /// The staged source to use, by its generation.
    pub staged_generation: Option<u64>,
}

/// Where playback began in a source, never before its start.
pub open spec fn base_from(actual: u64, start: u64) -> int {
    if actual > start {
        actual - start
    } else {
        0
    }
}

/// What came of loading a source: it took over a connection that was there, or
/// has a new one that is still to be put in place.
pub enum DirectLoadOutcome<M> {
    Handoff(M),
    FullReconnect { metadata: M, playback: DirectPlayback, token: u64 },
}

impl DirectPlayback {
    /// The playback's invariant.
    pub open spec fn wf(&self) -> bool {
        &&& self.transport.wf()
        &&& -(u64::MAX as int) <= self.seek_base <= u64::MAX
    }

    /// Playback of an imagined source.
    pub fn fake(duration: u64, auto_play: bool) -> (r: Self)
        ensures
            r.wf(),
            r.duration == duration,
            r.seek_base == 0,
            r.seek_transition_count == 0,
            r.start_offset == 0,
            r.selector@ == Seq::<char>::empty(),
            r.source@ == Seq::<char>::empty(),
            r.transport == DirectTransport::Fake(
                (FakeDirectState {
                    position_micros: 0,
                    playing: auto_play,
                    failed: false,
                    finished: false,
                }),
            ),
    {
        let none: Vec<char> = Vec::new();
        DirectPlayback {
            duration,
            seek_base: 0,
            seek_transition_count: 0,
            start_offset: 0,
            selector: to_text(none.as_slice()),
            source: to_text(none.as_slice()),
            transport: DirectTransport::Fake(FakeDirectState::new(auto_play)),
        }
    }

    /// The duration of a source that was opened: what its plan says, or for DSD
    /// what its file says where the plan knows none.
    pub open spec fn opened_duration(planned: u64, transport: DirectTransport) -> u64 {
        match transport {
            DirectTransport::Dsd(s) => known_or(planned, s.ring().duration_micros),
            _ => planned,
        }
    }

    /// Playback of a source that was opened by its plan, at a position that was
    /// reached in its file. A PCM stream is told its duration.
    pub fn opened(
        selector: String,
        source: String,
        plan: &SourcePlan,
        transport: DirectTransport,
        actual_position: u64,
    ) -> (r: Self)
        requires
            transport.wf(),
        ensures
            r.wf(),
            r.selector@ == selector@,
            r.source@ == source@,
            r.start_offset == plan.start,
            r.seek_base == base_from(actual_position, plan.start),
            r.seek_transition_count == 0,
            r.duration == Self::opened_duration(plan.duration, transport),
            match (transport, r.transport) {
                (DirectTransport::Pcm(a), DirectTransport::Pcm(b)) => {
                    &&& b.ring() == (crate::direct_pcm::ring::PcmRingView {
                        duration_micros: plan.duration,
                        ..a.ring()
                    })
                    &&& b.keeps_all_but_ring(&a)
                },
                (a, b) => !(a is Pcm) && a == b,
            },
    {
        let mut transport = transport;
        let mut duration: u64 = plan.duration;
        match &mut transport {
            DirectTransport::Pcm(s) => s.set_duration(plan.duration),
            DirectTransport::Dsd(s) => {
                duration = known_duration(plan.duration, s.monitor.duration_micros());
            },
            DirectTransport::Fake(_) => {},
        }
        DirectPlayback {
            duration,
            seek_base: if actual_position > plan.start {
                (actual_position - plan.start) as i128
            } else {
                0
            },
            seek_transition_count: 0,
            start_offset: plan.start,
            selector,
            source,
            transport,
        }
    }

    /// The stream as the control side sees it.
    pub open spec fn monitored(&self) -> DirectMonitor<'_> {
        self.transport.monitored()
    }

    /// The stream as the control side sees it.
    pub fn monitor(&self) -> (r: DirectMonitor<'_>)
        ensures
            r == self.monitored(),
    {
        self.transport.monitor()
    }

    /// Settles how another source is put in place of the current one, on the same
    /// connection. A PCM stream is told the duration first, so that the boundary
    /// carries it; only PCM takes a source that was staged. An imagined source is
    /// replaced at once.
    pub fn handoff_drained_source(
        &mut self,
        source: &str,
        open_path: Option<&str>,
        times: SourceTimes,
        staged_generation: Option<u64>,
    ) -> (r: Result<HandoffPlan, DirectError>)
        requires
            old(self).wf(),
        ensures
            final(self).wf(),
            ({
                let is_dsd = leads_to_dsd(source_file(source@, times));
                let opened = match open_path {
                    Some(p) => Some(p@),
                    None => None,
                };
                match old(self).transport {
                    DirectTransport::Pcm(a) => if is_dsd {
                        &&& r matches Err(e) && e == DirectError::PcmToDsd
                        &&& *final(self) == *old(self)
                    } else {
                        &&& r matches Ok(h) && is_plan_of(h.plan, source@, opened, times)
                            && h.staged_generation == staged_generation && {
                            &&& final(self).transport matches DirectTransport::Pcm(b)
                            &&& b.keeps_all_but_ring(&a)
                            &&& b.ring() == (crate::direct_pcm::ring::PcmRingView {
                                duration_micros: h.plan.duration,
                                ..a.ring()
                            })
                        }
                        &&& final(self).keeps_times(old(self))
                    },
                    DirectTransport::Dsd(_) => {
                        &&& *final(self) == *old(self)
                        &&& if is_dsd {
                            r matches Ok(h) && is_plan_of(h.plan, source@, opened, times)
                                && h.staged_generation is None
                        } else {
                            r matches Err(e) && e == DirectError::DsdToPcm
                        }
                    },
                    DirectTransport::Fake(_) => {
                        &&& r matches Ok(h) && is_plan_of(h.plan, source@, opened, times)
                            && h.staged_generation is None && *final(self) == (DirectPlayback {
                            duration: times.duration,
                            start_offset: h.plan.start,
                            seek_base: 0,
                            ..*old(self)
                        })
                    },
                }
            }),
    {
        let plan = plan_source(source, open_path, times);
        match &mut self.transport {
            DirectTransport::Pcm(s) => {
                if plan.is_dsd {
                    return Err(DirectError::PcmToDsd);
                }
                s.set_duration(plan.duration);
                Ok(HandoffPlan { plan, staged_generation })
            },
            DirectTransport::Dsd(_) => {
                if !plan.is_dsd {
                    return Err(DirectError::DsdToPcm);
                }
                Ok(HandoffPlan { plan, staged_generation: None })
            },
            DirectTransport::Fake(_) => {
                self.duration = times.duration;
                self.start_offset = plan.start;
                self.seek_base = 0;
                Ok(HandoffPlan { plan, staged_generation: None })
            },
        }
    }

    /// Whether all but the transport is as before.
    pub open spec fn keeps_times(&self, before: &DirectPlayback) -> bool {
        &&& self.duration == before.duration
        &&& self.seek_base == before.seek_base
        &&& self.seek_transition_count == before.seek_transition_count
        &&& self.start_offset == before.start_offset
        &&& self.selector == before.selector
        &&& self.source == before.source
    }

    /// Records that the source was replaced on the connection: positions count
    /// from the start of the new one.
    pub fn handed_off(&mut self, source: String, plan: &SourcePlan)
        requires
            old(self).wf(),
        ensures
            final(self).wf(),
            final(self).source@ == source@,
            final(self).duration == plan.duration,
            final(self).start_offset == plan.start,
            final(self).seek_base == 0,
            final(self).seek_transition_count == old(self).monitored().transitions(),
            final(self).transport == old(self).transport,
            final(self).selector == old(self).selector,
    {
        self.source = source;
        self.duration = plan.duration;
        self.start_offset = plan.start;
        self.seek_base = 0;
        self.seek_transition_count = self.transport.monitor().transition_count();
    }

    /// Records that a staged source has begun: `start` is where it begins in its
    /// file.
    pub fn commit_gapless_boundary(&mut self, source: String, duration: u64, start: u64)
        requires
            old(self).wf(),
        ensures
            final(self).wf(),
            final(self).source@ == source@,
            final(self).duration == duration,
            final(self).start_offset == start,
            final(self).seek_base == 0,
            final(self).seek_transition_count == old(self).monitored().transitions(),
            final(self).transport == old(self).transport,
            final(self).selector == old(self).selector,
    {
        self.source = source;
        self.duration = duration;
        self.start_offset = start;
        self.seek_base = 0;
        self.seek_transition_count = self.transport.monitor().transition_count();
    }

    /// Where in the file a seek in the source leads. A negative position is the
    /// start.
    pub open spec fn seek_goal(&self, position: int) -> int {
        at_most_u64(
            self.start_offset + if position > 0 {
                position
            } else {
                0
            },
        )
    }

    /// The position in the source of one in the file.
    pub open spec fn in_source(&self, position: int) -> int {
        position - self.start_offset
    }

    /// Where in the file a seek in the source leads.
    pub fn seek_target(&self, position: i64) -> (r: u64)
        ensures
            r == self.seek_goal(position as int),
    {
        let forward: u64 = if position > 0 {
            position as u64
        } else {
            0
        };
        match self.start_offset.checked_add(forward) {
            Some(target) => target,
            None => u64::MAX,
        }
    }

    /// Records the position in the file that a seek reached, and returns the one
    /// in the source. An imagined source starts to count anew.
    pub fn seek_while_paused(&mut self, actual_position: u64) -> (r: i128)
        requires
            old(self).wf(),
        ensures
            final(self).wf(),
            r == old(self).in_source(actual_position as int),
            final(self).seek_base == r,
            final(self).seek_transition_count == old(self).monitored().transitions(),
            final(self).transport == match old(self).transport {
                DirectTransport::Fake(f) => DirectTransport::Fake(
                    (FakeDirectState { position_micros: 0, ..f }),
                ),
                other => other,
            },
            final(self).start_offset == old(self).start_offset,
            final(self).duration == old(self).duration,
            final(self).source == old(self).source,
            final(self).selector == old(self).selector,
    {
        match &mut self.transport {
            DirectTransport::Fake(f) => f.set_position(0),
            _ => {},
        }
        self.seek_base = actual_position as i128 - self.start_offset as i128;
        self.seek_transition_count = self.transport.monitor().transition_count();
        self.seek_base
    }

    /// Where playback is: after the last seek, unless the source has changed
    /// since.
    pub open spec fn place(&self) -> DirectPosition {
        DirectPosition {
            base_micros: if self.monitored().transitions() == self.seek_transition_count {
                self.seek_base
            } else {
                0
            },
            units: self.monitored().units(),
            units_per_second: self.monitored().units_per_second(),
        }
    }

    /// Where playback is.
    pub fn position(&self) -> (r: DirectPosition)
        ensures
            r == self.place(),
            self.monitored().transitions() == self.seek_transition_count ==> r.base_micros
                == self.seek_base,
            self.monitored().transitions() != self.seek_transition_count ==> r.base_micros == 0,
            match self.transport {
                DirectTransport::Pcm(s) => r.units == s.ring().consumed_frames
                    && r.units_per_second == s.monitor.sample_rate,
                DirectTransport::Dsd(s) => r.units == s.ring().consumed_bits_per_channel
                    && r.units_per_second == s.monitor.bit_rate,
                DirectTransport::Fake(f) => r.units == f.position_micros && r.units_per_second
                    == 1_000_000,
            },
    {
        let monitor = self.transport.monitor();
        let (units, units_per_second) = monitor.consumed_position();
        let base_micros: i128 = if monitor.transition_count() == self.seek_transition_count {
            self.seek_base
        } else {
            0
        };
        DirectPosition { base_micros, units, units_per_second }
    }

    /// The duration: what the stream says, or else what was given.
    pub fn duration(&self) -> (r: u64)
        ensures
            r == known_or(self.monitored().stated_duration(), self.duration),
    {
        known_duration(self.transport.monitor().duration(), self.duration)
    }

    /// Where in the source playback began.
    pub fn seek_base(&self) -> (r: i128)
        ensures
            r == self.seek_base,
    {
        self.seek_base
    }

    /// Changes of source that the device has reached.
    pub fn transition_count(&self) -> (r: u64)
        ensures
            r == self.monitored().transitions(),
    {
        self.transport.monitor().transition_count()
    }

    /// Whether the stream has failed.
    pub fn failed(&self) -> (r: bool)
        ensures
            r == self.monitored().has_failed(),
    {
        self.transport.monitor().failed()
    }

    /// Whether all was played.
    pub fn finished(&self) -> (r: bool)
        ensures
            r == self.monitored().is_over(),
    {
        self.transport.monitor().finished()
    }

    /// How long to wait for the first block, in milliseconds.
    pub open spec fn start_timeout(&self) -> u64 {
        if self.monitored().high_rate() {
            DIRECT_START_TIMEOUT_HIGH_RATE_MS
        } else {
            DIRECT_START_TIMEOUT_MS
        }
    }

    /// One round of the wait for the device to play the first block, `elapsed`
    /// milliseconds after its begin: a newer load comes first, then a failure,
    /// then the start of playback, then the end of the source, then the time.
    pub open spec fn start_step(&self, current_token: u64, token: u64, elapsed: u64) -> StartStep {
        let timeout = self.start_timeout();
        if current_token != token {
            StartStep::Refused(DirectError::Superseded(LoadSuperseded))
        } else if self.monitored().has_failed() {
            StartStep::Refused(DirectError::FailedBeforeStart)
        } else if self.place().after(self.seek_base as int) {
            StartStep::Started
        } else if self.monitored().is_over() {
            StartStep::Refused(DirectError::EndedBeforeStart)
        } else if elapsed >= timeout {
            StartStep::TimedOut
        } else if timeout - elapsed < DIRECT_START_POLL_MS {
            StartStep::Wait((timeout - elapsed) as u64)
        } else {
            StartStep::Wait(DIRECT_START_POLL_MS)
        }
    }

    /// One round of the wait for the device to play the first block.
    pub fn wait_for_direct_start(&self, current_token: u64, token: u64, elapsed: u64) -> (r:
        StartStep)
        requires
            self.wf(),
        ensures
            r == self.start_step(current_token, token, elapsed),
    {
        if current_token != token {
            return StartStep::Refused(DirectError::Superseded(LoadSuperseded));
        }
        if self.failed() {
            return StartStep::Refused(DirectError::FailedBeforeStart);
        }
        let place = self.position();
        proof {
            let gap = self.seek_base - place.base_micros;
            let rate = place.units_per_second as int;
            assert(-0x1_0000_0000_0000_0000 * 0x1_0000_0000 <= gap * rate <= 0x1_0000_0000_0000_0000
                * 0x1_0000_0000) by (nonlinear_arith)
                requires
                    -0x1_0000_0000_0000_0000 <= gap <= 0x1_0000_0000_0000_0000,
                    0 <= rate <= 0x1_0000_0000,
            ;
        }
        let played: i128 = place.units as i128 * 1_000_000;
        let owed: i128 = (self.seek_base - place.base_micros) * place.units_per_second as i128;
        if played > owed {
            return StartStep::Started;
        }
        if self.finished() {
            return StartStep::Refused(DirectError::EndedBeforeStart);
        }
        let timeout: u64 = if self.transport.monitor().is_high_rate() {
            DIRECT_START_TIMEOUT_HIGH_RATE_MS
        } else {
            DIRECT_START_TIMEOUT_MS
        };
        if elapsed >= timeout {
            return StartStep::TimedOut;
        }
        if timeout - elapsed < DIRECT_START_POLL_MS {
            StartStep::Wait(timeout - elapsed)
        } else {
            StartStep::Wait(DIRECT_START_POLL_MS)
        }
    }

    /// Lets an imagined source play.
    pub fn play(&mut self)
        ensures
            *final(self) == (DirectPlayback {
                transport: old(self).transport.with_playing(true),
                ..*old(self)
            }),
    {
        match &mut self.transport {
            DirectTransport::Fake(f) => {
                f.playing = true;
            },
            _ => {},
        }
    }

    /// Lets an imagined source pause.
    pub fn pause(&mut self)
        ensures
            *final(self) == (DirectPlayback {
                transport: old(self).transport.with_playing(false),
                ..*old(self)
            }),
    {
        match &mut self.transport {
            DirectTransport::Fake(f) => {
                f.playing = false;
            },
            _ => {},
        }
    }
}

impl DirectTransport {
    /// An imagined connection that plays or does not; others as they are.
    pub open spec fn with_playing(self, playing: bool) -> DirectTransport {
        match self {
            DirectTransport::Fake(f) => DirectTransport::Fake(
                (FakeDirectState { playing, ..f }),
            ),
            other => other,
        }
    }
}

// ---------------------------------------------------------------------------
// Laws
// ---------------------------------------------------------------------------

/// The position of a native stream that was opened at a bit and played to its end
/// is its duration from there: the bits of a channel over the bit rate of its
/// format. On the way it never exceeds that.
pub proof fn law_played_dsd_stands_at_its_duration(
    reader: DirectDsdReader,
    position_bits: u64,
    duration_micros: u64,
    states: Seq<DirectDsdSource>,
    events: Seq<PlayEvent>,
)
    requires
        reader.wf(),
        8 * reader.total() <= u64::MAX,
        started_at(reader, position_bits) < reader.total(),
        is_playing(states, events),
        states[0].opened_at(reader, position_bits, duration_micros),
    ensures
        ({
            let last = states.last();
            let monitor = DirectMonitor::Dsd(&last.monitor);
            let left = 8 * (reader.total() - started_at(reader, position_bits));
            &&& monitor.units_per_second() == reader.format_spec().bit_rate
            &&& monitor.units() <= left
            &&& last.ring().played_out() ==> monitor.units() == left
        }),
{
    law_source_hands_out_the_stream_in_order(
        reader,
        position_bits,
        duration_micros,
        states,
        events,
    );
    law_source_keeps_its_rate(states, events);
    reader.lemma_channels();
    let start = started_at(reader, position_bits);
    let ch = reader.ch();
    let count = handed_out(states, events).len() as int / ch;
    if states.last().ring().played_out() {
        vstd::arithmetic::div_mod::lemma_fundamental_div_mod_converse(
            (reader.total() - start) * ch,
            ch,
            reader.total() - start,
            0,
        );
        assert(0 <= (reader.total() - start) * ch) by (nonlinear_arith)
            requires
                0 <= reader.total() - start,
                0 < ch,
        ;
    }
    assert(0 <= count) by (nonlinear_arith)
        requires
            count == handed_out(states, events).len() as int / ch,
            0 < ch,
    ;
}

/// The position of a PCM stream is the samples of its source that were played over
/// the sample rate of its format.
pub proof fn law_played_pcm_stands_at_its_samples(
    frame: PcmFrame,
    states: Seq<DirectPcmSource>,
    events: Seq<PcmPlayEvent>,
)
    requires
        crate::direct_pcm::runs::is_playing(states, events),
        forall|i: int|
            0 <= i < events.len() ==> (#[trigger] states[i + 1]).keeps_rest(&states[i]),
        states[0].opened_with(frame),
        playable(taken(part_of(frame, false), states, events)),
        position_after(taken(part_of(frame, false), states, events)) <= u64::MAX,
    ensures
        ({
            let last = states.last();
            let monitor = DirectMonitor::Pcm(&last.monitor);
            &&& monitor.units_per_second() == frame.format.sample_rate
            &&& last.ring().played_out() ==> monitor.units() == position_after(
                taken(part_of(frame, false), states, events),
            )
        }),
{
    let start = part_of(frame, false);
    let parts = taken(start, states, events);
    law_opened_pcm_stands_at_its_start(states[0], frame);
    law_pcm_source_hands_out_its_frames_in_order(start, states, events);
    law_pcm_source_keeps_its_rate(states, events);
    assert(parts.take(parts.len() as int) =~= parts);
}

/// After an accurate seek a position in the source comes back as it was asked
/// for, whatever the source's place in its file; one before its start is the
/// start.
pub proof fn law_seek_keeps_source_coordinates(playback: DirectPlayback, position: int)
    requires
        playback.start_offset + position <= u64::MAX,
    ensures
        playback.in_source(playback.seek_goal(position)) == if position > 0 {
            position
        } else {
            0
        },
        playback.seek_goal(0) == playback.start_offset,
        playback.seek_goal(u64::MAX as int) == u64::MAX,
{
}

/// Until the device has played something since the last seek, playback counts as
/// not begun; anything that was played since makes it begun.
pub proof fn law_start_is_the_first_block_played(playback: DirectPlayback)
    requires
        playback.monitored().transitions() == playback.seek_transition_count,
    ensures
        playback.place().after(playback.seek_base as int) == (playback.monitored().units() > 0),
{
    let rate = playback.place().units_per_second as int;
    assert((playback.seek_base - playback.place().base_micros) * rate == 0) by (nonlinear_arith)
        requires
            playback.seek_base - playback.place().base_micros == 0,
    ;
}

/// A load that gave way is never reported as a failure, and a wait never ends by
/// the clock while playback has begun.
pub proof fn law_start_verdicts_are_ordered(
    playback: DirectPlayback,
    current_token: u64,
    token: u64,
    elapsed: u64,
)
    ensures
        current_token != token ==> playback.start_step(current_token, token, elapsed)
            == StartStep::Refused(DirectError::Superseded(LoadSuperseded)),
        playback.start_step(current_token, token, elapsed) == StartStep::TimedOut
            ==> !playback.place().after(playback.seek_base as int)
            && !playback.monitored().has_failed() && elapsed >= DIRECT_START_TIMEOUT_MS,
        playback.start_step(current_token, token, elapsed) matches StartStep::Wait(ms) ==> 0 < ms
            <= DIRECT_START_POLL_MS && elapsed + ms <= playback.start_timeout(),
{
}

/// A source fits at most one kind of connection, and always one.
pub proof fn law_a_source_fits_one_kind_of_connection(is_dsd: bool)
    ensures
        (family_error(TransportKind::Pcm, is_dsd) is None) != (family_error(
            TransportKind::Dsd,
            is_dsd,
        ) is None),
        family_error(TransportKind::Pcm, is_dsd) is None <==> !is_dsd,
        family_error(TransportKind::Pcm, true) == Some(DirectError::PcmToDsd),
        family_error(TransportKind::Dsd, false) == Some(DirectError::DsdToPcm),
{
}

/// A track of a cue sheet ends in its file as far behind its start as it lasts,
/// and other sources end with their file.
pub proof fn law_plan_bounds_the_track(
    plan: SourcePlan,
    source: Seq<char>,
    open_path: Option<Seq<char>>,
    times: SourceTimes,
)
    requires
        is_plan_of(plan, source, open_path, times),
        plan.start + plan.duration <= u64::MAX,
    ensures
        is_cue_track(source, times) ==> plan.stop == plan.start + plan.duration,
        !is_cue_track(source, times) ==> plan.start == 0 && plan.stop == 0,
{
}

/// A setting switches off by four words and by nothing else.
pub proof fn law_four_words_switch_off(setting: Seq<char>)
    ensures
        !switched_off(None),
        switched_off(Some(setting)) <==> {
            ||| setting == seq!['0']
            ||| setting == seq!['f', 'a', 'l', 's', 'e']
            ||| setting == seq!['o', 'f', 'f']
            ||| setting == seq!['O', 'F', 'F']
        },
{
    reveal_strlit("0");
    reveal_strlit("false");
    reveal_strlit("off");
    reveal_strlit("OFF");
    assert("0"@ =~= seq!['0']);
    assert("false"@ =~= seq!['f', 'a', 'l', 's', 'e']);
    assert("off"@ =~= seq!['o', 'f', 'f']);
    assert("OFF"@ =~= seq!['O', 'F', 'F']);
}

/// What a playback tells of itself is what the ring of its stream counts: its
/// failure, its changes of source and its duration. It is over once the source is
/// at its end, the device holds no block and none waits.
pub proof fn law_a_playback_is_told_by_its_ring(transport: DirectTransport)
    ensures
        match transport {
            DirectTransport::Pcm(s) => {
                let m = transport.monitored();
                &&& m.has_failed() == s.ring().failed
                &&& m.transitions() == s.ring().transition_count
                &&& m.stated_duration() == s.ring().duration_micros
                &&& m.is_over() ==> s.ring().finished && s.ring().in_flight is None
                &&& m.is_over() ==> forall|i: int|
                    0 <= i < s.ring().slots.len() ==> !((#[trigger] s.ring().slots[i]).state
                        is Ready)
                &&& m.high_rate() == (s.monitor.sample_rate > 96_000)
            },
            DirectTransport::Dsd(s) => {
                let m = transport.monitored();
                &&& m.has_failed() == s.ring().failed
                &&& m.transitions() == s.ring().transition_count
                &&& m.stated_duration() == s.ring().duration_micros
                &&& m.is_over() ==> s.ring().finished && s.ring().in_flight is None
                &&& m.is_over() ==> forall|i: int|
                    0 <= i < s.ring().slots.len() ==> !((#[trigger] s.ring().slots[i]).state
                        is Ready)
                &&& m.high_rate()
            },
            DirectTransport::Fake(f) => {
                let m = transport.monitored();
                &&& m.has_failed() == f.failed
                &&& m.is_over() == f.finished
                &&& m.transitions() == 0 && m.stated_duration() == 0
                &&& !m.high_rate()
            },
        },
{
}

/// A stream that is at its end, with every slot free and none in the device's
/// hands, is over.
pub proof fn law_an_empty_ring_at_its_end_is_over(transport: DirectTransport)
    requires
        match transport {
            DirectTransport::Pcm(s) => s.ring().finished && s.ring().in_flight is None && forall|
                i: int,
            |
                0 <= i < s.ring().slots.len() ==> (#[trigger] s.ring().slots[i]).state is Free,
            DirectTransport::Dsd(s) => s.ring().finished && s.ring().in_flight is None && forall|
                i: int,
            |
                0 <= i < s.ring().slots.len() ==> (#[trigger] s.ring().slots[i]).state is Free,
            DirectTransport::Fake(f) => f.finished,
        },
    ensures
        transport.monitored().is_over(),
{
}

/// A load that is still wanted and has not failed is waited for: two seconds, or
/// five for DSD and for PCM above 96 kHz, a tenth of a second at a time. It has
/// begun with the first block that is played.
pub proof fn law_a_start_is_waited_for(playback: DirectPlayback, token: u64, elapsed: u64)
    requires
        !playback.monitored().has_failed(),
    ensures
        ({
            let step = playback.start_step(token, token, elapsed);
            let begun = playback.place().after(playback.seek_base as int);
            let over = playback.monitored().is_over();
            let limit: int = match playback.transport {
                DirectTransport::Pcm(s) => if s.monitor.sample_rate > 96_000 {
                    5_000
                } else {
                    2_000
                },
                DirectTransport::Dsd(_) => 5_000,
                DirectTransport::Fake(_) => 2_000,
            };
            &&& step == StartStep::Started <==> begun
            &&& step == StartStep::Refused(DirectError::EndedBeforeStart) <==> !begun && over
            &&& step == StartStep::TimedOut <==> !begun && !over && elapsed >= limit
            &&& step matches StartStep::Wait(ms) ==> 0 < ms <= 100 && elapsed + ms <= limit && (ms
                == 100 || elapsed + ms == limit)
        }),
{
}

/// The first thing looked at is whether the load is still wanted, the second
/// whether it failed.
pub proof fn law_a_failed_start_is_told(
    playback: DirectPlayback,
    current_token: u64,
    token: u64,
    elapsed: u64,
)
    requires
        playback.monitored().has_failed(),
    ensures
        playback.start_step(current_token, token, elapsed) == StartStep::Refused(
            if current_token == token {
                DirectError::FailedBeforeStart
            } else {
                DirectError::Superseded(LoadSuperseded)
            },
        ),
{
}

/// A duration that is known stands; 0 is none. Where a file is opened behind the
/// start of its source, playback counts from there.
pub proof fn law_known_durations_stand(known: u64, other: u64, actual: u64, start: u64)
    ensures
        known > 0 ==> known_or(known, other) == known,
        known_or(0, other) == other,
        actual >= start ==> base_from(actual, start) + start == actual,
        actual < start ==> base_from(actual, start) == 0,
{
}

/// A plan keeps what is known of its source. A track of a cue sheet is the part of
/// its file that the sheet gives; any other source is all of its file.
pub proof fn law_a_plan_keeps_what_is_known(
    plan: SourcePlan,
    source: Seq<char>,
    open_path: Option<Seq<char>>,
    times: SourceTimes,
)
    requires
        is_plan_of(plan, source, open_path, times),
    ensures
        open_path matches Some(p) ==> plan.open_path@ == p,
        open_path is None ==> plan.open_path@ == plan.path@,
        plan.is_dsd == leads_to_dsd(plan.path@),
        virtual_parts(source) is None || times.cue is None ==> {
            &&& plan.path@ == source
            &&& plan.start == 0
            &&& plan.stop == 0
            &&& (times.sacd_duration matches Some(d) ==> (d > 0 ==> plan.duration == d))
            &&& times.sacd_duration is None || times.sacd_duration == Some(0u64) ==> plan.duration
                == times.duration
        },
        times.cue is Some ==> (virtual_parts(source) matches Some((path, _, _, _)) ==> plan.path@
            == path),
        virtual_parts(source) is Some ==> (times.cue matches Some((start, lasts)) ==> {
            &&& plan.start == start
            &&& lasts > 0 ==> plan.duration == lasts
            &&& lasts == 0 ==> plan.duration == times.duration
            &&& start + plan.duration <= u64::MAX ==> plan.stop == start + plan.duration
        }),
{
}

/// A file whose name has neither bar nor query is told by its extension, in either
/// case: `dsf` and `dff` are native DSD; these, `dsdiff` and `iso` lead to DSD.
pub proof fn law_dsd_is_told_by_its_extension(dir: Seq<char>, stem: Seq<char>, ext: Seq<char>)
    requires
        dir.len() > 0 && dir[0] != 'h',
        stem.len() > 0,
        ext.len() > 0,
        forall|k: int| 0 <= k < dir.len() ==> #[trigger] dir[k] != '|',
        forall|k: int| 0 <= k < stem.len() ==> #[trigger] stem[k] != '/' && stem[k] != '|',
        forall|k: int|
            0 <= k < ext.len() ==> #[trigger] ext[k] != '/' && ext[k] != '.' && ext[k] != '|',
    ensures
        ({
            let file = dir + seq!['/'] + (stem + seq!['.'] + ext);
            let low = ascii_lower_all(ext);
            &&& names_native_dsd(file) <==> low == seq!['d', 's', 'f'] || low == seq!['d', 'f', 'f']
            &&& leads_to_dsd(file) <==> {
                ||| low == seq!['d', 's', 'f']
                ||| low == seq!['d', 'f', 'f']
                ||| low == seq!['d', 's', 'd', 'i', 'f', 'f']
                ||| low == seq!['i', 's', 'o']
            }
        }),
{
    let name = stem + seq!['.'] + ext;
    let file = dir + seq!['/'] + name;
    let d = dir.len() as int;
    let n = stem.len() as int;
    assert forall|k: int| 0 <= k < file.len() implies #[trigger] file[k] != '|' by {
        if k < d {
            assert(file[k] == dir[k]);
        } else if d < k < d + 1 + n {
            assert(file[k] == stem[k - d - 1]);
        } else if k > d + 1 + n {
            assert(file[k] == ext[k - d - 2 - n]);
        }
    }
    crate::text::law_split_takes_off_the_first_piece(file, file, '|');
    crate::path::law_a_file_has_its_extension(dir, stem, ext);
    assert(file[0] == dir[0]);
    crate::direct_pcm::laws::law_network_sources_are_told_by_their_scheme(file, file);
    lemma_no_track_of_an_image(file);
    lemma_dsd_extensions();
}

proof fn lemma_dsd_extensions()
    ensures
        "dsf"@ == seq!['d', 's', 'f'],
        "dff"@ == seq!['d', 'f', 'f'],
        "dsdiff"@ == seq!['d', 's', 'd', 'i', 'f', 'f'],
        "iso"@ == seq!['i', 's', 'o'],
        ".iso|"@ == seq!['.', 'i', 's', 'o', '|'],
        ".ISO|"@ == seq!['.', 'I', 'S', 'O', '|'],
{
    reveal_strlit("dsf");
    reveal_strlit("dff");
    reveal_strlit("dsdiff");
    reveal_strlit("iso");
    reveal_strlit(".iso|");
    reveal_strlit(".ISO|");
}

proof fn lemma_no_track_of_an_image(file: Seq<char>)
    requires
        forall|k: int| 0 <= k < file.len() ==> #[trigger] file[k] != '|',
    ensures
        !contains_text(file, ".iso|"@),
        !contains_text(file, ".ISO|"@),
{
    lemma_dsd_extensions();
    if contains_text(file, ".iso|"@) {
        let at = choose|at: int| crate::text::occurs_at(file, ".iso|"@, at);
        assert(file.subrange(at, at + 5)[4] == file[at + 4]);
        assert(".iso|"@[4] == '|');
    }
    if contains_text(file, ".ISO|"@) {
        let at = choose|at: int| crate::text::occurs_at(file, ".ISO|"@, at);
        assert(file.subrange(at, at + 5)[4] == file[at + 4]);
        assert(".ISO|"@[4] == '|');
    }
}

/// A track of a disc image is DSD, wherever the image is.
pub proof fn law_tracks_of_an_image_are_dsd(image: Seq<char>, track: Seq<char>)
    ensures
        names_native_dsd(image + seq!['.', 'i', 's', 'o', '|'] + track),
        names_native_dsd(image + seq!['.', 'I', 'S', 'O', '|'] + track),
        leads_to_dsd(image + seq!['.', 'i', 's', 'o', '|'] + track),
        leads_to_dsd(image + seq!['.', 'I', 'S', 'O', '|'] + track),
{
    lemma_dsd_extensions();
    crate::text::law_a_text_is_found_where_it_stands(image, ".iso|"@, track);
    crate::text::law_a_text_is_found_where_it_stands(image, ".ISO|"@, track);
}

/// The query and the fragment of an address tell nothing of what it leads to.
pub proof fn law_a_query_tells_nothing(address: Seq<char>, query: Seq<char>, fragment: Seq<char>)
    requires
        is_http(address),
        virtual_parts(address) is None,
        virtual_parts(address + seq!['?'] + query) is None,
        virtual_parts(address + seq!['#'] + fragment) is None,
        forall|k: int| 0 <= k < address.len() ==> #[trigger] address[k] != '?' && address[k] != '#',
        forall|k: int| 0 <= k < query.len() ==> #[trigger] query[k] != '#',
    ensures
        telling_path(address) == address,
        telling_path(address + seq!['?'] + query) == address,
        telling_path(address + seq!['#'] + fragment) == address,
{
    let asked = address + seq!['?'] + query;
    let marked = address + seq!['#'] + fragment;
    let n = address.len() as int;
    lemma_still_http(address, seq!['?'] + query);
    lemma_still_http(address, seq!['#'] + fragment);
    assert(asked =~= address + (seq!['?'] + query));
    assert(marked =~= address + (seq!['#'] + fragment));
    lemma_up_to(address, '#', n);
    lemma_up_to(address, '?', n);
    assert forall|k: int| 0 <= k < asked.len() implies #[trigger] asked[k] != '#' by {
        if k < n {
            assert(asked[k] == address[k]);
        } else if k > n {
            assert(asked[k] == query[k - n - 1]);
        }
    }
    lemma_up_to(asked, '#', asked.len() as int);
    assert forall|k: int| 0 <= k < n implies #[trigger] asked[k] != '?' by {
        assert(asked[k] == address[k]);
    }
    lemma_up_to(asked, '?', n);
    assert(asked.take(n) =~= address);
    assert forall|k: int| 0 <= k < n implies #[trigger] marked[k] != '#' by {
        assert(marked[k] == address[k]);
    }
    lemma_up_to(marked, '#', n);
    assert(marked.take(n) =~= address);
    assert(address.take(n) =~= address);
    assert(asked.take(asked.len() as int) =~= asked);
}

proof fn lemma_up_to(s: Seq<char>, c: char, stop: int)
    requires
        0 <= stop <= s.len(),
        forall|k: int| 0 <= k < stop ==> #[trigger] s[k] != c,
        stop < s.len() ==> s[stop] == c,
    ensures
        up_to(s, c) == s.take(stop),
{
    let class = CharClass::Only(c);
    assert forall|k: int| 0 <= k < stop implies !class.has(#[trigger] s[k]) by {}
    crate::text::lemma_search_ends(s, class, 0, stop);
}

proof fn lemma_still_http(address: Seq<char>, more: Seq<char>)
    requires
        is_http(address),
    ensures
        is_http(address + more),
{
    if crate::text::begins_with(address, "http://"@) {
        let n = "http://"@.len() as int;
        assert((address + more).subrange(0, n) =~= address.subrange(0, n));
    } else {
        let n = "https://"@.len() as int;
        assert((address + more).subrange(0, n) =~= address.subrange(0, n));
    }
}

/// An imagined connection has the format of a compact disc, and playing and
/// pausing tell on it alone.
pub proof fn law_an_imagined_connection_plays(state: FakeDirectState, playing: bool)
    ensures
        fake_format().sample_rate == 44_100,
        fake_format().channels == 2,
        fake_format().valid_bits == 16,
        fake_format().storage_bits == 16,
        DirectTransport::Fake(state).with_playing(playing) matches DirectTransport::Fake(f)
            && f.playing == playing && f.position_micros == state.position_micros && f.failed
            == state.failed && f.finished == state.finished,
{
}

/// A position is where it began and what was played since: each second's worth of
/// units moves it by a million microseconds.
pub proof fn law_a_position_moves_by_the_second(place: DirectPosition, seconds: int, micros: int)
    requires
        0 < place.units_per_second,
        0 <= seconds,
        place.units == seconds * place.units_per_second,
    ensures
        place.after(micros) <==> place.base_micros + 1_000_000 * seconds > micros,
{
    let rate = place.units_per_second as int;
    let gap = micros - place.base_micros;
    assert(place.units * 1_000_000 == (1_000_000 * seconds) * rate) by (nonlinear_arith)
        requires
            place.units == seconds * rate,
    ;
    if 1_000_000 * seconds > gap {
        assert((1_000_000 * seconds) * rate > gap * rate) by (nonlinear_arith)
            requires
                1_000_000 * seconds > gap,
                0 < rate,
        ;
    } else {
        assert((1_000_000 * seconds) * rate <= gap * rate) by (nonlinear_arith)
            requires
                1_000_000 * seconds <= gap,
                0 < rate,
        ;
    }
}

/// What keeps its times keeps its duration, its place in the file, what it was last
/// moved to, and its names.
pub proof fn law_a_handoff_keeps_the_times(before: DirectPlayback, after: DirectPlayback)
    requires
        after.keeps_times(&before),
    ensures
        after.duration == before.duration,
        after.start_offset == before.start_offset,
        after.seek_base == before.seek_base,
        after.seek_transition_count == before.seek_transition_count,
        after.selector == before.selector,
        after.source == before.source,
{
}

} // verus!
