//! The decisions of the output that writes into a sound card's own buffer: what
//! is negotiated, how much is written when, how silence frames the sound, and
//! how the card recovers.

use vstd::prelude::*;

use crate::direct_dsd::reader::DirectDsdReader;
use crate::direct_dsd::repack::{adapt_dsd_bit_order, adapted};
use crate::direct_dsd::ring::DSD_SILENCE_BYTE;
use crate::direct_dsd::DirectDsdBitOrder;
use crate::number::{parse_unsigned, unsigned_value};
use crate::text::{
    begins_with, find_in_class, is_literal, next_in_class, part, starts_with, to_chars, to_text,
    trim_ws, trimmed, CharClass,
};

verus! {

/// Errors in a row after which the output has failed.
pub const MAX_CONTIGUOUS_ERRORS: u32 = 50;

/// Longest wait for the device, in milliseconds.
pub const WAIT_CEILING_MS: u32 = 50;

/// Milliseconds of sound that the device's buffer is filled with.
pub const HW_HIGH_WATERMARK_MS: u64 = 200;

/// Frames written at a time.
pub const MAX_WRITE_FRAMES: usize = 4096;

/// Highest sample rate that is asked for: above it lie only the rates of decoded
/// DSD.
pub const MAX_SAFE_SAMPLE_RATE: u32 = 1_000_000;

// ---------------------------------------------------------------------------
// Negotiation
// ---------------------------------------------------------------------------

/// Sample formats of the device.
#[derive(Debug, Clone, Copy, PartialEq, Eq, Structural)]
pub enum AlsaFormat {
    S32,
    S24,
    S16,
}

/// Picks the widest sample format that a device has.
pub fn choose_format(has_s32: bool, has_s24: bool, has_s16: bool) -> (r: Option<AlsaFormat>)
    ensures
        r == if has_s32 {
            Some(AlsaFormat::S32)
        } else if has_s24 {
            Some(AlsaFormat::S24)
        } else if has_s16 {
            Some(AlsaFormat::S16)
        } else {
            None
        },
{
    if has_s32 {
        Some(AlsaFormat::S32)
    } else if has_s24 {
        Some(AlsaFormat::S24)
    } else if has_s16 {
        Some(AlsaFormat::S16)
    } else {
        None
    }
}

/// Why a sample rate is refused.
#[derive(Debug, Clone, Copy, PartialEq, Eq, Structural)]
pub enum RateError {
    /// The rate is beyond what is safe to ask for.
    TooHigh(u32),
    /// The device would use another rate, and sound would be resampled.
    Inexact { wanted: u32, actual: u32 },
}

/// The rate to ask a device for; 48 kHz where none is wanted.
pub fn rate_to_request(requested: Option<u32>) -> (r: Result<u32, RateError>)
    ensures
        r == match requested {
            Some(rate) => if rate > MAX_SAFE_SAMPLE_RATE {
                Err::<u32, RateError>(RateError::TooHigh(rate))
            } else {
                Ok(rate)
            },
            None => Ok(48_000),
        },
{
    match requested {
        Some(rate) => {
            if rate > MAX_SAFE_SAMPLE_RATE {
                Err(RateError::TooHigh(rate))
            } else {
                Ok(rate)
            }
        },
        None => Ok(48_000),
    }
}

/// Checks the rate that a device took: a wanted rate has to be met exactly.
pub fn check_rate(requested: Option<u32>, actual: u32) -> (r: Result<u32, RateError>)
    ensures
        r == match requested {
            Some(rate) => if rate == actual {
                Ok::<u32, RateError>(actual)
            } else {
                Err(RateError::Inexact { wanted: rate, actual })
            },
            None => Ok(actual),
        },
{
    match requested {
        Some(rate) => {
            if rate == actual {
                Ok(actual)
            } else {
                Err(RateError::Inexact { wanted: rate, actual })
            }
        },
        None => Ok(actual),
    }
}

/// Frames at which a device starts: two periods, or its whole buffer where that
/// is less.
pub fn start_threshold(buffer_frames: u64, period_frames: u64) -> (r: u64)
    ensures
        r == if 2 * period_frames < buffer_frames {
            2 * period_frames
        } else {
            buffer_frames as int
        },
{
    if period_frames > buffer_frames / 2 {
        buffer_frames
    } else {
        2 * period_frames
    }
}

/// Milliseconds of sound to keep in the device's buffer, from a setting; 0 for
/// no limit.
pub fn watermark_from(setting: Option<&str>) -> (r: u64)
    ensures
        r == match setting {
            Some(s) => match unsigned_value(trim_ws(s@), u64::MAX as int) {
                Some(n) => n,
                None => HW_HIGH_WATERMARK_MS as int,
            },
            None => HW_HIGH_WATERMARK_MS as int,
        },
{
    match setting {
        Some(s) => {
            let chars: Vec<char> = to_chars(s);
            let t: Vec<char> = trimmed(chars.as_slice(), CharClass::Whitespace);
            match parse_unsigned(t.as_slice(), u64::MAX) {
                Some(n) => n,
                None => HW_HIGH_WATERMARK_MS,
            }
        },
        None => HW_HIGH_WATERMARK_MS,
    }
}

/// The first line of a text, without its end.
pub open spec fn first_line(s: Seq<char>) -> Seq<char> {
    let stop = next_in_class(s, CharClass::Only('\n'), 0);
    let line = s.subrange(0, stop);
    if stop < s.len() && line.len() > 0 && line.last() == '\r' {
        line.drop_last()
    } else {
        line
    }
}

/// The name and the description of a device that is offered: one for playback,
/// addressed without conversions. The description is the first line of what the
/// system says, or the name.
pub open spec fn offered_device(
    capture_only: bool,
    name: Option<Seq<char>>,
    desc: Option<Seq<char>>,
) -> Option<(Seq<char>, Seq<char>)> {
    match name {
        Some(n) => if capture_only || !begins_with(n, "hw:"@) {
            None
        } else {
            Some(
                (
                    n,
                    match desc {
                        Some(d) => if d.len() == 0 {
                            n
                        } else {
                            first_line(d)
                        },
                        None => first_line(n),
                    },
                ),
            )
        },
        None => None,
    }
}

/// What the system says of a device.
pub struct DeviceHint {
    pub capture_only: bool,
    pub name: Option<String>,
    pub desc: Option<String>,
}

/// The text of an optional string.
pub open spec fn hint_text(s: Option<String>) -> Option<Seq<char>> {
    match s {
        Some(t) => Some(t@),
        None => None,
    }
}

/// The device that a hint offers.
pub open spec fn offered_by(hint: DeviceHint) -> Option<(Seq<char>, Seq<char>)> {
    offered_device(hint.capture_only, hint_text(hint.name), hint_text(hint.desc))
}

/// The devices that hints offer, in order.
pub open spec fn offered_devices(hints: Seq<DeviceHint>) -> Seq<(Seq<char>, Seq<char>)>
    decreases hints.len(),
{
    if hints.len() == 0 {
        Seq::empty()
    } else {
        let before = offered_devices(hints.drop_last());
        match offered_by(hints.last()) {
            Some(device) => before.push(device),
            None => before,
        }
    }
}

/// Lists the devices that can be written to directly, each with its description.
pub fn list_hw_devices(hints: &Vec<DeviceHint>) -> (r: Vec<(String, String)>)
    ensures
        r@.map_values(|d: (String, String)| (d.0@, d.1@)) == offered_devices(hints@),
{
    let ghost shown = |d: (String, String)| (d.0@, d.1@);
    let n: usize = hints.len();
    let mut r: Vec<(String, String)> = Vec::new();
    let mut i: usize = 0;
    assert(r@.map_values(shown) =~= offered_devices(hints@.take(0)));
    while i < n
        invariant
            i <= n,
            n == hints@.len(),
            shown == (|d: (String, String)| (d.0@, d.1@)),
            r@.map_values(shown) == offered_devices(hints@.take(i as int)),
        decreases n - i,
    {
        let ghost before = r@;
        assert(hints@.take(i + 1).drop_last() =~= hints@.take(i as int));
        let hint = &hints[i];
        let name: Option<&str> = match &hint.name {
            Some(s) => Some(s.as_str()),
            None => None,
        };
        let desc: Option<&str> = match &hint.desc {
            Some(s) => Some(s.as_str()),
            None => None,
        };
        match list_hw_device(hint.capture_only, name, desc) {
            Some(device) => {
                r.push(device);
                assert(r@.map_values(shown) =~= before.map_values(shown).push(shown(device)));
            },
            None => {},
        }
        i += 1;
    }
    assert(hints@.take(n as int) =~= hints@);
    r
}

/// Settles whether a device is offered, and under which description.
fn list_hw_device(capture_only: bool, name: Option<&str>, desc: Option<&str>) -> (r: Option<
    (String, String),
>)
    ensures
        ({
            let n = match name {
                Some(s) => Some(s@),
                None => None,
            };
            let d = match desc {
                Some(s) => Some(s@),
                None => None,
            };
            match r {
                Some((a, b)) => offered_device(capture_only, n, d) == Some((a@, b@)),
                None => offered_device(capture_only, n, d) is None,
            }
        }),
{
    let name: Vec<char> = match name {
        Some(s) => to_chars(s),
        None => {
            return None;
        },
    };
    if capture_only || !starts_with(name.as_slice(), "hw:") {
        return None;
    }
    let label: Vec<char> = match desc {
        Some(s) => {
            let d: Vec<char> = to_chars(s);
            if d.len() == 0 {
                let copy: Vec<char> = part(name.as_slice(), 0, name.len());
                assert(copy@ =~= name@);
                copy
            } else {
                line_of(d.as_slice())
            }
        },
        None => line_of(name.as_slice()),
    };
    Some((to_text(name.as_slice()), to_text(label.as_slice())))
}

fn line_of(s: &[char]) -> (r: Vec<char>)
    ensures
        r@ == first_line(s@),
{
    let stop: usize = find_in_class(s, CharClass::Only('\n'), 0);
    let end: usize = if stop < s.len() && stop > 0 && s[stop - 1] == '\r' {
        stop - 1
    } else {
        stop
    };
    let line: Vec<char> = part(s, 0, end);
    assert(line@ =~= first_line(s@));
    line
}

/// Number of times that devices ran dry since the start of the process.
#[derive(Debug, Clone, Copy, PartialEq, Eq, Structural)]
pub struct XrunCounter {
    pub total: u64,
}

/// Number of times that devices ran dry since the start of the process.
pub fn xrun_total(counter: &XrunCounter) -> (r: u64)
    ensures
        r == counter.total,
{
    counter.total
}

// ---------------------------------------------------------------------------
// Samples
// ---------------------------------------------------------------------------

/// The upper 16 bits of a 32-bit sample.
pub fn to_s16_container(sample: i32) -> (r: i16)
    ensures
        r == sample as int / 0x1_0000,
{
    let q: i32 = sample >> 16;
    assert(q * 0x1_0000 <= sample && sample < q * 0x1_0000 + 0x1_0000) by (bit_vector)
        requires
            q == sample >> 16,
    ;
    q as i16
}

/// The upper 24 bits of a 32-bit sample.
pub fn to_s24_value(sample: i32) -> (r: i32)
    ensures
        r == sample as int / 0x100,
{
    let q: i32 = sample >> 8;
    assert(q * 0x100 <= sample && sample < q * 0x100 + 0x100) by (bit_vector)
        requires
            q == sample >> 8,
    ;
    q
}

/// A 32-bit sample as a device's format holds it.
pub open spec fn container(sample: i32, format: AlsaFormat) -> int {
    match format {
        AlsaFormat::S32 => sample as int,
        AlsaFormat::S24 => sample as int / 0x100,
        AlsaFormat::S16 => sample as int / 0x1_0000,
    }
}

fn to_container(sample: i32, format: AlsaFormat) -> (r: i32)
    ensures
        r == container(sample, format),
{
    match format {
        AlsaFormat::S32 => sample,
        AlsaFormat::S24 => to_s24_value(sample),
        AlsaFormat::S16 => to_s16_container(sample) as i32,
    }
}

/// Sample `k` of a source in a device's format; silence before its start and
/// after its end.
pub open spec fn filled_sample(source: Seq<i32>, k: int, format: AlsaFormat) -> int {
    if 0 <= k < source.len() {
        container(source[k], format)
    } else {
        0
    }
}

/// A sample of 16 or 24 bits, stored in the upper bits of 32, comes out of its
/// container as it was, and one of 32 bits always does.
pub proof fn law_narrow_samples_pass_exactly(sample: i32, raw: int)
    ensures
        container(sample, AlsaFormat::S32) == sample,
        sample == raw * 0x100 ==> container(sample, AlsaFormat::S24) == raw,
        sample == raw * 0x1_0000 ==> container(sample, AlsaFormat::S16) == raw,
{
}

// ---------------------------------------------------------------------------
// The loop that writes sound
// ---------------------------------------------------------------------------

/// Frames of silence before and after sound: 5 ms.
pub open spec fn silence_frames(rate: u32) -> usize {
    if rate / 200 < 1 {
        1
    } else {
        (rate / 200) as usize
    }
}

fn frames_of_silence(rate: u32) -> (r: usize)
    ensures
        r == silence_frames(rate),
{
    if rate / 200 < 1 {
        1
    } else {
        (rate / 200) as usize
    }
}

/// States of the device.
#[derive(Debug, Clone, Copy, PartialEq, Eq, Structural)]
pub enum DeviceState {
    Running,
    Prepared,
    Paused,
    /// It ran dry.
    XRun,
    Suspended,
    Open,
    Setup,
    Other,
}

/// What the loop does next.
#[derive(Debug, Clone, Copy, PartialEq, Eq, Structural)]
pub enum LoopStep {
    /// Stop, after what is in the buffer was played, where `drain`.
    Stop { drain: bool },
    /// Ask the device how much it has still to play.
    AskDelay,
    /// Freeze the device.
    PauseDevice,
    /// Let the device go on.
    ResumeDevice,
    /// Drop what is in the device's buffer, and sleep.
    DropAndSleep,
    /// Sleep for so many milliseconds.
    Sleep(u64),
    /// Wait for the device.
    WaitDevice,
    /// Look at the state of the device.
    CheckState,
    /// Ask how much room there is.
    AskAvail,
    /// Make the device ready again; `counted` where it ran dry.
    Prepare { counted: bool },
    /// Wake the device up, or make it ready again.
    WakeUp,
    /// Begin anew.
    Retry,
    /// Write so many frames.
    Write(usize),
    /// Start the device where it is ready but does not run.
    StartIfPrepared,
    /// The output has failed: report it and end.
    Fail,
    /// Nothing brings the device back from its state: end.
    Abort,
}

/// The state of a loop that writes sound.
#[derive(Debug, Clone, Copy, PartialEq, Eq, Structural)]
pub struct WriteLoop {
    pub rate: u32,
    pub can_pause: bool,
    pub buffer_frames: u64,
    pub watermark_ms: u64,
    pub watermark_frames: u64,
    pub hardware_paused: bool,
    /// Silence is being written before the device is frozen.
    pub pause_draining: bool,
    pub pause_silence_remaining: usize,
    pub startup_silence_remaining: usize,
    pub contiguous_errors: u32,
    pub xrun_count: u64,
}

/// Frames in so many milliseconds.
pub open spec fn frames_in(ms: u64, rate: u32) -> int {
    let wide = ms * rate;
    (if wide > u64::MAX {
        u64::MAX as int
    } else {
        wide
    }) / 1000
}

/// A count of errors, one more.
pub open spec fn one_more(n: u32) -> u32 {
    if n == u32::MAX {
        n
    } else {
        (n + 1) as u32
    }
}

fn bump(n: u32) -> (r: u32)
    ensures
        r == one_more(n),
{
    if n == u32::MAX {
        n
    } else {
        n + 1
    }
}

/// A count of dry runs, one more; it starts again at 0 after its largest value.
pub open spec fn next_count(n: u64) -> u64 {
    ((n + 1) % 0x1_0000_0000_0000_0000) as u64
}

/// Milliseconds to sleep while the buffer is full enough.
pub open spec fn full_sleep(watermark_ms: u64) -> u64 {
    let quarter = watermark_ms / 4;
    if quarter < 2 {
        2
    } else if quarter > 20 {
        20
    } else {
        quarter
    }
}

impl WriteLoop {
    /// A loop at its start: silence comes first.
    pub fn new(rate: u32, can_pause: bool, buffer_frames: u64, watermark_ms: u64) -> (r: Self)
        ensures
            r == (WriteLoop {
                rate,
                can_pause,
                buffer_frames,
                watermark_ms,
                watermark_frames: frames_in(watermark_ms, rate) as u64,
                hardware_paused: false,
                pause_draining: false,
                pause_silence_remaining: 0,
                startup_silence_remaining: silence_frames(rate),
                contiguous_errors: 0,
                xrun_count: 0,
            }),
    {
        let wide: u64 = match watermark_ms.checked_mul(rate as u64) {
            Some(wide) => wide,
            None => u64::MAX,
        };
        WriteLoop {
            rate,
            can_pause,
            buffer_frames,
            watermark_ms,
            watermark_frames: wide / 1000,
            hardware_paused: false,
            pause_draining: false,
            pause_silence_remaining: 0,
            startup_silence_remaining: frames_of_silence(rate),
            contiguous_errors: 0,
            xrun_count: 0,
        }
    }

    /// What happens where the device is or is not frozen.
    pub open spec fn next_step(self) -> LoopStep {
        if self.hardware_paused {
            LoopStep::Sleep(WAIT_CEILING_MS as u64)
        } else {
            LoopStep::CheckState
        }
    }

    fn go_on(&self) -> (r: LoopStep)
        ensures
            r == self.next_step(),
    {
        if self.hardware_paused {
            LoopStep::Sleep(WAIT_CEILING_MS as u64)
        } else {
            LoopStep::CheckState
        }
    }

    /// The loop, with a pause begun where one is wanted.
    pub open spec fn pausing(self) -> WriteLoop {
        if self.pause_draining {
            self
        } else {
            WriteLoop {
                pause_draining: true,
                pause_silence_remaining: silence_frames(self.rate),
                ..self
            }
        }
    }

    /// Begins a round. A pause first writes silence, then waits until all was
    /// played, and only then freezes the device.
    pub fn begin(&mut self, stop: bool, want_paused: bool) -> (r: LoopStep)
        ensures
            ({
                let before = *old(self);
                if stop {
                    &&& r == LoopStep::Stop { drain: !before.hardware_paused }
                    &&& *final(self) == before
                } else if want_paused && !before.hardware_paused && before.can_pause {
                    &&& *final(self) == before.pausing()
                    &&& r == if before.pausing().pause_silence_remaining == 0 {
                        LoopStep::AskDelay
                    } else {
                        LoopStep::CheckState
                    }
                } else if !want_paused {
                    &&& *final(self) == (WriteLoop {
                        pause_draining: false,
                        pause_silence_remaining: 0,
                        ..before
                    })
                    &&& r == if before.hardware_paused {
                        LoopStep::ResumeDevice
                    } else {
                        LoopStep::CheckState
                    }
                } else if !before.can_pause {
                    &&& *final(self) == (WriteLoop { hardware_paused: true, ..before })
                    &&& r == LoopStep::DropAndSleep
                } else {
                    &&& *final(self) == before
                    &&& r == before.next_step()
                }
            }),
    {
        if stop {
            return LoopStep::Stop { drain: !self.hardware_paused };
        }
        if want_paused && !self.hardware_paused && self.can_pause {
            if !self.pause_draining {
                self.pause_draining = true;
                self.pause_silence_remaining = frames_of_silence(self.rate);
            }
            if self.pause_silence_remaining == 0 {
                return LoopStep::AskDelay;
            }
            return LoopStep::CheckState;
        }
        if !want_paused {
            self.pause_draining = false;
            self.pause_silence_remaining = 0;
            if self.hardware_paused {
                return LoopStep::ResumeDevice;
            }
            return LoopStep::CheckState;
        }
        if !self.can_pause {
            self.hardware_paused = true;
            return LoopStep::DropAndSleep;
        }
        self.go_on()
    }

    /// Goes on once it is known how much the device has still to play.
    pub fn delay_known(&self, delay: i64) -> (r: LoopStep)
        ensures
            r == if delay <= 0 {
                LoopStep::PauseDevice
            } else {
                LoopStep::WaitDevice
            },
    {
        if delay <= 0 {
            LoopStep::PauseDevice
        } else {
            LoopStep::WaitDevice
        }
    }

    /// Goes on after the device was to be frozen.
    pub fn device_paused(&mut self, ok: bool) -> (r: LoopStep)
        ensures
            *final(self) == if ok {
                WriteLoop { hardware_paused: true, pause_draining: false, ..*old(self) }
            } else {
                *old(self)
            },
            r == final(self).next_step(),
    {
        if ok {
            self.hardware_paused = true;
            self.pause_draining = false;
        }
        self.go_on()
    }

    /// Goes on after the device was to be let go on.
    pub fn device_resumed(&mut self, ok: bool) -> (r: LoopStep)
        ensures
            *final(self) == if ok {
                WriteLoop { hardware_paused: false, ..*old(self) }
            } else {
                *old(self)
            },
            r == final(self).next_step(),
    {
        if ok {
            self.hardware_paused = false;
        }
        self.go_on()
    }

    /// The loop, with a dry run counted.
    pub open spec fn ran_dry(self) -> WriteLoop {
        WriteLoop { xrun_count: next_count(self.xrun_count), ..self }
    }

    /// Goes on with the state of the device: a device that ran dry is made ready
    /// again and counted, here and in the process's total.
    pub fn state_known(&mut self, state: DeviceState, counter: &mut XrunCounter) -> (r: LoopStep)
        ensures
            *final(self) == if state == DeviceState::XRun {
                old(self).ran_dry()
            } else {
                *old(self)
            },
            final(counter).total == if state == DeviceState::XRun {
                next_count(old(counter).total)
            } else {
                old(counter).total
            },
            r == match state {
                DeviceState::Running | DeviceState::Prepared | DeviceState::Paused => {
                    LoopStep::AskAvail
                },
                DeviceState::XRun => LoopStep::Prepare { counted: true },
                DeviceState::Suspended => LoopStep::WakeUp,
                DeviceState::Open | DeviceState::Setup => LoopStep::Prepare { counted: false },
                DeviceState::Other => LoopStep::Abort,
            },
    {
        match state {
            DeviceState::Running => LoopStep::AskAvail,
            DeviceState::Prepared => LoopStep::AskAvail,
            DeviceState::Paused => LoopStep::AskAvail,
            DeviceState::XRun => {
                self.xrun_count = self.xrun_count.wrapping_add(1);
                counter.total = counter.total.wrapping_add(1);
                LoopStep::Prepare { counted: true }
            },
            DeviceState::Suspended => LoopStep::WakeUp,
            DeviceState::Open => LoopStep::Prepare { counted: false },
            DeviceState::Setup => LoopStep::Prepare { counted: false },
            DeviceState::Other => LoopStep::Abort,
        }
    }

    /// Goes on after the device could not tell its room.
    pub fn avail_failed(&mut self, ran_dry: bool, counter: &mut XrunCounter) -> (r: LoopStep)
        ensures
            if ran_dry {
                &&& *final(self) == old(self).ran_dry()
                &&& final(counter).total == next_count(old(counter).total)
                &&& r == LoopStep::Prepare { counted: true }
            } else {
                let errors = one_more(old(self).contiguous_errors);
                &&& *final(self) == (WriteLoop { contiguous_errors: errors, ..*old(self) })
                &&& final(counter).total == old(counter).total
                &&& r == if errors >= MAX_CONTIGUOUS_ERRORS {
                    LoopStep::Fail
                } else {
                    LoopStep::Retry
                }
            },
    {
        if ran_dry {
            self.xrun_count = self.xrun_count.wrapping_add(1);
            counter.total = counter.total.wrapping_add(1);
            return LoopStep::Prepare { counted: true };
        }
        self.contiguous_errors = bump(self.contiguous_errors);
        if self.contiguous_errors >= MAX_CONTIGUOUS_ERRORS {
            LoopStep::Fail
        } else {
            LoopStep::Retry
        }
    }

    /// Frames that may be written into so much room: not beyond the watermark,
    /// nor beyond the silence of a pause.
    pub open spec fn writable(self, avail: usize) -> int {
        let filled = if self.buffer_frames > avail {
            self.buffer_frames - avail
        } else {
            0
        };
        let allowed = if self.watermark_frames > filled {
            self.watermark_frames - filled
        } else {
            0
        };
        let capped = if avail < MAX_WRITE_FRAMES {
            avail as int
        } else {
            MAX_WRITE_FRAMES as int
        };
        let paced = if self.watermark_ms == 0 || capped < allowed {
            capped
        } else {
            allowed
        };
        if self.pause_draining && self.pause_silence_remaining < paced {
            self.pause_silence_remaining as int
        } else {
            paced
        }
    }

    /// Goes on with the room that the device has.
    pub fn avail_known(&self, avail: usize) -> (r: LoopStep)
        ensures
            r == if avail == 0 {
                LoopStep::WaitDevice
            } else if self.writable(avail) == 0 {
                LoopStep::Sleep(full_sleep(self.watermark_ms))
            } else {
                LoopStep::Write(self.writable(avail) as usize)
            },
    {
        if avail == 0 {
            return LoopStep::WaitDevice;
        }
        let filled: u64 = if self.buffer_frames > avail as u64 {
            self.buffer_frames - avail as u64
        } else {
            0
        };
        let allowed: u64 = if self.watermark_frames > filled {
            self.watermark_frames - filled
        } else {
            0
        };
        let capped: usize = if avail < MAX_WRITE_FRAMES {
            avail
        } else {
            MAX_WRITE_FRAMES
        };
        let mut frames: usize = if self.watermark_ms == 0 || (capped as u64) < allowed {
            capped
        } else {
            allowed as usize
        };
        if self.pause_draining && self.pause_silence_remaining < frames {
            frames = self.pause_silence_remaining;
        }
        if frames == 0 {
            let quarter: u64 = self.watermark_ms / 4;
            let ms: u64 = if quarter < 2 {
                2
            } else if quarter > 20 {
                20
            } else {
                quarter
            };
            return LoopStep::Sleep(ms);
        }
        LoopStep::Write(frames)
    }

    /// Whether the next frame is silence: at the start, and while stopped or
    /// paused.
    pub fn next_frame_is_silent(&mut self, stopped: bool, paused: bool) -> (r: bool)
        ensures
            r == (old(self).startup_silence_remaining > 0 || stopped || paused),
            *final(self) == old(self).less_startup(),
    {
        if self.startup_silence_remaining > 0 {
            self.startup_silence_remaining = self.startup_silence_remaining - 1;
            true
        } else {
            stopped || paused
        }
    }

    /// Whether the next integer sample is silence: at the start, while stopped, and
    /// while the silence of a pause is written.
    pub fn next_sample_is_silent(&mut self, stopped: bool) -> (r: bool)
        ensures
            r == (old(self).startup_silence_remaining > 0 || stopped || old(self).pause_draining),
            *final(self) == old(self).less_startup(),
    {
        if self.startup_silence_remaining > 0 {
            self.startup_silence_remaining = self.startup_silence_remaining - 1;
            true
        } else {
            stopped || self.pause_draining
        }
    }

    /// Fills `count` samples from a source of 32-bit samples, as the device's
    /// format holds them: silence first at the start, silence alone while stopped
    /// or while the silence of a pause is written, and silence once the source has
    /// no more. Tells how many samples of the source were used.
    pub fn fill_integer(&mut self, source: &[i32], count: usize, format: AlsaFormat, stopped: bool) -> (r:
        (Vec<i32>, usize))
        ensures
            ({
                let quiet = old(self).quiet_samples(count as int, stopped);
                &&& r.0@.len() == count
                &&& forall|i: int|
                    0 <= i < count ==> #[trigger] r.0@[i] == filled_sample(
                        source@,
                        i - quiet,
                        format,
                    )
                &&& r.1 == if count - quiet < source@.len() {
                    count - quiet
                } else {
                    source@.len() as int
                }
                &&& *final(self) == (WriteLoop {
                    startup_silence_remaining: if old(self).startup_silence_remaining > count {
                        (old(self).startup_silence_remaining - count) as usize
                    } else {
                        0
                    },
                    ..*old(self)
                })
            }),
    {
        let ghost quiet = self.quiet_samples(count as int, stopped);
        let mut out: Vec<i32> = Vec::new();
        let mut used: usize = 0;
        while out.len() < count
            invariant
                out@.len() <= count,
                quiet == old(self).quiet_samples(count as int, stopped),
                used == if out@.len() <= quiet {
                    0
                } else if out@.len() - quiet < source@.len() {
                    out@.len() - quiet
                } else {
                    source@.len() as int
                },
                *self == (WriteLoop {
                    startup_silence_remaining: if old(self).startup_silence_remaining > out@.len() {
                        (old(self).startup_silence_remaining - out@.len()) as usize
                    } else {
                        0
                    },
                    ..*old(self)
                }),
                forall|i: int|
                    0 <= i < out@.len() ==> #[trigger] out@[i] == filled_sample(
                        source@,
                        i - quiet,
                        format,
                    ),
            decreases count - out@.len(),
        {
            if self.next_sample_is_silent(stopped) || used >= source.len() {
                out.push(0);
            } else {
                out.push(to_container(source[used], format));
                used += 1;
            }
        }
        (out, used)
    }

    /// Samples of silence among the next `count`, before any of the source.
    pub open spec fn quiet_samples(self, count: int, stopped: bool) -> int {
        if stopped || self.pause_draining || self.startup_silence_remaining > count {
            count
        } else {
            self.startup_silence_remaining as int
        }
    }

    /// The loop with one piece of the silence at the start used up.
    pub open spec fn less_startup(self) -> WriteLoop {
        if self.startup_silence_remaining > 0 {
            WriteLoop {
                startup_silence_remaining: (self.startup_silence_remaining - 1) as usize,
                ..self
            }
        } else {
            self
        }
    }

    /// The loop once frames were written.
    pub open spec fn after_write(self, frames: usize) -> WriteLoop {
        WriteLoop {
            contiguous_errors: 0,
            pause_silence_remaining: if !self.pause_draining {
                self.pause_silence_remaining
            } else if self.pause_silence_remaining > frames {
                (self.pause_silence_remaining - frames) as usize
            } else {
                0
            },
            ..self
        }
    }

    /// Goes on after frames were written.
    pub fn written(&mut self, frames: usize) -> (r: LoopStep)
        ensures
            *final(self) == old(self).after_write(frames),
            r == LoopStep::StartIfPrepared,
    {
        self.contiguous_errors = 0;
        if self.pause_draining {
            self.pause_silence_remaining = if self.pause_silence_remaining > frames {
                self.pause_silence_remaining - frames
            } else {
                0
            };
        }
        LoopStep::StartIfPrepared
    }

    /// Goes on after writing failed. A dry run is counted here only.
    pub fn write_failed(&mut self, ran_dry: bool) -> (r: LoopStep)
        ensures
            if ran_dry {
                &&& *final(self) == old(self).ran_dry()
                &&& r == LoopStep::Prepare { counted: true }
            } else {
                let errors = one_more(old(self).contiguous_errors);
                &&& *final(self) == (WriteLoop { contiguous_errors: errors, ..*old(self) })
                &&& r == if errors >= MAX_CONTIGUOUS_ERRORS {
                    LoopStep::Fail
                } else {
                    LoopStep::StartIfPrepared
                }
            },
    {
        if ran_dry {
            self.xrun_count = self.xrun_count.wrapping_add(1);
            return LoopStep::Prepare { counted: true };
        }
        self.contiguous_errors = bump(self.contiguous_errors);
        if self.contiguous_errors >= MAX_CONTIGUOUS_ERRORS {
            LoopStep::Fail
        } else {
            LoopStep::StartIfPrepared
        }
    }

    /// Goes on after the device could not be started. Where `counts`, this is an
    /// error like others.
    pub fn start_failed(&mut self, ran_dry: bool, counts: bool) -> (r: LoopStep)
        ensures
            if ran_dry {
                &&& *final(self) == old(self).ran_dry()
                &&& r == LoopStep::Prepare { counted: true }
            } else {
                &&& *final(self) == (WriteLoop {
                    contiguous_errors: if counts {
                        one_more(old(self).contiguous_errors)
                    } else {
                        old(self).contiguous_errors
                    },
                    ..*old(self)
                })
                &&& r == LoopStep::Retry
            },
    {
        if ran_dry {
            self.xrun_count = self.xrun_count.wrapping_add(1);
            return LoopStep::Prepare { counted: true };
        }
        if counts {
            self.contiguous_errors = bump(self.contiguous_errors);
        }
        LoopStep::Retry
    }
}

/// What is written never lifts the fill of the buffer above the watermark, never
/// exceeds the room, and is never more than is written at a time.
pub proof fn law_writes_stay_below_the_watermark(state: WriteLoop, avail: usize)
    requires
        avail <= state.buffer_frames,
    ensures
        state.writable(avail) <= avail,
        state.writable(avail) <= MAX_WRITE_FRAMES,
        state.watermark_ms != 0 && state.writable(avail) > 0 ==> (state.buffer_frames - avail)
            + state.writable(avail) <= state.watermark_frames,
        state.pause_draining ==> state.writable(avail) <= state.pause_silence_remaining,
{
}

/// A device is frozen only after the silence of the pause was written: the
/// question that leads to it comes with none left, and the silence begins whole.
/// Until then no integer sample of the source is used.
pub proof fn law_pause_is_preceded_by_silence(state: WriteLoop, count: int, stopped: bool)
    requires
        !state.pause_draining,
        0 <= count,
    ensures
        state.pausing().quiet_samples(count, stopped) == count,
        state.pausing().pause_silence_remaining == silence_frames(state.rate),
        state.pausing().pause_silence_remaining > 0,
        state.pausing().pausing() == state.pausing(),
{
}

/// Writing all of it uses the silence of a pause up.
pub proof fn law_written_silence_counts_down(state: WriteLoop, frames: usize)
    requires
        state.pause_draining,
        frames <= state.pause_silence_remaining,
    ensures
        state.after_write(frames).pause_silence_remaining + frames
            == state.pause_silence_remaining,
        state.after_write(frames).contiguous_errors == 0,
{
}

// ---------------------------------------------------------------------------
// The silence at the end
// ---------------------------------------------------------------------------

/// The silence that is written before a device is released, so that it does not
/// stop on a sample of sound.
#[derive(Debug, Clone, Copy, PartialEq, Eq, Structural)]
pub struct StopDrain {
    pub remaining: usize,
}

impl StopDrain {
    /// The silence before a device is released.
    pub fn new(rate: u32) -> (r: Self)
        ensures
            r.remaining == silence_frames(rate),
    {
        StopDrain { remaining: frames_of_silence(rate) }
    }

    /// Frames of silence to write into so much room; 0 to wait for the device.
    pub fn frames(&self, avail: usize) -> (r: usize)
        ensures
            r <= avail && r <= self.remaining && r <= MAX_WRITE_FRAMES,
            r == avail || r == self.remaining || r == MAX_WRITE_FRAMES,
    {
        let mut n: usize = avail;
        if self.remaining < n {
            n = self.remaining;
        }
        if MAX_WRITE_FRAMES < n {
            n = MAX_WRITE_FRAMES;
        }
        n
    }

    /// Notes that silence was written.
    pub fn written(&mut self, frames: usize)
        ensures
            final(self).remaining == if old(self).remaining > frames {
                old(self).remaining - frames
            } else {
                0
            },
    {
        self.remaining = if self.remaining > frames {
            self.remaining - frames
        } else {
            0
        };
    }

    /// Whether the device may play out what it has: all of the silence was
    /// written.
    pub fn may_drain(&self) -> (r: bool)
        ensures
            r == (self.remaining == 0),
    {
        self.remaining == 0
    }
}

// ---------------------------------------------------------------------------
// Native DSD
// ---------------------------------------------------------------------------

/// Bytes of staged DSD that may be used up before they are dropped.
pub const DSD_WIRE_BUF_BYTES: usize = 2_097_152;

/// Longest block that is read at a time.
pub const DSD_READ_CHUNK: usize = 262_144;

/// Silence that stands for a block that cannot be read.
pub const DSD_ERROR_SILENCE: usize = 65_536;

/// Containers of DSD on the device.
#[derive(Debug, Clone, Copy, PartialEq, Eq, Structural)]
pub enum DsdWireFmt {
    U32Be,
    U16Be,
    U8,
}

impl DsdWireFmt {
    /// Bytes of a channel in a frame.
    pub open spec fn width(self) -> int {
        match self {
            DsdWireFmt::U32Be => 4,
            DsdWireFmt::U16Be => 2,
            DsdWireFmt::U8 => 1,
        }
    }

    /// Bytes of a channel in a frame.
    pub fn bytes_per_ch(self) -> (r: usize)
        ensures
            r == self.width(),
    {
        match self {
            DsdWireFmt::U32Be => 4,
            DsdWireFmt::U16Be => 2,
            DsdWireFmt::U8 => 1,
        }
    }

    /// Bits of a channel in a frame: the rate of the device is the bit rate over
    /// this.
    pub fn rate_divisor(self) -> (r: u32)
        ensures
            r == 8 * self.width(),
    {
        match self {
            DsdWireFmt::U32Be => 32,
            DsdWireFmt::U16Be => 16,
            DsdWireFmt::U8 => 8,
        }
    }
}

/// What a device says to a container.
#[derive(Debug, Clone, Copy, PartialEq, Eq, Structural)]
pub struct WireProbe {
    /// It takes the container.
    pub format: bool,
    /// The rate it would use; `None` where it names none.
    pub actual_rate: Option<u32>,
}

/// Whether a device takes a container at the exact rate.
pub open spec fn takes(probe: WireProbe, wire: DsdWireFmt, bit_rate: u32) -> bool {
    probe.format && probe.actual_rate == Some((bit_rate as int / (8 * wire.width())) as u32)
}

/// Picks the widest container that a device takes at the exact rate.
pub fn choose_wire(bit_rate: u32, u32_be: WireProbe, u16_be: WireProbe, u8_: WireProbe) -> (r:
    Option<(DsdWireFmt, u32)>)
    ensures
        r == if takes(u32_be, DsdWireFmt::U32Be, bit_rate) {
            Some((DsdWireFmt::U32Be, (bit_rate / 32) as u32))
        } else if takes(u16_be, DsdWireFmt::U16Be, bit_rate) {
            Some((DsdWireFmt::U16Be, (bit_rate / 16) as u32))
        } else if takes(u8_, DsdWireFmt::U8, bit_rate) {
            Some((DsdWireFmt::U8, (bit_rate / 8) as u32))
        } else {
            None
        },
{
    if taken(u32_be, DsdWireFmt::U32Be, bit_rate) {
        Some((DsdWireFmt::U32Be, bit_rate / 32))
    } else if taken(u16_be, DsdWireFmt::U16Be, bit_rate) {
        Some((DsdWireFmt::U16Be, bit_rate / 16))
    } else if taken(u8_, DsdWireFmt::U8, bit_rate) {
        Some((DsdWireFmt::U8, bit_rate / 8))
    } else {
        None
    }
}

fn taken(probe: WireProbe, wire: DsdWireFmt, bit_rate: u32) -> (r: bool)
    ensures
        r == takes(probe, wire, bit_rate),
{
    let wanted: u32 = bit_rate / wire.rate_divisor();
    match probe.actual_rate {
        Some(rate) => probe.format && rate == wanted,
        None => false,
    }
}

/// Whether the bits of each byte are reversed, from a setting: it may force
/// either; else they are where the source has the lowest bit first.
pub fn needs_bit_reversal(setting: Option<&str>, order: DirectDsdBitOrder) -> (r: bool)
    ensures
        r == match setting {
            Some(s) => if s@ == "on"@ || s@ == "1"@ {
                true
            } else if s@ == "off"@ || s@ == "0"@ {
                false
            } else {
                order == DirectDsdBitOrder::LsbFirst
            },
            None => order == DirectDsdBitOrder::LsbFirst,
        },
{
    let by_source: bool = order == DirectDsdBitOrder::LsbFirst;
    match setting {
        Some(s) => {
            let chars: Vec<char> = to_chars(s);
            if is_literal(chars.as_slice(), "on") || is_literal(chars.as_slice(), "1") {
                true
            } else if is_literal(chars.as_slice(), "off") || is_literal(chars.as_slice(), "0") {
                false
            } else {
                by_source
            }
        },
        None => by_source,
    }
}

/// The bytes as the device wants them.
pub open spec fn wired(bytes: Seq<u8>, reverse: bool) -> Seq<u8> {
    if reverse {
        adapted(bytes, DirectDsdBitOrder::LsbFirst, DirectDsdBitOrder::MsbFirst)
    } else {
        bytes
    }
}

/// `n` bytes of DSD silence.
pub open spec fn dsd_silence(n: int) -> Seq<u8> {
    Seq::new(n as nat, |i: int| DSD_SILENCE_BYTE)
}

/// How reading ahead ended.
#[derive(Debug, Clone, Copy, PartialEq, Eq, Structural)]
pub enum RefillEnd {
    /// There is enough.
    Enough,
    /// The source is at its end.
    AtEnd,
    /// A block could not be read, and silence stands for it.
    Padded,
}

/// DSD that was read and is to be written.
pub struct DsdStaging {
    pub bytes: Vec<u8>,
    pub pos: usize,
    pub eof: bool,
}

impl DsdStaging {
    /// What is used up lies in the buffer.
    pub open spec fn wf(&self) -> bool {
        self.pos <= self.bytes@.len()
    }

    /// What is still to be written.
    pub open spec fn pending(&self) -> Seq<u8> {
        self.bytes@.skip(self.pos as int)
    }

    /// Nothing staged.
    pub fn new() -> (r: Self)
        ensures
            r.wf(),
            r.pending() == Seq::<u8>::empty(),
            !r.eof,
    {
        let r = DsdStaging { bytes: Vec::new(), pos: 0, eof: false };
        assert(r.pending() =~= Seq::<u8>::empty());
        r
    }

    fn push_silence(&mut self, n: usize)
        requires
            old(self).wf(),
        ensures
            final(self).wf(),
            final(self).eof == old(self).eof,
            final(self).pending() == old(self).pending() + dsd_silence(n as int),
    {
        let ghost start = self.pending();
        let mut i: usize = 0;
        assert(self.pending() =~= start + dsd_silence(0));
        while i < n
            invariant
                i <= n,
                self.wf(),
                self.eof == old(self).eof,
                self.pending() == start + dsd_silence(i as int),
            decreases n - i,
        {
            let ghost before = self.pending();
            self.bytes.push(DSD_SILENCE_BYTE);
            i += 1;
            assert(self.pending() =~= before.push(DSD_SILENCE_BYTE));
            assert(self.pending() =~= start + dsd_silence(i as int));
        }
    }

    /// While paused, fills up with silence in place of the source.
    pub fn pad_paused(&mut self, need: usize)
        requires
            old(self).wf(),
        ensures
            final(self).wf(),
            final(self).eof == old(self).eof,
            final(self).pending() == if old(self).pending().len() < need {
                old(self).pending() + dsd_silence(need - old(self).pending().len())
            } else {
                old(self).pending()
            },
    {
        let have: usize = self.bytes.len() - self.pos;
        if have < need {
            self.push_silence(need - have);
        }
    }

    fn push_block(&mut self, block: &Vec<u8>, len: usize)
        requires
            old(self).wf(),
            len <= block@.len(),
        ensures
            final(self).wf(),
            final(self).eof == old(self).eof,
            final(self).pending() == old(self).pending() + block@.take(len as int),
    {
        let ghost start = self.pending();
        let mut i: usize = 0;
        assert(self.pending() =~= start + block@.take(0));
        while i < len
            invariant
                i <= len <= block@.len(),
                self.wf(),
                self.eof == old(self).eof,
                self.pending() == start + block@.take(i as int),
            decreases len - i,
        {
            let ghost before = self.pending();
            self.bytes.push(block[i]);
            i += 1;
            assert(self.pending() =~= before.push(block@[i - 1]));
            assert(self.pending() =~= start + block@.take(i as int));
        }
    }

    /// Reads ahead until `need` bytes are staged, the source is at its end, or a
    /// block cannot be read. What is staged follows what was, in the order of
    /// the source, without a gap, and at most the last block goes beyond what
    /// is needed.
    pub fn refill(&mut self, reader: &mut DirectDsdReader, need: usize, reverse: bool) -> (r:
        RefillEnd)
        requires
            old(self).wf(),
            old(reader).wf(),
        ensures
            final(self).wf(),
            final(reader).wf(),
            final(reader).same_file(old(reader)),
            old(reader).pos() <= final(reader).pos(),
            ({
                let count = final(reader).pos() - old(reader).pos();
                let got = wired(old(reader).payload(old(reader).pos(), count), reverse);
                let staged = old(self).pending() + got;
                match r {
                    RefillEnd::Enough => {
                        &&& final(self).pending() == staged
                        &&& staged.len() >= need
                        &&& final(self).eof == old(self).eof
                    },
                    RefillEnd::AtEnd => {
                        &&& final(self).pending() == staged
                        &&& staged.len() < need
                        &&& final(self).eof
                        &&& old(self).eof || final(reader).pos() == final(reader).total()
                    },
                    RefillEnd::Padded => {
                        &&& final(self).pending() == staged + dsd_silence(
                            DSD_ERROR_SILENCE as int,
                        )
                        &&& staged.len() < need
                        &&& final(self).eof == old(self).eof
                        &&& final(reader).next_count() * final(reader).ch() > DSD_READ_CHUNK
                    },
                }
            }),
            old(self).eof || old(self).pending().len() >= need ==> final(reader).pos() == old(
                reader,
            ).pos(),
            r == RefillEnd::Enough && old(self).pending().len() < need
                ==> final(self).pending().len() < need + old(reader).max_len(),
    {
        let mut chunk: Vec<u8> = vec![0u8; DSD_READ_CHUNK];
        let ghost first = *reader;
        let ghost start = self.pending();
        let ghost from = reader.pos();
        proof {
            first.lemma_channels();
            assert(first.payload(from, 0) =~= Seq::<u8>::empty());
            assert(wired(first.payload(from, 0), reverse) =~= Seq::<u8>::empty());
            assert(self.pending() =~= start + wired(first.payload(from, 0), reverse));
        }
        while self.bytes.len() - self.pos < need && !self.eof
            invariant
                self.wf(),
                reader.wf(),
                first.wf(),
                first == *old(reader),
                start == old(self).pending(),
                reader.same_file(&first),
                from == first.pos(),
                from <= reader.pos(),
                (reader.pos() - from) % 4 == 0,
                chunk@.len() == DSD_READ_CHUNK,
                self.eof == old(self).eof,
                self.pending() == start + wired(first.payload(from, reader.pos() - from), reverse),
                old(self).eof || start.len() >= need ==> reader.pos() == from,
                start.len() < need ==> self.pending().len() < need + first.max_len(),
            decreases reader.total() - reader.pos(),
        {
            proof {
                reader.lemma_channels();
                reader.lemma_next_fits();
                reader.lemma_next_aligned();
            }
            let ghost before = *reader;
            let ghost so_far = reader.pos() - from;
            let ghost count = reader.next_count();
            match reader.read_block(chunk.as_mut_slice()) {
                Ok(Some(len)) => {
                    let ghost raw = chunk@.take(len as int);
                    if reverse {
                        adapt_dsd_bit_order(
                            &mut chunk,
                            len,
                            DirectDsdBitOrder::LsbFirst,
                            DirectDsdBitOrder::MsbFirst,
                        );
                    }
                    assert(chunk@.take(len as int) == wired(raw, reverse));
                    self.push_block(&chunk, len);
                    proof {
                        assert(before.payload(before.pos(), count) =~= first.payload(
                            from + so_far,
                            count,
                        ));
                        crate::direct_dsd::producer::law_consecutive_blocks_join(
                            first,
                            from,
                            so_far,
                            count,
                        );
                        lemma_wired_joins(first.payload(from, so_far), raw, reverse);
                        assert(self.pending() =~= start + (wired(
                            first.payload(from, so_far),
                            reverse,
                        ) + wired(raw, reverse)));
                    }
                },
                Ok(None) => {
                    self.eof = true;
                    return RefillEnd::AtEnd;
                },
                Err(_) => {
                    self.push_silence(DSD_ERROR_SILENCE);
                    return RefillEnd::Padded;
                },
            }
        }
        if self.bytes.len() - self.pos >= need {
            RefillEnd::Enough
        } else {
            RefillEnd::AtEnd
        }
    }

    /// Drops what was used up once there is much of it.
    pub fn compact(&mut self)
        requires
            old(self).wf(),
        ensures
            final(self).wf(),
            final(self).eof == old(self).eof,
            final(self).pending() == old(self).pending(),
            final(self).pos <= DSD_WIRE_BUF_BYTES,
    {
        if self.pos > DSD_WIRE_BUF_BYTES {
            let n: usize = self.bytes.len();
            let mut rest: Vec<u8> = Vec::new();
            let mut i: usize = self.pos;
            while i < n
                invariant
                    self.pos <= i <= n,
                    n == self.bytes@.len(),
                    rest@ == self.bytes@.subrange(self.pos as int, i as int),
                decreases n - i,
            {
                rest.push(self.bytes[i]);
                i += 1;
                assert(rest@ =~= self.bytes@.subrange(self.pos as int, i as int));
            }
            self.bytes = rest;
            self.pos = 0;
            assert(self.pending() =~= old(self).pending());
        }
    }

    /// Takes up to `frames` whole frames.
    pub fn take_frames(&mut self, frames: usize, frame_bytes: usize) -> (r: Vec<u8>)
        requires
            old(self).wf(),
            frame_bytes > 0,
        ensures
            final(self).wf(),
            final(self).eof == old(self).eof,
            ({
                let whole = old(self).pending().len() as int / frame_bytes as int;
                let n = if whole < frames {
                    whole
                } else {
                    frames as int
                };
                &&& r@ == old(self).pending().take(n * frame_bytes)
                &&& final(self).pending() == old(self).pending().skip(n * frame_bytes)
            }),
    {
        let have: usize = self.bytes.len() - self.pos;
        let whole: usize = have / frame_bytes;
        let count: usize = if whole < frames {
            whole
        } else {
            frames
        };
        proof {
            let c = count as int;
            let w = whole as int;
            let fb = frame_bytes as int;
            assert(0 <= c * fb <= w * fb && w * fb <= have) by (nonlinear_arith)
                requires
                    0 <= c <= w,
                    0 < fb,
                    w == have as int / fb,
                    0 <= have,
            ;
        }
        let len: usize = count * frame_bytes;
        let ghost before = self.pending();
        let mut r: Vec<u8> = Vec::new();
        let mut i: usize = 0;
        while i < len
            invariant
                i <= len,
                self.pos + len <= self.bytes.len(),
                before == self.bytes@.skip(self.pos as int),
                r@ == before.take(i as int),
            decreases len - i,
        {
            r.push(self.bytes[self.pos + i]);
            i += 1;
            assert(r@ =~= before.take(i as int));
        }
        self.pos = self.pos + len;
        assert(self.pending() =~= before.skip(len as int));
        r
    }

    /// Whether all of the source was written.
    pub fn finished(&self, frame_bytes: usize) -> (r: bool)
        requires
            self.wf(),
        ensures
            r == (self.eof && self.pending().len() < frame_bytes),
    {
        self.eof && self.bytes.len() - self.pos < frame_bytes
    }
}

proof fn lemma_wired_joins(a: Seq<u8>, b: Seq<u8>, reverse: bool)
    ensures
        wired(a, reverse) + wired(b, reverse) == wired(a + b, reverse),
{
    assert(wired(a, reverse) + wired(b, reverse) =~= wired(a + b, reverse));
}

/// A sample in a narrow container is rounded down to it; where the source has no more
/// samples there is silence.
pub proof fn law_narrow_containers_round_down(source: Seq<i32>, k: int)
    requires
        0 <= k < source.len(),
    ensures
        ({
            let wide = container(source[k], AlsaFormat::S24);
            let narrow = container(source[k], AlsaFormat::S16);
            &&& 256 * wide <= source[k] < 256 * (wide + 1)
            &&& 65_536 * narrow <= source[k] < 65_536 * (narrow + 1)
        }),
        filled_sample(source, k, AlsaFormat::S32) == source[k],
        filled_sample(source, k, AlsaFormat::S16) == container(source[k], AlsaFormat::S16),
        filled_sample(source, source.len() + k, AlsaFormat::S32) == 0,
        filled_sample(source, source.len() + k, AlsaFormat::S24) == 0,
{
}

/// A pause is led into by five milliseconds of silence, one frame at least, and times
/// become frames at the rate, rounded down.
pub proof fn law_times_become_frames(ms: u64, rate: u32)
    requires
        ms * rate <= u64::MAX,
    ensures
        silence_frames(rate) >= 1,
        silence_frames(rate) > 1 ==> 1000 * silence_frames(rate) <= 5 * rate < 1000 * (
        silence_frames(rate) + 1),
        rate < 200 ==> silence_frames(rate) == 1,
        1000 * frames_in(ms, rate) <= ms * rate < 1000 * (frames_in(ms, rate) + 1),
{
    assert(ms * rate >= 0) by (nonlinear_arith);
}

/// As much is written as the device takes, the watermark and the largest write allow;
/// while a pause is led into, no more than the silence that is left.
pub proof fn law_as_much_is_written_as_may_be(state: WriteLoop, avail: usize)
    requires
        avail <= state.buffer_frames,
    ensures
        ({
            let n = state.writable(avail);
            ||| n == avail
            ||| n == 4096
            ||| state.watermark_ms != 0 && n == 0 && (state.buffer_frames - avail)
                >= state.watermark_frames
            ||| state.watermark_ms != 0 && (state.buffer_frames - avail) + n
                == state.watermark_frames
            ||| state.pause_draining && n == state.pause_silence_remaining
        }),
        state.writable(avail) >= 0,
        state.writable(avail) <= 4096,
        !state.pause_draining && state.watermark_ms == 0 && avail <= 4096 ==> state.writable(avail)
            == avail,
{
}

/// Silence stands for the samples of a stopped or pausing stream, and for the first
/// ones of a new stream, which count down one by one.
pub proof fn law_a_stream_begins_with_silence(state: WriteLoop, count: int)
    requires
        0 <= count,
        !state.pause_draining,
    ensures
        state.quiet_samples(count, true) == count,
        state.quiet_samples(count, false) == if state.startup_silence_remaining <= count {
            state.startup_silence_remaining as int
        } else {
            count
        },
        state.startup_silence_remaining > 0 ==> state.less_startup().startup_silence_remaining
            == state.startup_silence_remaining - 1,
        state.startup_silence_remaining == 0 ==> state.less_startup() == state,
        state.hardware_paused ==> state.next_step() == LoopStep::Sleep(50),
        !state.hardware_paused ==> state.next_step() == LoopStep::CheckState,
        state.xrun_count < u64::MAX ==> state.ran_dry().xrun_count == state.xrun_count + 1,
        state.xrun_count == u64::MAX ==> state.ran_dry().xrun_count == 0,
        state.ran_dry().contiguous_errors == state.contiguous_errors,
{
}

/// With the buffer full the loop sleeps a quarter of the watermark, two milliseconds
/// at least and twenty at most; errors are counted up to what can be counted.
pub proof fn law_sleep_is_a_quarter_of_the_watermark(watermark_ms: u64, errors: u32)
    ensures
        2 <= full_sleep(watermark_ms) <= 20,
        8 <= watermark_ms <= 80 ==> 4 * full_sleep(watermark_ms) <= watermark_ms < 4 * full_sleep(
            watermark_ms,
        ) + 4,
        watermark_ms < 8 ==> full_sleep(watermark_ms) == 2,
        watermark_ms > 80 ==> full_sleep(watermark_ms) == 20,
        errors < u32::MAX ==> one_more(errors) == errors + 1,
        one_more(u32::MAX) == u32::MAX,
        MAX_CONTIGUOUS_ERRORS == 50,
        WAIT_CEILING_MS == 50,
        HW_HIGH_WATERMARK_MS == 200,
        MAX_SAFE_SAMPLE_RATE == 1_000_000,
        DSD_WIRE_BUF_BYTES == 8 * DSD_READ_CHUNK,
        DSD_READ_CHUNK == 262_144,
        DSD_ERROR_SILENCE == 65_536,
{
}

/// The first line of a text ends before its line feed, and before a carriage return
/// that goes with it; a text of one line is that line.
pub proof fn law_the_first_line_ends_at_its_feed(line: Seq<char>, rest: Seq<char>)
    requires
        forall|k: int| 0 <= k < line.len() ==> #[trigger] line[k] != '\n',
        line.len() == 0 || line.last() != '\r',
    ensures
        first_line(line + seq!['\n'] + rest) == line,
        first_line(line + seq!['\r', '\n'] + rest) == line,
        first_line(line) == line,
{
    let feed = CharClass::Only('\n');
    let n = line.len() as int;
    let a = line + seq!['\n'] + rest;
    assert forall|k: int| 0 <= k < n implies !feed.has(#[trigger] a[k]) by {
        assert(a[k] == line[k]);
    }
    crate::text::lemma_search_ends(a, feed, 0, n);
    assert(a.subrange(0, n) =~= line);
    let b = line + seq!['\r', '\n'] + rest;
    assert forall|k: int| 0 <= k < n + 1 implies !feed.has(#[trigger] b[k]) by {
        if k < n {
            assert(b[k] == line[k]);
        }
    }
    crate::text::lemma_search_ends(b, feed, 0, n + 1);
    assert(b.subrange(0, n + 1) =~= line.push('\r'));
    assert(line.push('\r').drop_last() =~= line);
    crate::text::lemma_search_ends(line, feed, 0, n);
    assert(line.subrange(0, n) =~= line);
}

/// Hardware devices that play are offered, under the first line of what is said of
/// them, or under their own name where nothing is said.
pub proof fn law_hardware_that_plays_is_offered(
    rest: Seq<char>,
    other: Seq<char>,
    desc: Seq<char>,
)
    requires
        other.len() == 0 || other[0] != 'h',
    ensures
        ({
            let name = seq!['h', 'w', ':'] + rest;
            &&& offered_device(false, Some(name), Some(desc)) == Some(
                (
                    name,
                    if desc.len() == 0 {
                        name
                    } else {
                        first_line(desc)
                    },
                ),
            )
            &&& offered_device(false, Some(name), None) == Some((name, first_line(name)))
            &&& offered_device(true, Some(name), Some(desc)) is None
        }),
        offered_device(false, Some(other), Some(desc)) is None,
        offered_device(false, None, Some(desc)) is None,
{
    reveal_strlit("hw:");
    let mark = seq!['h', 'w', ':'];
    assert("hw:"@ =~= mark);
    assert((mark + rest).subrange(0, 3) =~= mark);
    if begins_with(other, "hw:"@) {
        assert(other.subrange(0, 3)[0] == other[0]);
        assert("hw:"@[0] == 'h');
    }
}

/// Devices are offered in the order of their hints, and none that was not hinted at.
pub proof fn law_devices_are_offered_in_order(hints: Seq<DeviceHint>, more: DeviceHint)
    ensures
        offered_devices(hints.push(more)) == match offered_by(more) {
            Some(device) => offered_devices(hints).push(device),
            None => offered_devices(hints),
        },
        offered_devices(Seq::empty()).len() == 0,
        more.name matches Some(n) ==> (more.desc matches Some(d) ==> offered_by(more)
            == offered_device(more.capture_only, Some(n@), Some(d@))),
{
    assert(hints.push(more).drop_last() =~= hints);
}

/// A wire of DSD carries four, two or one byte of each channel in a frame, and a
/// device takes it where it knows the form and runs at the rate that those bytes ask
/// for.
pub proof fn law_a_wire_carries_its_bytes(probe: WireProbe, wire: DsdWireFmt, bit_rate: u32)
    ensures
        DsdWireFmt::U32Be.width() == 4,
        DsdWireFmt::U16Be.width() == 2,
        DsdWireFmt::U8.width() == 1,
        takes(probe, wire, bit_rate) ==> probe.format && (probe.actual_rate matches Some(rate)
            && match wire {
            DsdWireFmt::U32Be => 32 * rate <= bit_rate < 32 * (rate + 1),
            DsdWireFmt::U16Be => 16 * rate <= bit_rate < 16 * (rate + 1),
            DsdWireFmt::U8 => 8 * rate <= bit_rate < 8 * (rate + 1),
        }),
        !probe.format || probe.actual_rate is None ==> !takes(probe, wire, bit_rate),
{
    let all = bit_rate as int;
    match wire {
        DsdWireFmt::U32Be => {
            assert(8 * wire.width() == 32);
            assert(all / (8 * wire.width()) == all / 32);
        },
        DsdWireFmt::U16Be => {
            assert(8 * wire.width() == 16);
            assert(all / (8 * wire.width()) == all / 16);
        },
        DsdWireFmt::U8 => {
            assert(8 * wire.width() == 8);
            assert(all / (8 * wire.width()) == all / 8);
        },
    }
}

/// Bytes whose lowest bit comes first are turned round for the wire, the others are
/// not; silence is a pattern with as many ones as zeros.
pub proof fn law_wired_bytes_begin_with_their_highest_bit(bytes: Seq<u8>, k: int)
    requires
        0 <= k < bytes.len(),
    ensures
        wired(bytes, false) == bytes,
        wired(bytes, true).len() == bytes.len(),
        wired(bytes, true)[k] == crate::dsd::reversed(bytes[k]),
        dsd_silence(bytes.len() as int).len() == bytes.len(),
        dsd_silence(bytes.len() as int)[k] == 0x69,
{
}

} // verus!
