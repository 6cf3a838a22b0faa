//! A stream to a Diretta target: its address, the format that is asked for, the
//! bytes that are sent, and the order in which a connection is made.

use vstd::prelude::*;

use crate::diretta::state::{
    runtime_state_record_failure, runtime_state_reset, runtime_state_set_connection,
    DirettaRuntimeState, RuntimeView,
};
use crate::dsd::{law_reversing_twice, reverse_byte, reversed};
use crate::number::{decimal, parse_u16, parse_u32, push_decimal, unsigned_value};
use crate::text::{copied, split_once, split_once_at, to_chars, to_text};

verus! {

/// Port of a target that names none.
pub const DIRETTA_PORT: u16 = 19_644;

/// Bytes of a packet where nothing else is known.
pub const DIRETTA_MTU: u32 = 1500;

/// Milliseconds of sound that a target is asked to buffer.
pub const DIRETTA_BUFFER_MS: u32 = 100;

/// Longest wait for a connection, in milliseconds.
pub const DIRETTA_CONNECT_MS: u32 = 5000;

/// A target as a scan of the network reports it.
#[derive(Debug, Clone)]
pub struct DirettaTarget {
    pub ipv6_addr: String,
    pub full_addr: String,
    pub if_idx: i32,
    pub target_name: String,
    pub output_name: String,
    pub model_name: String,
    pub mtu: u32,
}

/// The address of a target with its interface, and with its port where it names
/// one.
pub open spec fn full_address(ip: Seq<char>, ifno: int, port: int) -> Seq<char> {
    let base = ip + seq!['%'] + decimal(ifno);
    if port > 0 {
        base + seq![','] + decimal(port)
    } else {
        base
    }
}

/// Writes the address of a target.
pub fn full_addr_of(ip: &str, ifno: u32, port: u16) -> (r: String)
    ensures
        r@ == full_address(ip@, ifno as int, port as int),
{
    let mut out: Vec<char> = to_chars(ip);
    out.push('%');
    push_decimal(&mut out, ifno as u64);
    assert(out@ =~= ip@ + seq!['%'] + decimal(ifno as int));
    if port > 0 {
        out.push(',');
        push_decimal(&mut out, port as u64);
        assert(out@ =~= full_address(ip@, ifno as int, port as int));
    }
    to_text(out.as_slice())
}

/// The target that a scan reports. Its model is its name, or else that of its
/// output.
pub fn target_from_scan(
    ip: &str,
    ifno: u32,
    port: u16,
    target_name: &str,
    output_name: &str,
) -> (r: DirettaTarget)
    ensures
        r.ipv6_addr@ == ip@,
        r.full_addr@ == full_address(ip@, ifno as int, port as int),
        r.if_idx == ifno as i32,
        r.target_name@ == target_name@,
        r.output_name@ == output_name@,
        r.model_name@ == if target_name@.len() > 0 {
            target_name@
        } else {
            output_name@
        },
        r.mtu == DIRETTA_MTU,
{
    let name: Vec<char> = to_chars(target_name);
    DirettaTarget {
        ipv6_addr: copied(ip),
        full_addr: full_addr_of(ip, ifno, port),
        if_idx: ifno as i32,
        target_name: copied(target_name),
        output_name: copied(output_name),
        model_name: if name.len() > 0 {
            copied(target_name)
        } else {
            copied(output_name)
        },
        mtu: DIRETTA_MTU,
    }
}

/// The address of a target, in its parts.
pub struct TargetAddress {
    pub ip: String,
    pub port: u16,
    pub ifno: u32,
}

/// The parts of an address `ip[%interface][,port]`. A port or an interface that
/// is no number counts as left out.
pub open spec fn address_parts(addr: Seq<char>, if_idx: int) -> (Seq<char>, int, int) {
    let (before, port) = match split_once(addr, ',') {
        Some((a, b)) => (
            a,
            match unsigned_value(b, u16::MAX as int) {
                Some(n) => n,
                None => DIRETTA_PORT as int,
            },
        ),
        None => (addr, DIRETTA_PORT as int),
    };
    let given = if if_idx > 0 {
        if_idx
    } else {
        0
    };
    match split_once(before, '%') {
        Some((a, b)) => (
            a,
            port,
            match unsigned_value(b, u32::MAX as int) {
                Some(n) => n,
                None => given,
            },
        ),
        None => (before, port, given),
    }
}

/// Takes the address of a target apart.
pub fn parse_target(addr: &str, if_idx: i32) -> (r: TargetAddress)
    ensures
        (r.ip@, r.port as int, r.ifno as int) == address_parts(addr@, if_idx as int),
{
    let mut ip: Vec<char> = to_chars(addr);
    let mut port: u16 = DIRETTA_PORT;
    let mut ifno: u32 = if if_idx > 0 {
        if_idx as u32
    } else {
        0
    };
    match split_once_at(ip.as_slice(), ',') {
        Some((a, b)) => {
            match parse_u16(b.as_slice()) {
                Some(n) => {
                    port = n;
                },
                None => {},
            }
            ip = a;
        },
        None => {},
    }
    match split_once_at(ip.as_slice(), '%') {
        Some((a, b)) => {
            match parse_u32(b.as_slice()) {
                Some(n) => {
                    ifno = n;
                },
                None => {},
            }
            ip = a;
        },
        None => {},
    }
    TargetAddress { ip: to_text(ip.as_slice()), port, ifno }
}

/// The key under which what a target can do is kept.
pub open spec fn cache_key_text(ip: Seq<char>, ifno: int, port: int) -> Seq<char> {
    ip + seq!['%'] + decimal(ifno) + seq!['.'] + decimal(port)
}

/// The key under which what a target can do is kept.
pub fn cache_key(address: &TargetAddress) -> (r: String)
    ensures
        r@ == cache_key_text(address.ip@, address.ifno as int, address.port as int),
{
    let mut out: Vec<char> = to_chars(address.ip.as_str());
    out.push('%');
    push_decimal(&mut out, address.ifno as u64);
    out.push('.');
    push_decimal(&mut out, address.port as u64);
    assert(out@ =~= cache_key_text(address.ip@, address.ifno as int, address.port as int));
    to_text(out.as_slice())
}

/// Bytes of a packet for a stream: what is asked for, unless that is the usual
/// size, and else what was measured.
pub fn stream_mtu(requested: u32, measured: u32) -> (r: u32)
    ensures
        r == if requested > 0 && requested != DIRETTA_MTU {
            requested
        } else {
            measured
        },
{
    if requested > 0 && requested != DIRETTA_MTU {
        requested
    } else {
        measured
    }
}

/// Bytes of a packet for a question: what is asked for, or else what was
/// measured.
pub fn query_mtu(requested: u32, measured: u32) -> (r: u32)
    ensures
        r == if requested > 0 {
            requested
        } else {
            measured
        },
{
    if requested > 0 {
        requested
    } else {
        measured
    }
}

/// Failures of a stream.
#[derive(Debug, Clone, Copy, PartialEq, Eq, Structural)]
pub enum DirettaStreamError {
    /// The bit rate is none of DSD.
    DsdRate(u32),
    /// The stream takes no such data.
    Format,
}

/// The format that a target is asked for.
#[derive(Debug, Clone, Copy, PartialEq, Eq, Structural)]
pub enum SinkRequest {
    Pcm { sample_rate: u32, channels: u32, bits: u32 },
    Dsd { multiplier: u32, byte_order: u32, channels: u32 },
}

/// The multiple of 44.1 kHz or 48 kHz that a DSD bit rate is.
pub open spec fn dsd_multiplier(rate: u32) -> Option<u32> {
    if rate == 44_100 * 64 || rate == 48_000 * 64 {
        Some(64)
    } else if rate == 44_100 * 128 || rate == 48_000 * 128 {
        Some(128)
    } else if rate == 44_100 * 256 || rate == 48_000 * 256 {
        Some(256)
    } else if rate == 44_100 * 512 || rate == 48_000 * 512 {
        Some(512)
    } else {
        None
    }
}

/// The format to ask a target for: DSD as it is, PCM always in slots of 32 bits.
pub fn sink_request(is_dsd: bool, sample_rate: u32, channels: u16, dsd_byte_order: u32) -> (r:
    Result<SinkRequest, DirettaStreamError>)
    ensures
        r == if !is_dsd {
            Ok::<SinkRequest, DirettaStreamError>(
                (SinkRequest::Pcm { sample_rate, channels: channels as u32, bits: 32 }),
            )
        } else {
            match dsd_multiplier(sample_rate) {
                Some(multiplier) => Ok(
                    (SinkRequest::Dsd {
                        multiplier,
                        byte_order: dsd_byte_order,
                        channels: channels as u32,
                    }),
                ),
                None => Err(DirettaStreamError::DsdRate(sample_rate)),
            }
        },
{
    if is_dsd {
        match DirettaStream::dsd_rate_multiplier(sample_rate) {
            Some(multiplier) => Ok(
                SinkRequest::Dsd {
                    multiplier,
                    byte_order: dsd_byte_order,
                    channels: channels as u32,
                },
            ),
            None => Err(DirettaStreamError::DsdRate(sample_rate)),
        }
    } else {
        Ok(SinkRequest::Pcm { sample_rate, channels: channels as u32, bits: 32 })
    }
}

/// The format with which a target is asked for what it can do.
pub fn probe_request() -> (r: SinkRequest)
    ensures
        r == (SinkRequest::Pcm { sample_rate: 48_000, channels: 2, bits: 32 }),
{
    SinkRequest::Pcm { sample_rate: 48_000, channels: 2, bits: 32 }
}

/// Stages of a connection.
#[derive(Debug, Clone, Copy, PartialEq, Eq, Structural)]
pub enum ConnectStage {
    /// Open the session.
    OpenSession,
    /// Measure the packet size; the target answers no connection without.
    Measure,
    /// Ask for the format.
    SetSink,
    /// Connect.
    Connect,
    /// Start to play.
    Play,
    /// The stream runs.
    Ready,
    /// The stream could not be made.
    Failed,
}

/// The stage after another, by whether it succeeded. A measurement cannot fail:
/// the usual size stands in for it.
pub open spec fn stage_after(stage: ConnectStage, ok: bool) -> ConnectStage {
    match stage {
        ConnectStage::OpenSession => if ok {
            ConnectStage::Measure
        } else {
            ConnectStage::Failed
        },
        ConnectStage::Measure => ConnectStage::SetSink,
        ConnectStage::SetSink => if ok {
            ConnectStage::Connect
        } else {
            ConnectStage::Failed
        },
        ConnectStage::Connect => if ok {
            ConnectStage::Play
        } else {
            ConnectStage::Failed
        },
        ConnectStage::Play => if ok {
            ConnectStage::Ready
        } else {
            ConnectStage::Failed
        },
        ConnectStage::Ready => ConnectStage::Ready,
        ConnectStage::Failed => ConnectStage::Failed,
    }
}

/// Goes on to the next stage of a connection. A session that cannot be opened
/// leaves no trace of the attempt.
pub fn connect_step(
    stage: ConnectStage,
    ok: bool,
    error: &str,
    state: &mut DirettaRuntimeState,
) -> (r: ConnectStage)
    ensures
        r == stage_after(stage, ok),
        final(state)@ == if stage == ConnectStage::OpenSession && !ok {
            RuntimeView::idle()
        } else {
            old(state)@
        },
{
    match stage {
        ConnectStage::OpenSession => {
            if ok {
                ConnectStage::Measure
            } else {
                runtime_state_record_failure(state, error);
                runtime_state_reset(state);
                ConnectStage::Failed
            }
        },
        ConnectStage::Measure => ConnectStage::SetSink,
        ConnectStage::SetSink => {
            if ok {
                ConnectStage::Connect
            } else {
                ConnectStage::Failed
            }
        },
        ConnectStage::Connect => {
            if ok {
                ConnectStage::Play
            } else {
                ConnectStage::Failed
            }
        },
        ConnectStage::Play => {
            if ok {
                ConnectStage::Ready
            } else {
                ConnectStage::Failed
            }
        },
        ConnectStage::Ready => ConnectStage::Ready,
        ConnectStage::Failed => ConnectStage::Failed,
    }
}

/// Bytes that stand for the low `width` bytes of a number, lowest first.
pub open spec fn low_bytes(value: i32, width: int) -> Seq<u8> {
    let bits = value as u32;
    let four = seq![
        (bits & 0xff) as u8,
        ((bits >> 8) & 0xff) as u8,
        ((bits >> 16) & 0xff) as u8,
        ((bits >> 24) & 0xff) as u8,
    ];
    four.take(width)
}

/// The bytes of samples, in order.
pub open spec fn sample_bytes(samples: Seq<i32>, width: int) -> Seq<u8>
    decreases samples.len(),
{
    if samples.len() == 0 {
        Seq::empty()
    } else {
        sample_bytes(samples.drop_last(), width) + low_bytes(samples.last(), width)
    }
}

/// Bytes of a sample of so many bits; `None` where the stream takes no such
/// samples.
pub open spec fn sample_width(bit_depth: u32) -> Option<int> {
    if bit_depth == 16 {
        Some(2)
    } else if bit_depth == 24 {
        Some(3)
    } else if bit_depth == 32 {
        Some(4)
    } else {
        None
    }
}

/// Packs samples, scaled to the width of the stream, as the target takes them.
pub fn pack_samples(samples: &[i32], bit_depth: u32) -> (r: Result<Vec<u8>, DirettaStreamError>)
    ensures
        match sample_width(bit_depth) {
            Some(width) => r matches Ok(bytes) && bytes@ == sample_bytes(samples@, width),
            None => r matches Err(e) && e == DirettaStreamError::Format,
        },
{
    if bit_depth != 16 && bit_depth != 24 && bit_depth != 32 {
        return Err(DirettaStreamError::Format);
    }
    let ghost width = sample_width(bit_depth)->0;
    let n: usize = samples.len();
    let mut out: Vec<u8> = Vec::new();
    let mut i: usize = 0;
    while i < n
        invariant
            i <= n,
            n == samples@.len(),
            bit_depth == 16 || bit_depth == 24 || bit_depth == 32,
            sample_width(bit_depth) == Some(width),
            out@ == sample_bytes(samples@.take(i as int), width),
        decreases n - i,
    {
        let ghost before = out@;
        let bits: u32 = samples[i] as u32;
        out.push((bits & 0xff) as u8);
        out.push(((bits >> 8) & 0xff) as u8);
        if bit_depth >= 24 {
            out.push(((bits >> 16) & 0xff) as u8);
        }
        if bit_depth == 32 {
            out.push(((bits >> 24) & 0xff) as u8);
        }
        assert(out@ =~= before + low_bytes(samples@[i as int], width));
        assert(samples@.take(i + 1).drop_last() =~= samples@.take(i as int));
        i += 1;
    }
    assert(samples@.take(n as int) =~= samples@);
    Ok(out)
}

/// A byte, with its bits reversed where asked for.
pub open spec fn maybe_reversed(b: u8, reverse: bool) -> u8 {
    if reverse {
        reversed(b)
    } else {
        b
    }
}

/// DSD as a target takes it: bits reversed within bytes, and bytes swapped within
/// pairs, where asked for. An odd number of bytes is not swapped.
pub open spec fn dsd_wire(bytes: Seq<u8>, reverse: bool, swap: bool) -> Seq<u8> {
    Seq::new(
        bytes.len(),
        |i: int|
            if swap && bytes.len() % 2 == 0 {
                maybe_reversed(
                    bytes[if i % 2 == 0 {
                        i + 1
                    } else {
                        i - 1
                    }],
                    reverse,
                )
            } else {
                maybe_reversed(bytes[i], reverse)
            },
    )
}

fn flipped(b: u8, reverse: bool) -> (r: u8)
    ensures
        r == maybe_reversed(b, reverse),
{
    if reverse {
        reverse_byte(b)
    } else {
        b
    }
}

/// A stream to a target.
pub struct DirettaStream {
    pub target_addr: String,
    pub sample_rate: u32,
    pub channels: u16,
    pub bit_depth: u32,
    pub is_dsd: bool,
    pub mtu: u32,
    pub is_connected: bool,
    pub is_playing: bool,
    pub push_failure_count: usize,
}

/// What starting or stopping asks of the target.
#[derive(Debug, Clone, Copy, PartialEq, Eq, Structural)]
pub enum StreamStep {
    /// Start the target.
    Start,
    /// Silence so many pulls, wait so many milliseconds at most, then stop.
    MuteAndStop { cycles: u32, wait_ms: u32 },
    /// Nothing is to be done.
    Nothing,
}

impl DirettaStream {
    /// The multiple of 44.1 kHz or 48 kHz that a DSD bit rate is: 64, 128, 256 or
    /// 512; `None` for other rates.
    pub fn dsd_rate_multiplier(sample_rate: u32) -> (r: Option<u32>)
        ensures
            r == dsd_multiplier(sample_rate),
    {
        if sample_rate == 2_822_400 || sample_rate == 3_072_000 {
            Some(64)
        } else if sample_rate == 5_644_800 || sample_rate == 6_144_000 {
            Some(128)
        } else if sample_rate == 11_289_600 || sample_rate == 12_288_000 {
            Some(256)
        } else if sample_rate == 22_579_200 || sample_rate == 24_576_000 {
            Some(512)
        } else {
            None
        }
    }

    /// The stream once it runs. Samples have the width that was agreed on, or 32
    /// bits where that is not known.
    pub fn ready(
        target_addr: &str,
        sample_rate: u32,
        channels: u16,
        negotiated_bytes: Option<u32>,
        is_dsd: bool,
        mtu: u32,
    ) -> (r: Self)
        requires
            negotiated_bytes matches Some(n) ==> 8 * n <= u32::MAX,
        ensures
            r.target_addr@ == target_addr@,
            r.sample_rate == sample_rate,
            r.channels == channels,
            r.bit_depth == 8 * match negotiated_bytes {
                Some(n) => n as int,
                None => 4,
            },
            r.is_dsd == is_dsd,
            r.mtu == mtu,
            r.is_connected,
            r.is_playing,
            r.push_failure_count == 0,
    {
        let bytes: u32 = match negotiated_bytes {
            Some(n) => n,
            None => 4,
        };
        DirettaStream {
            target_addr: copied(target_addr),
            sample_rate,
            channels,
            bit_depth: 8 * bytes,
            is_dsd,
            mtu,
            is_connected: true,
            is_playing: true,
            push_failure_count: 0,
        }
    }

    /// The bytes to send for samples, scaled to the width of the stream.
    pub fn write_samples(&self, samples: &[i32]) -> (r: Result<Vec<u8>, DirettaStreamError>)
        ensures
            match sample_width(self.bit_depth) {
                Some(width) => r matches Ok(bytes) && bytes@ == sample_bytes(samples@, width),
                None => r matches Err(e) && e == DirettaStreamError::Format,
            },
    {
        pack_samples(samples, self.bit_depth)
    }

    /// The bytes to send for DSD, by what the target agreed on: whether bits are
    /// reversed and bytes swapped. A PCM stream takes none.
    pub fn write_dsd_bytes(&self, dsd_bytes: &[u8], transform: Option<(bool, bool)>) -> (r: Result<
        Vec<u8>,
        DirettaStreamError,
    >)
        ensures
            if !self.is_dsd {
                r matches Err(e) && e == DirettaStreamError::Format
            } else {
                &&& r matches Ok(bytes)
                &&& bytes@ == match transform {
                    Some((reverse, swap)) => dsd_wire(dsd_bytes@, reverse, swap),
                    None => dsd_bytes@,
                }
            },
    {
        if !self.is_dsd {
            return Err(DirettaStreamError::Format);
        }
        let (reverse, swap): (bool, bool) = match transform {
            Some((reverse, swap)) => (reverse, swap),
            None => (false, false),
        };
        let n: usize = dsd_bytes.len();
        let pairs: bool = swap && n % 2 == 0;
        let mut out: Vec<u8> = Vec::new();
        let mut i: usize = 0;
        let ghost wire = dsd_wire(dsd_bytes@, reverse, swap);
        while i < n
            invariant
                i <= n,
                n == dsd_bytes@.len(),
                pairs == (swap && n % 2 == 0),
                wire == dsd_wire(dsd_bytes@, reverse, swap),
                out@ == wire.take(i as int),
            decreases n - i,
        {
            let at: usize = if !pairs {
                i
            } else if i % 2 == 0 {
                i + 1
            } else {
                i - 1
            };
            out.push(flipped(dsd_bytes[at], reverse));
            i += 1;
            assert(out@ =~= wire.take(i as int));
        }
        assert(wire.take(n as int) =~= wire);
        if transform.is_none() {
            assert(wire =~= dsd_bytes@);
        }
        Ok(out)
    }

    /// Notes the outcome of sending.
    pub fn pushed(&mut self, failure: Option<&str>, state: &mut DirettaRuntimeState)
        ensures
            match failure {
                Some(error) => {
                    &&& final(self).push_failure_count == if old(self).push_failure_count
                        == usize::MAX {
                        0
                    } else {
                        old(self).push_failure_count + 1
                    }
                    &&& final(state)@ == old(state)@.after_failure(error@)
                },
                None => {
                    &&& final(self).push_failure_count == old(self).push_failure_count
                    &&& final(state)@ == old(state)@
                },
            },
            *final(self) == (DirettaStream {
                push_failure_count: final(self).push_failure_count,
                ..*old(self)
            }),
    {
        match failure {
            Some(error) => {
                self.push_failure_count = self.push_failure_count.wrapping_add(1);
                runtime_state_record_failure(state, error);
            },
            None => {},
        }
    }

    /// What starting asks of the target.
    pub fn play(&self) -> (r: StreamStep)
        ensures
            r == if self.is_playing {
                StreamStep::Nothing
            } else {
                StreamStep::Start
            },
    {
        if self.is_playing {
            StreamStep::Nothing
        } else {
            StreamStep::Start
        }
    }

    /// Notes that the stream plays.
    pub fn playing(&mut self, online: bool, playing: bool, state: &mut DirettaRuntimeState)
        ensures
            *final(self) == (DirettaStream { is_playing: true, ..*old(self) }),
            final(state)@ == (RuntimeView {
                is_online: online,
                is_playing: playing,
                ..old(state)@
            }),
    {
        self.is_playing = true;
        runtime_state_set_connection(state, online, playing);
    }

    /// What stopping asks of the target: silence first, so that nothing cracks.
    pub fn stop(&mut self) -> (r: StreamStep)
        ensures
            r == if old(self).is_playing {
                StreamStep::MuteAndStop { cycles: 8, wait_ms: 40 }
            } else {
                StreamStep::Nothing
            },
            *final(self) == (DirettaStream { is_playing: false, ..*old(self) }),
    {
        if self.is_playing {
            self.is_playing = false;
            StreamStep::MuteAndStop { cycles: 8, wait_ms: 40 }
        } else {
            StreamStep::Nothing
        }
    }

    /// Closes the stream: it stops, is connected no more, and no output runs.
    pub fn close(&mut self, state: &mut DirettaRuntimeState) -> (r: StreamStep)
        ensures
            r == if old(self).is_playing {
                StreamStep::MuteAndStop { cycles: 8, wait_ms: 40 }
            } else {
                StreamStep::Nothing
            },
            *final(self) == (DirettaStream {
                is_playing: false,
                is_connected: false,
                ..*old(self)
            }),
            final(state)@ == RuntimeView::idle(),
    {
        let step = self.stop();
        self.is_connected = false;
        runtime_state_reset(state);
        step
    }

    /// Whether the stream is connected and its target answers.
    pub fn is_connected(&self, online: bool) -> (r: bool)
        ensures
            r == (self.is_connected && online),
    {
        self.is_connected && online
    }

    /// Whether the stream was connected less than so many milliseconds ago.
    pub fn just_connected(&self, elapsed_ms: u64, within_ms: u64) -> (r: bool)
        ensures
            r == (elapsed_ms < within_ms),
    {
        elapsed_ms < within_ms
    }

    /// What the target agreed on for DSD; nothing for PCM.
    pub fn dsd_bit_transform(&self, transform: Option<(bool, bool)>) -> (r: Option<(bool, bool)>)
        ensures
            r == if self.is_dsd {
                transform
            } else {
                None
            },
    {
        if self.is_dsd {
            transform
        } else {
            None
        }
    }

    /// Writes that failed.
    pub fn push_failures(&self) -> (r: usize)
        ensures
            r == self.push_failure_count,
    {
        self.push_failure_count
    }

    /// Samples of each channel in a second.
    pub fn sample_rate(&self) -> (r: u32)
        ensures
            r == self.sample_rate,
    {
        self.sample_rate
    }

    /// Number of channels.
    pub fn channels(&self) -> (r: u16)
        ensures
            r == self.channels,
    {
        self.channels
    }

    /// Address of the target.
    pub fn target_addr(&self) -> (r: &str)
        ensures
            r@ == self.target_addr@,
    {
        self.target_addr.as_str()
    }
}

// ---------------------------------------------------------------------------
// Laws
// ---------------------------------------------------------------------------

/// What is done to DSD on the way to a target, done again, undoes itself: no bit
/// is lost.
pub proof fn law_dsd_wire_undoes_itself(bytes: Seq<u8>, reverse: bool, swap: bool)
    ensures
        dsd_wire(dsd_wire(bytes, reverse, swap), reverse, swap) == bytes,
        dsd_wire(bytes, reverse, swap).len() == bytes.len(),
{
    let twice = dsd_wire(dsd_wire(bytes, reverse, swap), reverse, swap);
    assert forall|i: int| 0 <= i < bytes.len() implies twice[i] == bytes[i] by {
        law_reversing_twice(bytes[i]);
    }
    assert(twice =~= bytes);
}

/// Packed samples take their width each.
pub proof fn law_packed_samples_take_their_width(samples: Seq<i32>, width: int)
    requires
        2 <= width <= 4,
    ensures
        sample_bytes(samples, width).len() == width * samples.len(),
    decreases samples.len(),
{
    if samples.len() > 0 {
        law_packed_samples_take_their_width(samples.drop_last(), width);
        let n = samples.len() as int;
        assert(width * (n - 1) + width == width * n) by (nonlinear_arith);
    }
}

/// A connection plays only after every stage before it succeeded.
pub proof fn law_connection_follows_its_stages(a: bool, b: bool, c: bool, d: bool, e: bool)
    ensures
        stage_after(
            stage_after(
                stage_after(
                    stage_after(stage_after(ConnectStage::OpenSession, a), b),
                    c,
                ),
                d,
            ),
            e,
        ) == if a && c && d && e {
            ConnectStage::Ready
        } else {
            ConnectStage::Failed
        },
{
}

/// A DSD rate is accepted exactly where it is such a multiple of its base.
pub proof fn law_dsd_rates_are_multiples(rate: u32)
    ensures
        dsd_multiplier(rate) matches Some(m) ==> (rate == 44_100 * m || rate == 48_000 * m) && (m
            == 64 || m == 128 || m == 256 || m == 512),
        dsd_multiplier(rate) is None ==> forall|m: u32|
            (m == 64 || m == 128 || m == 256 || m == 512) ==> rate != #[trigger] (44_100 * m)
                && rate != 48_000 * m,
{
}

/// Whether a text holds neither sign that sets the parts of an address off.
pub open spec fn is_bare_address(ip: Seq<char>) -> bool {
    forall|k: int| 0 <= k < ip.len() ==> #[trigger] ip[k] != '%' && ip[k] != ','
}

proof fn lemma_decimal_is_digits(n: int)
    requires
        0 <= n,
    ensures
        is_bare_address(decimal(n)),
        decimal(n).len() > 0,
    decreases n,
{
    if n >= 10 {
        lemma_decimal_is_digits(n / 10);
        let d = decimal(n);
        assert forall|k: int| 0 <= k < d.len() implies #[trigger] d[k] != '%' && d[k] != ',' by {
            if k < d.len() - 1 {
                assert(d[k] == decimal(n / 10)[k]);
            }
        }
    }
}

/// The parts of an address can be read back from it. One without a port has the
/// port 19644; one without an interface has the interface that was given, or none.
pub proof fn law_addresses_read_back(ip: Seq<char>, ifno: int, port: int, if_idx: int)
    requires
        is_bare_address(ip),
        0 <= ifno <= u32::MAX,
        0 <= port <= u16::MAX,
    ensures
        address_parts(full_address(ip, ifno, port), if_idx) == (
            ip,
            if port > 0 {
                port
            } else {
                19_644
            },
            ifno,
        ),
        address_parts(ip, if_idx) == (
            ip,
            19_644int,
            if if_idx > 0 {
                if_idx
            } else {
                0
            },
        ),
        port > 0 ==> address_parts(ip + seq![','] + decimal(port), if_idx) == (
            ip,
            port,
            if if_idx > 0 {
                if_idx
            } else {
                0
            },
        ),
{
    let interface = decimal(ifno);
    lemma_decimal_is_digits(ifno);
    lemma_decimal_is_digits(port);
    let base = ip + seq!['%'] + interface;
    assert forall|k: int| 0 <= k < base.len() implies #[trigger] base[k] != ',' by {
        if k < ip.len() {
            assert(base[k] == ip[k]);
        } else if k > ip.len() {
            assert(base[k] == interface[k - ip.len() - 1]);
        }
    }
    crate::text::law_cut_is_at_the_first(base, decimal(port), ',');
    crate::text::law_cut_is_at_the_first(ip, interface, '%');
    crate::text::law_cut_is_at_the_first(ip, decimal(port), ',');
    crate::number::law_decimal_reads_back(ifno, u32::MAX as int);
    crate::number::law_decimal_reads_back(port, u16::MAX as int);
}

/// The key of a target is its address, interface and port, and the waits and sizes
/// of a connection are fixed.
pub proof fn law_a_key_names_all_three_parts(ip: Seq<char>, ifno: int, port: int)
    ensures
        cache_key_text(ip, ifno, port) == ip + seq!['%'] + decimal(ifno) + seq!['.'] + decimal(port),
        DIRETTA_PORT == 19_644,
        DIRETTA_MTU == 1_500,
        DIRETTA_BUFFER_MS == 100,
        DIRETTA_CONNECT_MS == 5_000,
{
}

/// A connection goes through its stages one by one. Any but the measuring can fail,
/// and what has failed stays so.
pub proof fn law_each_stage_leads_to_the_next(stage: ConnectStage)
    ensures
        stage_after(ConnectStage::OpenSession, true) == ConnectStage::Measure,
        stage_after(ConnectStage::Measure, true) == ConnectStage::SetSink,
        stage_after(ConnectStage::Measure, false) == ConnectStage::SetSink,
        stage_after(ConnectStage::SetSink, true) == ConnectStage::Connect,
        stage_after(ConnectStage::Connect, true) == ConnectStage::Play,
        stage_after(ConnectStage::Play, true) == ConnectStage::Ready,
        stage != ConnectStage::Measure && stage != ConnectStage::Ready ==> stage_after(stage, false)
            == ConnectStage::Failed,
        stage_after(ConnectStage::Ready, false) == ConnectStage::Ready,
        stage_after(ConnectStage::Failed, true) == ConnectStage::Failed,
{
}

/// The bytes of a sample are its own, lowest first: of a narrow container as many as
/// fit. Samples follow each other.
pub proof fn law_samples_are_packed_lowest_byte_first(samples: Seq<i32>, value: i32, width: int)
    requires
        2 <= width <= 4,
    ensures
        sample_bytes(samples.push(value), width) == sample_bytes(samples, width) + low_bytes(
            value,
            width,
        ),
        low_bytes(value, width).len() == width,
        ({
            let whole: int = if value < 0 {
                value + 0x1_0000_0000
            } else {
                value as int
            };
            let b = low_bytes(value, width);
            &&& b[0] == whole % 256
            &&& b[1] == whole / 256 % 256
            &&& width >= 3 ==> b[2] == whole / 65_536 % 256
            &&& width >= 4 ==> b[3] == whole / 16_777_216
        }),
{
    assert(samples.push(value).drop_last() =~= samples);
    let bits = value as u32;
    assert(value < 0 ==> bits == value + 0x1_0000_0000) by (bit_vector)
        requires
            bits == value as u32,
    ;
    assert(value >= 0 ==> bits == value) by (bit_vector)
        requires
            bits == value as u32,
    ;
    assert((bits & 0xff) as u8 == bits % 256 && ((bits >> 8) & 0xff) as u8 == bits / 256 % 256 && ((
    bits >> 16) & 0xff) as u8 == bits / 65_536 % 256 && ((bits >> 24) & 0xff) as u8 == bits
        / 16_777_216) by (bit_vector);
}

/// Samples of 16, 24 and 32 bits take as many bytes as they need, and no other depth
/// is packed.
pub proof fn law_samples_take_the_bytes_of_their_depth(bit_depth: u32)
    ensures
        sample_width(bit_depth) matches Some(w) ==> 8 * w == bit_depth && 2 <= w <= 4,
        sample_width(bit_depth) is None <==> bit_depth != 16 && bit_depth != 24 && bit_depth != 32,
{
}

/// On the wire the bits of each byte are turned round where the target wants it, and
/// the bytes of each pair change places where it wants that; nothing else changes.
pub proof fn law_dsd_goes_out_as_the_target_wants(bytes: Seq<u8>, reverse: bool, swap: bool, k: int)
    ensures
        dsd_wire(bytes, false, false) == bytes,
        0 <= k < bytes.len() ==> dsd_wire(bytes, true, false)[k] == reversed(bytes[k]),
        bytes.len() % 2 == 0 && 0 <= k && 2 * k + 1 < bytes.len() ==> dsd_wire(bytes, false, true)[2
            * k] == bytes[2 * k + 1] && dsd_wire(bytes, false, true)[2 * k + 1] == bytes[2 * k],
        bytes.len() % 2 == 1 ==> dsd_wire(bytes, reverse, true) == dsd_wire(bytes, reverse, false),
{
    assert(dsd_wire(bytes, false, false) =~= bytes);
}

} // verus!
