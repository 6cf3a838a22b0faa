//! Direct Stream Digital: rates, playback strategy, bit order of bytes, and the
//! DSF, DFF and DoP formats.

pub mod dff;
pub mod dop_pack;
pub mod dop_wav;
pub mod dsf;
pub mod laws;

use vstd::prelude::*;

use crate::diretta::DirettaSinkInfo;
use crate::text::{
    all_ascii, ascii_lower_all, ends_with, finishes_with, lowercase, to_chars, to_lowercase,
};

verus! {

/// A DSD bit rate.
#[derive(Debug, Clone, Copy, PartialEq, Eq, Structural)]
pub enum DsdRate {
    /// 64 times 44.1 kHz.
    Dsd64,
    /// 128 times 44.1 kHz.
    Dsd128,
    /// 256 times 44.1 kHz.
    Dsd256,
    /// 512 times 44.1 kHz.
    Dsd512,
    /// Any other rate, in hertz.
    Other(u32),
}

impl DsdRate {
    /// The rate in hertz.
    pub open spec fn hz(self) -> u32 {
        match self {
            DsdRate::Dsd64 => 2_822_400,
            DsdRate::Dsd128 => 5_644_800,
            DsdRate::Dsd256 => 11_289_600,
            DsdRate::Dsd512 => 22_579_200,
            DsdRate::Other(hz) => hz,
        }
    }

    /// Whether the rate is one of the four that have a name of their own.
    pub open spec fn is_named_rate(hz: u32) -> bool {
        hz == 2_822_400 || hz == 5_644_800 || hz == 11_289_600 || hz == 22_579_200
    }

    /// The rate with the given number of hertz; a named one where there is one.
    pub fn from_sample_rate(hz: u32) -> (r: Self)
        ensures
            r.hz() == hz,
            r is Other <==> !Self::is_named_rate(hz),
    {
        if hz == 2_822_400 {
            DsdRate::Dsd64
        } else if hz == 5_644_800 {
            DsdRate::Dsd128
        } else if hz == 11_289_600 {
            DsdRate::Dsd256
        } else if hz == 22_579_200 {
            DsdRate::Dsd512
        } else {
            DsdRate::Other(hz)
        }
    }

    /// The rate in hertz.
    pub fn to_hz(&self) -> (r: u32)
        ensures
            r == self.hz(),
    {
        match self {
            DsdRate::Dsd64 => 2_822_400,
            DsdRate::Dsd128 => 5_644_800,
            DsdRate::Dsd256 => 11_289_600,
            DsdRate::Dsd512 => 22_579_200,
            DsdRate::Other(hz) => *hz,
        }
    }

    /// The name shown for a rate.
    pub open spec fn name(self) -> Seq<char> {
        match self {
            DsdRate::Dsd64 => "DSD64 (2.82 MHz)"@,
            DsdRate::Dsd128 => "DSD128 (5.64 MHz)"@,
            DsdRate::Dsd256 => "DSD256 (11.28 MHz)"@,
            DsdRate::Dsd512 => "DSD512 (22.58 MHz)"@,
            DsdRate::Other(_) => "DSD (Custom)"@,
        }
    }

    /// The name to show for the rate.
    pub fn display_name(&self) -> (r: &'static str)
        ensures
            r@ == self.name(),
    {
        match self {
            DsdRate::Dsd64 => "DSD64 (2.82 MHz)",
            DsdRate::Dsd128 => "DSD128 (5.64 MHz)",
            DsdRate::Dsd256 => "DSD256 (11.28 MHz)",
            DsdRate::Dsd512 => "DSD512 (22.58 MHz)",
            DsdRate::Other(_) => "DSD (Custom)",
        }
    }
}

/// A rate is found again from its hertz: naming loses nothing, and a rate made
/// from hertz is the only well-named one with that number.
pub proof fn law_rate_is_determined_by_hertz(a: DsdRate, b: DsdRate)
    requires
        a is Other ==> !DsdRate::is_named_rate(a.hz()),
        b is Other ==> !DsdRate::is_named_rate(b.hz()),
        a.hz() == b.hz(),
    ensures
        a == b,
{
}

/// How a DSD stream is to be played on a target.
#[derive(Debug, Clone, Copy, PartialEq, Eq, Structural)]
pub enum DsdPlaybackStrategy {
    /// The target takes the DSD bits as they are.
    NativeDsd { sample_rate: u32, is_dsd_lsb: bool },
    /// The stream is decimated to PCM.
    DsdToPcm { pcm_sample_rate: u32, bit_depth: u8 },
}

/// Whether a rate lies within limits of which 0 means none.
pub open spec fn within_limits(rate: u32, min: u32, max: u32) -> bool {
    (min == 0 || min <= rate) && (max == 0 || rate <= max)
}

/// The highest PCM rate a target takes; 192 kHz where it reports none.
pub open spec fn pcm_ceiling(caps: DirettaSinkInfo) -> u32 {
    if caps.supports_pcm && caps.pcm_max_sample_rate > 0 {
        caps.pcm_max_sample_rate
    } else {
        192_000
    }
}

/// The PCM bit depth to use: the target's, at most 32.
pub open spec fn pcm_depth(caps: DirettaSinkInfo) -> int {
    if caps.supports_pcm && 0 < caps.pcm_max_bits <= 32 {
        caps.pcm_max_bits as int
    } else {
        32
    }
}

/// The PCM rate to decimate a DSD rate to, under a ceiling.
pub open spec fn decimated_rate(ceiling: u32, dsd_hz: u32) -> u32 {
    if ceiling >= 352_800 && dsd_hz >= 11_289_600 {
        352_800
    } else if ceiling >= 176_400 {
        176_400
    } else if ceiling >= 88_200 {
        88_200
    } else {
        44_100
    }
}

impl DsdPlaybackStrategy {
    /// The strategy for a rate on a target with the given capabilities.
    pub open spec fn for_target(caps: Option<DirettaSinkInfo>, rate: DsdRate) -> Self {
        match caps {
            None => DsdPlaybackStrategy::DsdToPcm { pcm_sample_rate: 176_400, bit_depth: 32 },
            Some(caps) => if caps.supports_dsd && within_limits(
                rate.hz(),
                caps.dsd_min_sample_rate,
                caps.dsd_max_sample_rate,
            ) {
                DsdPlaybackStrategy::NativeDsd {
                    sample_rate: rate.hz(),
                    is_dsd_lsb: caps.supports_dsd_lsb && !caps.supports_dsd_msb,
                }
            } else {
                DsdPlaybackStrategy::DsdToPcm {
                    pcm_sample_rate: decimated_rate(pcm_ceiling(caps), rate.hz()),
                    bit_depth: pcm_depth(caps) as u8,
                }
            },
        }
    }

    /// Picks the strategy for a rate from what the target reports.
    pub fn resolve_diretta_strategy(caps: Option<&DirettaSinkInfo>, requested_rate: DsdRate) -> (r:
        Self)
        ensures
            r == Self::for_target(
                match caps {
                    Some(c) => Some(*c),
                    None => None,
                },
                requested_rate,
            ),
    {
        let caps = match caps {
            None => {
                return DsdPlaybackStrategy::DsdToPcm { pcm_sample_rate: 176_400, bit_depth: 32 };
            },
            Some(caps) => caps,
        };
        let hz: u32 = requested_rate.to_hz();
        if caps.supports_dsd {
            let in_range: bool = (caps.dsd_min_sample_rate == 0 || hz >= caps.dsd_min_sample_rate)
                && (caps.dsd_max_sample_rate == 0 || hz <= caps.dsd_max_sample_rate);
            if in_range {
                return DsdPlaybackStrategy::NativeDsd {
                    sample_rate: hz,
                    is_dsd_lsb: caps.supports_dsd_lsb && !caps.supports_dsd_msb,
                };
            }
        }
        let max_pcm: u32 = if caps.supports_pcm && caps.pcm_max_sample_rate > 0 {
            caps.pcm_max_sample_rate
        } else {
            192_000
        };
        let pcm_sample_rate: u32 = if max_pcm >= 352_800 && hz >= 11_289_600 {
            352_800
        } else if max_pcm >= 176_400 {
            176_400
        } else if max_pcm >= 88_200 {
            88_200
        } else {
            44_100
        };
        let depth: u32 = if caps.supports_pcm && caps.pcm_max_bits > 0 && caps.pcm_max_bits < 32 {
            caps.pcm_max_bits
        } else {
            32
        };
        DsdPlaybackStrategy::DsdToPcm { pcm_sample_rate, bit_depth: depth as u8 }
    }
}

/// A target that reports capabilities is never sent PCM above its ceiling,
/// unless the ceiling is below the lowest rate there is.
pub proof fn law_decimated_rate_stays_under_the_ceiling(ceiling: u32, dsd_hz: u32)
    requires
        ceiling >= 44_100,
    ensures
        decimated_rate(ceiling, dsd_hz) <= ceiling,
        44_100 <= decimated_rate(ceiling, dsd_hz) <= 352_800,
{
}

/// Whether a lower-cased path has the suffix of a DSD file.
pub open spec fn has_dsd_suffix(lower: Seq<char>) -> bool {
    finishes_with(lower, ".dsf"@) || finishes_with(lower, ".dff"@)
}

/// Tests a lower-cased path for the suffix of a DSD file.
pub fn is_dsd_lowered(lower: &str) -> (r: bool)
    ensures
        r == has_dsd_suffix(lower@),
{
    let chars: Vec<char> = to_chars(lower);
    ends_with(chars.as_slice(), ".dsf") || ends_with(chars.as_slice(), ".dff")
}

/// Whether a path names a DSD file, whatever its case.
pub fn is_dsd_path(path: &str) -> (r: bool)
    ensures
        r == has_dsd_suffix(lowercase(path@)),
        all_ascii(path@) ==> r == has_dsd_suffix(ascii_lower_all(path@)),
{
    let lower: String = to_lowercase(path);
    is_dsd_lowered(lower.as_str())
}

/// Samples of each channel in a second that a decimator makes of a DSD stream:
/// one of sixteen bits.
pub fn decimator_rate(dsd_sample_rate: u32) -> (r: u32)
    ensures
        r == dsd_sample_rate / 16,
{
    dsd_sample_rate / 16
}

/// The byte with its eight bits in the opposite order.
pub open spec fn reversed(b: u8) -> u8 {
    let swapped4 = ((b & 0xf0) >> 4) | ((b & 0x0f) << 4);
    let swapped2 = ((swapped4 & 0xcc) >> 2) | ((swapped4 & 0x33) << 2);
    ((swapped2 & 0xaa) >> 1) | ((swapped2 & 0x55) << 1)
}

/// Bit `k` of a byte, counted from the least significant one.
pub open spec fn bit(b: u8, k: u8) -> bool {
    (b >> k) & 1 == 1
}

/// Reverses the order of the bits of a byte.
pub fn reverse_byte(b: u8) -> (r: u8)
    ensures
        r == reversed(b),
{
    let swapped4: u8 = ((b & 0xf0) >> 4) | ((b & 0x0f) << 4);
    let swapped2: u8 = ((swapped4 & 0xcc) >> 2) | ((swapped4 & 0x33) << 2);
    ((swapped2 & 0xaa) >> 1) | ((swapped2 & 0x55) << 1)
}

/// Bit `k` of the reversed byte is bit `7 - k` of the byte.
pub proof fn law_reversed_bits(b: u8, k: u8)
    by (bit_vector)
    requires
        k < 8,
    ensures
        bit(reversed(b), k) == bit(b, (7 - k) as u8),
{
}

/// Reversing twice gives the byte back.
pub proof fn law_reversing_twice(b: u8)
    by (bit_vector)
    ensures
        reversed(reversed(b)) == b,
{
}

} // verus!
