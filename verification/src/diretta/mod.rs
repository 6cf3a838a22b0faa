//! Diretta network targets: how they are named, what they report, and how a
//! connection to one is opened.

pub mod state;
pub mod stream;

use vstd::prelude::*;

use crate::direct_dsd::producer::DirectDsdSource;
use crate::direct_dsd::ring::PRE_MUTE_WINDOW_MS;
use crate::direct_dsd::{DirectDsdBitOrder, DirectDsdError};
use crate::text::{
    append, append_literal, begins_with, copied, find_in_class, is_literal, part, starts_with,
    to_chars, to_text, CharClass,
};

verus! {

/// What the identifier of a Diretta device begins with.
pub const DEVICE_PREFIX: &'static str = "diretta:";

/// What the identifier of a Diretta device begins with.
pub open spec fn device_prefix() -> Seq<char> {
    DEVICE_PREFIX@
}

/// What a Diretta target reports about the formats its converter takes.
#[derive(Debug, Clone, Copy, PartialEq, Eq)]
pub struct DirettaSinkInfo {
    pub supports_pcm: bool,
    pub pcm_max_bits: u32,
    pub pcm_max_sample_rate: u32,
    pub supports_dsd: bool,
    pub supports_dsd_lsb: bool,
    pub supports_dsd_msb: bool,
    pub dsd_min_sample_rate: u32,
    pub dsd_max_sample_rate: u32,
}

/// A Diretta target that was found on the network.
#[derive(Debug, Clone, PartialEq, Eq)]
pub struct DirettaDevice {
    pub id: String,
    pub name: String,
    pub ipv6_addr: String,
    pub full_addr: String,
    pub if_idx: i32,
    pub target_name: String,
    pub output_name: String,
    pub model_name: String,
    pub mtu: u32,
}

/// What a Diretta target can do.
#[derive(Debug, Clone, PartialEq, Eq)]
pub struct DirettaTargetCapabilities {
    pub target_name: String,
    pub output_name: String,
    pub firmware_version: String,
    /// Its address, without the port.
    pub ipv6_addr: String,
    /// Its address with interface and port.
    pub full_addr: String,
    pub if_idx: i32,
    pub supports_pcm: bool,
    pub pcm_min_bits: u32,
    pub pcm_max_bits: u32,
    pub pcm_min_sample_rate: u32,
    pub pcm_max_sample_rate: u32,
    pub pcm_min_channels: u32,
    pub pcm_max_channels: u32,
    pub supports_dsd: bool,
    /// Lowest bit first, as in DSF files.
    pub supports_dsd_lsb: bool,
    /// Highest bit first, as in DFF files.
    pub supports_dsd_msb: bool,
    pub dsd_min_sample_rate: u32,
    pub dsd_max_sample_rate: u32,
    pub dsd_min_bits: u32,
    pub dsd_max_bits: u32,
    pub dsd_min_channels: u32,
    pub dsd_max_channels: u32,
    pub mtu_measured: u32,
    pub mtu_min: u32,
    pub mtu_req: u32,
    pub mtu_max: u32,
    /// Bytes that one packet carries at most.
    pub max_packet_size: u32,
    pub support_ms_mode: u16,
}

/// Why a Diretta target cannot be used.
#[derive(Debug, Clone, Copy, PartialEq, Eq)]
pub enum DirettaOpenError {
    /// The device is no Diretta target.
    InvalidSelector,
    /// The target's name holds a character that no name can.
    InvalidTarget,
    /// The source does not follow the bit order that was agreed on.
    BitOrder(DirectDsdError),
}

impl DirettaOpenError {
    /// A description of the error.
    pub fn message(&self) -> (r: &'static str)
        ensures
            r@ == match self {
                DirettaOpenError::InvalidSelector => "invalid Diretta output selector"@,
                DirettaOpenError::InvalidTarget => "invalid Diretta target id"@,
                DirettaOpenError::BitOrder(_) => "failed to adapt Native DSD wire bit order"@,
            },
    {
        match self {
            DirettaOpenError::InvalidSelector => "invalid Diretta output selector",
            DirettaOpenError::InvalidTarget => "invalid Diretta target id",
            DirettaOpenError::BitOrder(_) => "failed to adapt Native DSD wire bit order",
        }
    }
}

/// The target that the identifier of a device names; `None` where it names none.
pub open spec fn named_target(selector: Seq<char>) -> Option<Seq<char>> {
    let rest = selector.skip(device_prefix().len() as int);
    if begins_with(selector, device_prefix()) && rest.len() > 0 && rest != "undefined"@ && rest
        != "null"@ {
        Some(rest)
    } else {
        None
    }
}

/// The target that the identifier of a device names.
pub fn selector_target(selector: &str) -> (r: Option<String>)
    ensures
        match r {
            Some(t) => named_target(selector@) == Some(t@),
            None => named_target(selector@) is None,
        },
{
    let chars: Vec<char> = to_chars(selector);
    let prefix: Vec<char> = to_chars(DEVICE_PREFIX);
    if !starts_with(chars.as_slice(), DEVICE_PREFIX) {
        return None;
    }
    let rest: Vec<char> = part(chars.as_slice(), prefix.len(), chars.len());
    assert(rest@ =~= selector@.skip(device_prefix().len() as int));
    if rest.len() == 0 || is_literal(rest.as_slice(), "undefined") || is_literal(
        rest.as_slice(),
        "null",
    ) {
        None
    } else {
        Some(to_text(rest.as_slice()))
    }
}

/// The identifier of the device that a target is.
pub fn selector_for(target_id: &str) -> (r: String)
    ensures
        r@ == device_prefix() + target_id@,
{
    let mut out: Vec<char> = Vec::new();
    append_literal(&mut out, DEVICE_PREFIX);
    let id: Vec<char> = to_chars(target_id);
    append(&mut out, id.as_slice());
    assert(out@ =~= device_prefix() + target_id@);
    to_text(out.as_slice())
}

/// The target to open for the identifier of a device. A name with a zero
/// character cannot be handed on.
pub fn open_target(selector: &str) -> (r: Result<String, DirettaOpenError>)
    ensures
        match r {
            Ok(t) => named_target(selector@) == Some(t@) && !t@.contains('\0'),
            Err(DirettaOpenError::InvalidSelector) => named_target(selector@) is None,
            Err(DirettaOpenError::InvalidTarget) => named_target(selector@) matches Some(t)
                && t.contains('\0'),
            Err(_) => false,
        },
{
    match selector_target(selector) {
        Some(target) => {
            if has_zero(target.as_str()) {
                Err(DirettaOpenError::InvalidTarget)
            } else {
                Ok(target)
            }
        },
        None => Err(DirettaOpenError::InvalidSelector),
    }
}

fn has_zero(target: &str) -> (r: bool)
    ensures
        r == target@.contains('\0'),
{
    let chars: Vec<char> = to_chars(target);
    let stop: usize = find_in_class(chars.as_slice(), CharClass::Only('\0'), 0);
    if stop < chars.len() {
        assert(chars@[stop as int] == '\0');
        true
    } else {
        assert(forall|k: int| 0 <= k < chars@.len() ==> chars@[k] != '\0');
        false
    }
}

/// The target that an identifier asks about: one named by a device's identifier,
/// or by itself.
pub open spec fn asked_target(target_id: Seq<char>) -> Seq<char> {
    match named_target(target_id) {
        Some(t) => t,
        None => target_id,
    }
}

/// The target to ask for what it can do. A name with a zero character cannot be
/// handed on.
pub fn query_target(target_id: &str) -> (r: Result<String, DirettaOpenError>)
    ensures
        match r {
            Ok(t) => t@ == asked_target(target_id@) && !t@.contains('\0'),
            Err(e) => e == DirettaOpenError::InvalidTarget && asked_target(target_id@).contains(
                '\0',
            ),
        },
{
    let target: String = match selector_target(target_id) {
        Some(t) => t,
        None => copied(target_id),
    };
    if has_zero(target.as_str()) {
        Err(DirettaOpenError::InvalidTarget)
    } else {
        Ok(target)
    }
}

/// The text of a failure: what is reported, or else a fallback.
pub fn failure_text(reported: Option<&str>, fallback: &str) -> (r: String)
    ensures
        r@ == match reported {
            Some(s) => if s@.len() > 0 {
                s@
            } else {
                fallback@
            },
            None => fallback@,
        },
{
    match reported {
        Some(s) => {
            let chars: Vec<char> = to_chars(s);
            if chars.len() > 0 {
                return to_text(chars.as_slice());
            }
        },
        None => {},
    }
    copied(fallback)
}

/// A target as a scan reports it. Texts that it does not know are empty.
pub struct ScannedDevice {
    pub id: String,
    pub name: String,
    pub ipv6_addr: String,
    pub full_addr: String,
    pub if_idx: i32,
    pub target_name: String,
    pub output_name: String,
    pub model_name: String,
    pub mtu: u32,
}

/// A text, or another where it is empty.
pub open spec fn text_or(s: Seq<char>, other: Seq<char>) -> Seq<char> {
    if s.len() == 0 {
        other
    } else {
        s
    }
}

/// Whether a device is what a scan reports.
pub open spec fn is_device_of(device: DirettaDevice, raw: ScannedDevice) -> bool {
    &&& device.id@ == device_prefix() + raw.id@
    &&& device.name@ == text_or(raw.name@, "Diretta Target"@)
    &&& device.ipv6_addr@ == text_or(raw.ipv6_addr@, raw.id@)
    &&& device.full_addr@ == text_or(raw.full_addr@, raw.id@)
    &&& device.if_idx == raw.if_idx
    &&& device.target_name@ == raw.target_name@
    &&& device.output_name@ == raw.output_name@
    &&& device.model_name@ == raw.model_name@
    &&& device.mtu == if raw.mtu > 0 {
        raw.mtu
    } else {
        1500
    }
}

fn text_or_else(s: &str, other: &str) -> (r: String)
    ensures
        r@ == text_or(s@, other@),
{
    let chars: Vec<char> = to_chars(s);
    if chars.len() == 0 {
        copied(other)
    } else {
        to_text(chars.as_slice())
    }
}

/// The device that a scan reports; `None` for one without an identifier.
pub fn device_from_scan(raw: &ScannedDevice) -> (r: Option<DirettaDevice>)
    ensures
        match r {
            Some(device) => raw.id@.len() > 0 && is_device_of(device, *raw),
            None => raw.id@.len() == 0,
        },
{
    let id: Vec<char> = to_chars(raw.id.as_str());
    if id.len() == 0 {
        return None;
    }
    Some(
        DirettaDevice {
            id: selector_for(raw.id.as_str()),
            name: text_or_else(raw.name.as_str(), "Diretta Target"),
            ipv6_addr: text_or_else(raw.ipv6_addr.as_str(), raw.id.as_str()),
            full_addr: text_or_else(raw.full_addr.as_str(), raw.id.as_str()),
            if_idx: raw.if_idx,
            target_name: copied(raw.target_name.as_str()),
            output_name: copied(raw.output_name.as_str()),
            model_name: copied(raw.model_name.as_str()),
            mtu: if raw.mtu > 0 {
                raw.mtu
            } else {
                1500
            },
        },
    )
}

/// The entries of a scan that have an identifier.
pub open spec fn identified(raw: Seq<ScannedDevice>) -> Seq<ScannedDevice> {
    raw.filter(|d: ScannedDevice| d.id@.len() > 0)
}

/// The devices of a scan that found `discovered` targets and had room for some:
/// those with an identifier, in order.
pub fn devices_from_scan(raw: &Vec<ScannedDevice>, discovered: usize) -> (r: Vec<DirettaDevice>)
    ensures
        ({
            let count = if discovered < raw@.len() {
                discovered as int
            } else {
                raw@.len() as int
            };
            let kept = identified(raw@.take(count));
            &&& r@.len() == kept.len()
            &&& forall|i: int| 0 <= i < kept.len() ==> is_device_of(#[trigger] r@[i], kept[i])
        }),
{
    let count: usize = if discovered < raw.len() {
        discovered
    } else {
        raw.len()
    };
    let mut r: Vec<DirettaDevice> = Vec::new();
    let mut i: usize = 0;
    assert(identified(raw@.take(0)) =~= Seq::empty()) by {
        reveal(Seq::filter);
    }
    while i < count
        invariant
            i <= count <= raw@.len(),
            r@.len() == identified(raw@.take(i as int)).len(),
            forall|k: int|
                0 <= k < r@.len() ==> is_device_of(
                    #[trigger] r@[k],
                    identified(raw@.take(i as int))[k],
                ),
        decreases count - i,
    {
        proof {
            reveal(Seq::filter);
            assert(raw@.take(i + 1).drop_last() =~= raw@.take(i as int));
        }
        match device_from_scan(&raw[i]) {
            Some(device) => r.push(device),
            None => {},
        }
        i += 1;
    }
    r
}

/// The outcome of a scan. One that found nothing has failed where it reports an
/// error.
pub fn scan_outcome(
    raw: &Vec<ScannedDevice>,
    discovered: usize,
    reported: Option<&str>,
) -> (r: Result<Vec<DirettaDevice>, String>)
    ensures
        match r {
            Ok(devices) => {
                let count = if discovered < raw@.len() {
                    discovered as int
                } else {
                    raw@.len() as int
                };
                let kept = identified(raw@.take(count));
                &&& discovered == 0 ==> !(reported matches Some(s) && s@.len() > 0)
                &&& devices@.len() == kept.len()
                &&& forall|i: int|
                    0 <= i < kept.len() ==> is_device_of(#[trigger] devices@[i], kept[i])
            },
            Err(text) => {
                &&& discovered == 0
                &&& reported matches Some(s) && s@.len() > 0 && text@ == s@
            },
        },
{
    if discovered == 0 {
        proof {
            reveal_strlit("");
        }
        let error: String = failure_text(reported, "");
        let chars: Vec<char> = to_chars(error.as_str());
        if chars.len() > 0 {
            return Err(error);
        }
    }
    Ok(devices_from_scan(raw, discovered))
}

/// Whether targets can be reached at all: not without the vendor's library.
pub fn available() -> (r: bool)
    ensures
        !r,
{
    false
}

/// Looks for targets without the vendor's library: there are none.
pub fn scan_devices() -> (r: Result<Vec<DirettaDevice>, DirettaOpenError>)
    ensures
        r matches Ok(v) && v@.len() == 0,
{
    Ok(Vec::new())
}

/// The bit order that was agreed on.
pub open spec fn order_of(lsb_first: bool) -> DirectDsdBitOrder {
    if lsb_first {
        DirectDsdBitOrder::LsbFirst
    } else {
        DirectDsdBitOrder::MsbFirst
    }
}

/// Matches a source to the bit order that a target agreed on: where it differs
/// from the source's, the ring is filled anew from the same bit.
pub fn adopt_wire_order(
    source: &mut DirectDsdSource,
    wire_lsb_first: bool,
    position_bits: u64,
    now_ms: u64,
) -> (r: Result<(), DirettaOpenError>)
    requires
        old(source).wf(),
        now_ms <= u64::MAX - PRE_MUTE_WINDOW_MS,
    ensures
        final(source).wf(),
        ({
            let wire = order_of(wire_lsb_first);
            if wire == old(source).format.bit_order {
                r is Ok && *final(source) == *old(source)
            } else {
                &&& final(source).wire_bit_order == wire
                &&& final(source).format == old(source).format
                &&& exists|moved: Result<u64, DirectDsdError>|
                    {
                        &&& #[trigger] final(source).moved_from(
                            old(source),
                            moved,
                            position_bits,
                            now_ms,
                        )
                        &&& r == match moved {
                            Ok(_) => Ok::<(), DirettaOpenError>(()),
                            Err(e) => Err(DirettaOpenError::BitOrder(e)),
                        }
                    }
            }
        }),
{
    let wire = if wire_lsb_first {
        DirectDsdBitOrder::LsbFirst
    } else {
        DirectDsdBitOrder::MsbFirst
    };
    if wire == source.format().bit_order {
        return Ok(());
    }
    let moved = source.set_wire_bit_order_while_paused(wire, position_bits, now_ms);
    assert(source.moved_from(old(source), moved, position_bits, now_ms));
    match moved {
        Ok(_) => Ok(()),
        Err(e) => Err(DirettaOpenError::BitOrder(e)),
    }
}

/// The identifier that is made for a target names it, unless the target's name
/// is empty or stands for none.
pub proof fn law_selector_names_its_target(target: Seq<char>)
    requires
        target.len() > 0,
        target != "undefined"@,
        target != "null"@,
    ensures
        named_target(device_prefix() + target) == Some(target),
{
    let selector = device_prefix() + target;
    assert(selector.skip(device_prefix().len() as int) =~= target);
    assert(selector.subrange(0, device_prefix().len() as int) =~= device_prefix());
}

/// Different targets have different identifiers.
pub proof fn law_selectors_tell_targets_apart(a: Seq<char>, b: Seq<char>)
    requires
        device_prefix() + a == device_prefix() + b,
    ensures
        a == b,
{
    let n = device_prefix().len() as int;
    assert((device_prefix() + a).skip(n) =~= a);
    assert((device_prefix() + b).skip(n) =~= b);
}

/// A selector is the word `diretta`, a colon and the target. Anything else names no
/// target, nor do the words that stand for nothing; a target that is asked for may be
/// given either way.
pub proof fn law_selectors_begin_with_their_prefix(target: Seq<char>, other: Seq<char>)
    requires
        other.len() > 0,
        other[0] != 'd',
    ensures
        device_prefix() == seq!['d', 'i', 'r', 'e', 't', 't', 'a', ':'],
        named_target(seq!['d', 'i', 'r', 'e', 't', 't', 'a', ':'] + target) == if target.len() == 0
            || target == "undefined"@ || target == "null"@ {
            None
        } else {
            Some(target)
        },
        named_target(other) is None,
        asked_target(other) == other,
        target.len() > 0 && target != "undefined"@ && target != "null"@ ==> asked_target(
            seq!['d', 'i', 'r', 'e', 't', 't', 'a', ':'] + target,
        ) == target,
{
    reveal_strlit("diretta:");
    let prefix = seq!['d', 'i', 'r', 'e', 't', 't', 'a', ':'];
    assert(device_prefix() =~= prefix);
    assert((prefix + target).subrange(0, 8) =~= prefix);
    assert((prefix + target).skip(8) =~= target);
    if begins_with(other, device_prefix()) {
        assert(other.subrange(0, 8)[0] == other[0]);
        assert(device_prefix()[0] == 'd');
    }
}

/// A device is told by what was scanned. What the scan left empty is filled in: a
/// name of its kind, its identifier for its addresses, and 1500 bytes for its packets.
pub proof fn law_devices_keep_what_was_scanned(device: DirettaDevice, raw: ScannedDevice)
    requires
        is_device_of(device, raw),
    ensures
        named_target(device.id@) matches Some(t) ==> t == raw.id@,
        raw.name@.len() > 0 ==> device.name@ == raw.name@,
        raw.name@.len() == 0 ==> device.name@ == "Diretta Target"@,
        raw.ipv6_addr@.len() > 0 ==> device.ipv6_addr@ == raw.ipv6_addr@,
        raw.ipv6_addr@.len() == 0 ==> device.ipv6_addr@ == raw.id@,
        raw.full_addr@.len() > 0 ==> device.full_addr@ == raw.full_addr@,
        raw.full_addr@.len() == 0 ==> device.full_addr@ == raw.id@,
        device.if_idx == raw.if_idx,
        device.target_name@ == raw.target_name@,
        device.output_name@ == raw.output_name@,
        device.model_name@ == raw.model_name@,
        raw.mtu > 0 ==> device.mtu == raw.mtu,
        raw.mtu == 0 ==> device.mtu == 1500,
{
    let prefix = device_prefix();
    assert((prefix + raw.id@).skip(prefix.len() as int) =~= raw.id@);
}

/// What was scanned without an identifier is no device; the others keep their order.
pub proof fn law_devices_have_an_identifier(raw: Seq<ScannedDevice>, more: ScannedDevice)
    ensures
        more.id@.len() > 0 ==> identified(raw.push(more)) == identified(raw).push(more),
        more.id@.len() == 0 ==> identified(raw.push(more)) == identified(raw),
        identified(Seq::empty()).len() == 0,
        order_of(true) == DirectDsdBitOrder::LsbFirst,
        order_of(false) == DirectDsdBitOrder::MsbFirst,
{
    reveal(Seq::filter);
    assert(raw.push(more).drop_last() =~= raw);
}

} // verus!
