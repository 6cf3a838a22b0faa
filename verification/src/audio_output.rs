//! Where sound goes: to a Diretta target, to a device of the system, or, where
//! there is none, to a clock that only consumes it.

use vstd::prelude::*;

use crate::diretta_output::{interface_index, parse_interface_index, Watchdog};
use crate::text::{begins_with, copied, part, same, starts_with, to_chars, to_text};

verus! {

/// Rate to a target where none is asked for.
pub const DEFAULT_TARGET_RATE: u32 = 48_000;

/// Channels to a target where none are asked for.
pub const DEFAULT_TARGET_CHANNELS: u16 = 2;

/// Chunks of sound that are pushed to a target first.
pub const OUTPUT_PREFILL_CHUNKS: usize = 10;

/// Rate of the clock that stands in for a device.
pub const VIRTUAL_RATE: u32 = 48_000;

/// Channels of the clock that stands in for a device.
pub const VIRTUAL_CHANNELS: u16 = 2;

/// Microseconds between two steps of that clock.
pub const VIRTUAL_STEP_MICROS: u64 = 20_000;

/// Samples of all channels that the clock consumes at a step.
pub const VIRTUAL_CHUNK_SAMPLES: usize = 1920;

/// Where sound is to go.
pub enum OutputRoute {
    /// To a Diretta target.
    Diretta { target_addr: String, if_idx: i32, sample_rate: u32, channels: u16 },
    /// To the device of this name.
    Device(String),
    /// To the system's default device.
    DefaultDevice,
}

/// The address of the target that a device's name stands for.
pub open spec fn target_address(name: Seq<char>) -> Option<Seq<char>> {
    if begins_with(name, "diretta:"@) || begins_with(name, "diretta@"@) {
        Some(name.skip("diretta:"@.len() as int))
    } else {
        None
    }
}

/// A number, or another where there is none.
pub open spec fn or_else_u32(value: Option<u32>, other: u32) -> u32 {
    match value {
        Some(v) => v,
        None => other,
    }
}

/// A number, or another where there is none.
pub open spec fn or_else_u16(value: Option<u16>, other: u16) -> u16 {
    match value {
        Some(v) => v,
        None => other,
    }
}

/// Whether sound for a device goes that way.
pub open spec fn is_route_of(
    route: OutputRoute,
    name: Option<Seq<char>>,
    sample_rate: Option<u32>,
    channels: Option<u16>,
) -> bool {
    match name {
        Some(n) => match target_address(n) {
            Some(addr) => match route {
                OutputRoute::Diretta { target_addr, if_idx, sample_rate: rate, channels: ch } => {
                    &&& target_addr@ == addr
                    &&& if_idx == interface_index(addr)
                    &&& rate == or_else_u32(sample_rate, DEFAULT_TARGET_RATE)
                    &&& ch == or_else_u16(channels, DEFAULT_TARGET_CHANNELS)
                },
                _ => false,
            },
            None => route matches OutputRoute::Device(d) && d@ == n,
        },
        None => route is DefaultDevice,
    }
}

/// Settles where sound for a device goes.
pub fn route_output(
    device_name: Option<&str>,
    sample_rate: Option<u32>,
    channels: Option<u16>,
) -> (r: OutputRoute)
    ensures
        is_route_of(
            r,
            match device_name {
                Some(n) => Some(n@),
                None => None,
            },
            sample_rate,
            channels,
        ),
{
    let name = match device_name {
        Some(name) => name,
        None => {
            return OutputRoute::DefaultDevice;
        },
    };
    let chars: Vec<char> = to_chars(name);
    if starts_with(chars.as_slice(), "diretta:") || starts_with(chars.as_slice(), "diretta@") {
        proof {
            reveal_strlit("diretta:");
            reveal_strlit("diretta@");
        }
        let addr: Vec<char> = part(chars.as_slice(), 8, chars.len());
        assert(addr@ =~= name@.skip("diretta:"@.len() as int));
        let target_addr: String = to_text(addr.as_slice());
        let if_idx: i32 = parse_interface_index(target_addr.as_str());
        return OutputRoute::Diretta {
            target_addr,
            if_idx,
            sample_rate: match sample_rate {
                Some(rate) => rate,
                None => DEFAULT_TARGET_RATE,
            },
            channels: match channels {
                Some(n) => n,
                None => DEFAULT_TARGET_CHANNELS,
            },
        };
    }
    OutputRoute::Device(copied(name))
}

/// What is opened for an output.
#[derive(Debug, Clone, Copy, PartialEq, Eq, Structural)]
pub enum OutputStage {
    /// A Diretta target.
    Target,
    /// The device of a certain name.
    Device,
    /// The system's default device.
    DefaultDevice,
    /// The clock that only consumes sound.
    VirtualClock,
}

/// Why what was opened for an output gives none.
#[derive(Debug, Clone, Copy, PartialEq, Eq, Structural)]
pub enum OutputFailure {
    /// There is no device of that name.
    NotFound,
    /// It is there and cannot be opened, or there is nothing at all.
    NotOpened,
}

/// Why there is no output.
#[derive(Debug, Clone, Copy, PartialEq, Eq, Structural)]
pub enum OutputError {
    /// The device that was asked for is not there.
    DeviceNotFound,
}

/// What is opened first.
pub fn first_output(route: &OutputRoute) -> (r: OutputStage)
    ensures
        r == match *route {
            OutputRoute::Diretta { .. } => OutputStage::Target,
            OutputRoute::Device(_) => OutputStage::Device,
            OutputRoute::DefaultDevice => OutputStage::DefaultDevice,
        },
{
    match route {
        OutputRoute::Diretta { .. } => OutputStage::Target,
        OutputRoute::Device(_) => OutputStage::Device,
        OutputRoute::DefaultDevice => OutputStage::DefaultDevice,
    }
}

/// What is opened after something that failed: the system's default device for a
/// target, and the clock for a device. A device that was asked for by its name
/// and is not there is an error: nothing stands in for it.
pub fn next_output(failed: OutputStage, why: OutputFailure) -> (r: Result<OutputStage, OutputError>)
    ensures
        r == match failed {
            OutputStage::Target => Ok::<OutputStage, OutputError>(OutputStage::DefaultDevice),
            OutputStage::Device => if why == OutputFailure::NotFound {
                Err(OutputError::DeviceNotFound)
            } else {
                Ok(OutputStage::VirtualClock)
            },
            OutputStage::DefaultDevice => Ok(OutputStage::VirtualClock),
            OutputStage::VirtualClock => Ok(OutputStage::VirtualClock),
        },
{
    match failed {
        OutputStage::Target => Ok(OutputStage::DefaultDevice),
        OutputStage::Device => {
            if why == OutputFailure::NotFound {
                Err(OutputError::DeviceNotFound)
            } else {
                Ok(OutputStage::VirtualClock)
            }
        },
        OutputStage::DefaultDevice => Ok(OutputStage::VirtualClock),
        OutputStage::VirtualClock => Ok(OutputStage::VirtualClock),
    }
}

/// The place of the device that is to be opened; `None` for the system's default.
/// A name that no device has is an error.
pub fn device_to_open(names: &Vec<String>, route: &OutputRoute) -> (r: Result<
    Option<usize>,
    OutputFailure,
>)
    ensures
        match *route {
            OutputRoute::Device(name) => match r {
                Ok(Some(i)) => {
                    &&& i < names@.len()
                    &&& names@[i as int]@ == name@
                    &&& forall|k: int| 0 <= k < i ==> (#[trigger] names@[k])@ != name@
                },
                Ok(None) => false,
                Err(why) => {
                    &&& why == OutputFailure::NotFound
                    &&& forall|k: int|
                        0 <= k < names@.len() ==> (#[trigger] names@[k])@ != name@
                },
            },
            _ => r == Ok::<Option<usize>, OutputFailure>(None),
        },
{
    match route {
        OutputRoute::Device(name) => match find_device(names, name.as_str()) {
            Some(i) => Ok(Some(i)),
            None => Err(OutputFailure::NotFound),
        },
        _ => Ok(None),
    }
}

/// Whether output to a target goes on.
#[derive(Debug, Clone, Copy, PartialEq, Eq, Structural)]
pub enum OutputStep {
    GoOn,
    /// It ends, as it is no longer needed.
    ShutDown,
    /// It ends, as a write failed.
    WriteFailed,
    /// It ends, as the link is dead.
    Stalled,
}

/// The state of output to a target.
#[derive(Debug, Clone, Copy, PartialEq, Eq, Structural)]
pub struct OutputLoop {
    pub watchdog: Watchdog,
    pub tick: u64,
}

impl OutputLoop {
    /// Output at its start.
    pub fn new() -> (r: Self)
        ensures
            r == (OutputLoop { watchdog: Watchdog::fresh(), tick: 0 }),
    {
        OutputLoop { watchdog: Watchdog::new(), tick: 0 }
    }

    /// Begins a step, and tells whether it is worth a line in the log.
    pub fn begin(&mut self, shut_down: bool) -> (r: (OutputStep, bool))
        ensures
            r.0 == if shut_down {
                OutputStep::ShutDown
            } else {
                OutputStep::GoOn
            },
            shut_down ==> *final(self) == *old(self) && !r.1,
            !shut_down ==> {
                &&& r.1 == (old(self).tick < 5 || old(self).tick % 100 == 0)
                &&& *final(self) == (OutputLoop {
                    tick: ((old(self).tick + 1) % 0x1_0000_0000_0000_0000) as u64,
                    ..*old(self)
                })
            },
    {
        if shut_down {
            return (OutputStep::ShutDown, false);
        }
        let tick: u64 = self.tick;
        self.tick = tick.wrapping_add(1);
        (OutputStep::GoOn, tick < 5 || tick % 100 == 0)
    }

    /// Ends a step with the outcome of the write and whether the target answers.
    pub fn end(&mut self, written: bool, online: bool) -> (r: OutputStep)
        ensures
            if !written {
                r == OutputStep::WriteFailed && *final(self) == *old(self)
            } else {
                &&& *final(self) == (OutputLoop {
                    watchdog: old(self).watchdog.after(online),
                    ..*old(self)
                })
                &&& r == if final(self).watchdog.dead() {
                    OutputStep::Stalled
                } else {
                    OutputStep::GoOn
                }
            },
    {
        if !written {
            return OutputStep::WriteFailed;
        }
        if self.watchdog.watch(online) {
            OutputStep::Stalled
        } else {
            OutputStep::GoOn
        }
    }
}

/// How long the clock sleeps after a step that took so long; not at all where it
/// took too long.
pub fn virtual_sleep(elapsed_micros: u64) -> (r: u64)
    ensures
        r == if elapsed_micros < VIRTUAL_STEP_MICROS {
            VIRTUAL_STEP_MICROS - elapsed_micros
        } else {
            0
        },
{
    if elapsed_micros < VIRTUAL_STEP_MICROS {
        VIRTUAL_STEP_MICROS - elapsed_micros
    } else {
        0
    }
}

/// The place of a device by its name.
pub fn find_device(names: &Vec<String>, name: &str) -> (r: Option<usize>)
    ensures
        match r {
            Some(i) => {
                &&& i < names@.len()
                &&& names@[i as int]@ == name@
                &&& forall|k: int| 0 <= k < i ==> (#[trigger] names@[k])@ != name@
            },
            None => forall|k: int| 0 <= k < names@.len() ==> (#[trigger] names@[k])@ != name@,
        },
{
    let wanted: Vec<char> = to_chars(name);
    let n: usize = names.len();
    let mut i: usize = 0;
    while i < n
        invariant
            i <= n,
            n == names@.len(),
            wanted@ == name@,
            forall|k: int| 0 <= k < i ==> (#[trigger] names@[k])@ != name@,
        decreases n - i,
    {
        let found: Vec<char> = to_chars(names[i].as_str());
        if same(found.as_slice(), wanted.as_slice()) {
            return Some(i);
        }
        i += 1;
    }
    None
}

/// The devices by name, each with whether it is the system's default.
pub fn list_output_devices(names: &Vec<String>, default_name: Option<&str>) -> (r: Vec<
    (String, bool),
>)
    ensures
        r@.len() == names@.len(),
        forall|i: int|
            0 <= i < names@.len() ==> {
                &&& (#[trigger] r@[i]).0@ == names@[i]@
                &&& r@[i].1 == (default_name matches Some(d) && d@ == names@[i]@)
            },
{
    let n: usize = names.len();
    let mut r: Vec<(String, bool)> = Vec::new();
    let mut i: usize = 0;
    while i < n
        invariant
            i <= n,
            n == names@.len(),
            r@.len() == i,
            forall|k: int|
                0 <= k < i ==> {
                    &&& (#[trigger] r@[k]).0@ == names@[k]@
                    &&& r@[k].1 == (default_name matches Some(d) && d@ == names@[k]@)
                },
        decreases n - i,
    {
        let name: Vec<char> = to_chars(names[i].as_str());
        let is_default: bool = match default_name {
            Some(d) => {
                let wanted: Vec<char> = to_chars(d);
                same(name.as_slice(), wanted.as_slice())
            },
            None => false,
        };
        r.push((to_text(name.as_slice()), is_default));
        i += 1;
    }
    r
}

/// A name with either mark of a target is never looked for among the devices,
/// and a name with neither is never taken for a target.
pub proof fn law_targets_and_devices_are_told_apart(
    route: OutputRoute,
    name: Seq<char>,
    sample_rate: Option<u32>,
    channels: Option<u16>,
)
    requires
        is_route_of(route, Some(name), sample_rate, channels),
    ensures
        route is Diretta == (begins_with(name, "diretta:"@) || begins_with(name, "diretta@"@)),
        route is Device == !(route is Diretta),
{
}

/// A target is named by its address behind the word `diretta` and a colon or an at
/// sign. It is sent 48 kHz and two channels where nothing else is asked for. Other
/// names are those of devices; no name is the default device.
pub proof fn law_outputs_are_told_by_their_name(
    route: OutputRoute,
    addr: Seq<char>,
    mark: char,
    sample_rate: Option<u32>,
    channels: Option<u16>,
)
    requires
        mark == ':' || mark == '@',
        is_route_of(
            route,
            Some(seq!['d', 'i', 'r', 'e', 't', 't', 'a', mark] + addr),
            sample_rate,
            channels,
        ),
    ensures
        match route {
            OutputRoute::Diretta { target_addr, if_idx, sample_rate: rate, channels: ch } => {
                &&& target_addr@ == addr
                &&& if_idx == interface_index(addr)
                &&& (sample_rate matches Some(r) ==> rate == r)
                &&& sample_rate is None ==> rate == 48_000
                &&& (channels matches Some(c) ==> ch == c)
                &&& channels is None ==> ch == 2
            },
            _ => false,
        },
{
    reveal_strlit("diretta:");
    reveal_strlit("diretta@");
    let word = seq!['d', 'i', 'r', 'e', 't', 't', 'a', mark];
    let name = word + addr;
    assert("diretta:"@ =~= seq!['d', 'i', 'r', 'e', 't', 't', 'a', ':']);
    assert("diretta@"@ =~= seq!['d', 'i', 'r', 'e', 't', 't', 'a', '@']);
    assert(name.subrange(0, 8) =~= word);
    assert(name.skip(8) =~= addr);
}

/// A name that is no target's is a device's, and stays as it is.
pub proof fn law_device_names_stay(
    route: OutputRoute,
    name: Seq<char>,
    sample_rate: Option<u32>,
    channels: Option<u16>,
)
    requires
        name.len() == 0 || name[0] != 'd',
    ensures
        is_route_of(route, Some(name), sample_rate, channels) <==> (route matches OutputRoute::Device(
            d,
        ) && d@ == name),
        is_route_of(route, None, sample_rate, channels) <==> route is DefaultDevice,
{
    reveal_strlit("diretta:");
    reveal_strlit("diretta@");
    if begins_with(name, "diretta:"@) {
        assert(name.subrange(0, 8)[0] == name[0]);
        assert("diretta:"@[0] == 'd');
    }
    if begins_with(name, "diretta@"@) {
        assert(name.subrange(0, 8)[0] == name[0]);
        assert("diretta@"@[0] == 'd');
    }
}

/// A clock without a device takes a chunk of 20 milliseconds at a time, of 48 kHz and
/// two channels.
pub proof fn law_an_imagined_output_keeps_time()
    ensures
        VIRTUAL_RATE == 48_000,
        VIRTUAL_CHANNELS == 2,
        VIRTUAL_STEP_MICROS == 20_000,
        VIRTUAL_CHUNK_SAMPLES * 1_000_000 == VIRTUAL_RATE * VIRTUAL_CHANNELS * VIRTUAL_STEP_MICROS,
        OUTPUT_PREFILL_CHUNKS == 10,
        DEFAULT_TARGET_RATE == 48_000,
        DEFAULT_TARGET_CHANNELS == 2,
{
}

} // verus!
