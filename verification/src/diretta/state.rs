//! What is known of the running Diretta output, and of the targets that were
//! asked for what they can do.

use vstd::prelude::*;

use crate::diretta::DirettaSinkInfo;
use crate::text::{copied, same, to_chars};

verus! {

/// The running Diretta output.
#[derive(Debug, Clone)]
pub struct DirettaRuntimeState {
    pub is_diretta_active: bool,
    /// The target answers.
    pub is_online: bool,
    pub is_playing: bool,
    pub target_addr: String,
    pub sample_rate: u32,
    pub channels: u16,
    /// Writes that failed.
    pub underrun_count: usize,
    pub is_dsd: bool,
    pub last_error: Option<String>,
}

/// The running Diretta output, as a value.
#[verifier::ext_equal]
pub struct RuntimeView {
    pub is_diretta_active: bool,
    pub is_online: bool,
    pub is_playing: bool,
    pub target_addr: Seq<char>,
    pub sample_rate: u32,
    pub channels: u16,
    pub underrun_count: usize,
    pub is_dsd: bool,
    pub last_error: Option<Seq<char>>,
}

impl View for DirettaRuntimeState {
    type V = RuntimeView;

    open spec fn view(&self) -> RuntimeView {
        RuntimeView {
            is_diretta_active: self.is_diretta_active,
            is_online: self.is_online,
            is_playing: self.is_playing,
            target_addr: self.target_addr@,
            sample_rate: self.sample_rate,
            channels: self.channels,
            underrun_count: self.underrun_count,
            is_dsd: self.is_dsd,
            last_error: match self.last_error {
                Some(s) => Some(s@),
                None => None,
            },
        }
    }
}

impl RuntimeView {
    /// No output runs.
    pub open spec fn idle() -> RuntimeView {
        RuntimeView {
            is_diretta_active: false,
            is_online: false,
            is_playing: false,
            target_addr: Seq::empty(),
            sample_rate: 0,
            channels: 0,
            underrun_count: 0,
            is_dsd: false,
            last_error: None,
        }
    }

    /// A connection to a target has begun.
    pub open spec fn connecting(
        target_addr: Seq<char>,
        sample_rate: u32,
        channels: u16,
        is_dsd: bool,
    ) -> RuntimeView {
        RuntimeView {
            is_diretta_active: true,
            target_addr,
            sample_rate,
            channels,
            is_dsd,
            ..RuntimeView::idle()
        }
    }

    /// A write has failed.
    pub open spec fn after_failure(self, error: Seq<char>) -> RuntimeView {
        RuntimeView {
            underrun_count: if self.underrun_count == usize::MAX {
                usize::MAX
            } else {
                (self.underrun_count + 1) as usize
            },
            last_error: Some(error),
            ..self
        }
    }
}

impl DirettaRuntimeState {
    /// No output runs.
    pub fn new() -> (r: Self)
        ensures
            r@ == RuntimeView::idle(),
    {
        proof {
            reveal_strlit("");
        }
        DirettaRuntimeState {
            is_diretta_active: false,
            is_online: false,
            is_playing: false,
            target_addr: copied(""),
            sample_rate: 0,
            channels: 0,
            underrun_count: 0,
            is_dsd: false,
            last_error: None,
        }
    }
}

impl Default for DirettaRuntimeState {
    /// No output runs.
    fn default() -> (r: Self)
        ensures
            r@ == RuntimeView::idle(),
    {
        DirettaRuntimeState::new()
    }
}

/// A copy of the state.
pub fn runtime_state(state: &DirettaRuntimeState) -> (r: DirettaRuntimeState)
    ensures
        r@ == state@,
{
    DirettaRuntimeState {
        is_diretta_active: state.is_diretta_active,
        is_online: state.is_online,
        is_playing: state.is_playing,
        target_addr: copied(state.target_addr.as_str()),
        sample_rate: state.sample_rate,
        channels: state.channels,
        underrun_count: state.underrun_count,
        is_dsd: state.is_dsd,
        last_error: match &state.last_error {
            Some(s) => Some(copied(s.as_str())),
            None => None,
        },
    }
}

/// Notes that a connection to a target has begun.
pub fn runtime_state_begin(
    state: &mut DirettaRuntimeState,
    target_addr: &str,
    sample_rate: u32,
    channels: u16,
    is_dsd: bool,
)
    ensures
        final(state)@ == RuntimeView::connecting(target_addr@, sample_rate, channels, is_dsd),
{
    let mut fresh = DirettaRuntimeState::new();
    fresh.is_diretta_active = true;
    fresh.target_addr = copied(target_addr);
    fresh.sample_rate = sample_rate;
    fresh.channels = channels;
    fresh.is_dsd = is_dsd;
    *state = fresh;
}

/// Notes whether the target answers and whether it plays.
pub fn runtime_state_set_connection(
    state: &mut DirettaRuntimeState,
    online: bool,
    playing: bool,
)
    ensures
        final(state)@ == (RuntimeView { is_online: online, is_playing: playing, ..old(state)@ }),
{
    state.is_online = online;
    state.is_playing = playing;
}

/// Notes that a write has failed.
pub fn runtime_state_record_failure(state: &mut DirettaRuntimeState, error: &str)
    ensures
        final(state)@ == old(state)@.after_failure(error@),
{
    if state.underrun_count < usize::MAX {
        state.underrun_count = state.underrun_count + 1;
    }
    state.last_error = Some(copied(error));
}

/// Notes that no output runs.
pub fn runtime_state_reset(state: &mut DirettaRuntimeState)
    ensures
        final(state)@ == RuntimeView::idle(),
{
    *state = DirettaRuntimeState::new();
}

/// What the targets that were asked can do, by their address.
pub struct CapabilityCache {
    pub entries: Vec<(String, DirettaSinkInfo)>,
}

/// What is known by entries: of several for an address the last counts.
pub open spec fn known(entries: Seq<(String, DirettaSinkInfo)>, key: Seq<char>) -> Option<
    DirettaSinkInfo,
>
    decreases entries.len(),
{
    if entries.len() == 0 {
        None
    } else if entries.last().0@ == key {
        Some(entries.last().1)
    } else {
        known(entries.drop_last(), key)
    }
}

impl CapabilityCache {
    /// No two entries are for one address.
    pub open spec fn wf(&self) -> bool {
        forall|i: int, j: int|
            0 <= i < j < self.entries@.len() ==> (#[trigger] self.entries@[i]).0@ != (
            #[trigger] self.entries@[j]).0@
    }

    /// What is known of an address.
    pub open spec fn at(&self, key: Seq<char>) -> Option<DirettaSinkInfo> {
        known(self.entries@, key)
    }

    /// Nothing is known.
    pub fn new() -> (r: Self)
        ensures
            r.wf(),
            forall|key: Seq<char>| r.at(key) is None,
    {
        CapabilityCache { entries: Vec::new() }
    }

    /// Looks an address up.
    pub fn get(&self, key: &str) -> (r: Option<DirettaSinkInfo>)
        ensures
            r == self.at(key@),
    {
        let wanted: Vec<char> = to_chars(key);
        let mut i: usize = self.entries.len();
        assert(self.entries@.take(i as int) =~= self.entries@);
        while i > 0
            invariant
                i <= self.entries@.len(),
                wanted@ == key@,
                known(self.entries@.take(i as int), key@) == self.at(key@),
            decreases i,
        {
            let ghost seen = self.entries@.take(i as int);
            assert(seen.drop_last() =~= self.entries@.take(i - 1));
            i -= 1;
            let name: Vec<char> = to_chars(self.entries[i].0.as_str());
            if same(name.as_slice(), wanted.as_slice()) {
                return Some(self.entries[i].1);
            }
        }
        None
    }

    /// Notes what a target can do, in place of what was noted of its address.
    pub fn insert(&mut self, key: &str, info: DirettaSinkInfo)
        requires
            old(self).wf(),
        ensures
            final(self).wf(),
            forall|k: Seq<char>| #[trigger]
                final(self).at(k) == if k == key@ {
                    Some(info)
                } else {
                    old(self).at(k)
                },
    {
        let wanted: Vec<char> = to_chars(key);
        let ghost before = self.entries@;
        let mut i: usize = 0;
        while i < self.entries.len()
            invariant
                i <= self.entries@.len(),
                self.entries@ == before,
                before == old(self).entries@,
                old(self).wf(),
                wanted@ == key@,
                forall|j: int| 0 <= j < i ==> (#[trigger] before[j]).0@ != key@,
            decreases self.entries@.len() - i,
        {
            let name: Vec<char> = to_chars(self.entries[i].0.as_str());
            if same(name.as_slice(), wanted.as_slice()) {
                let entry: (String, DirettaSinkInfo) = (copied(key), info);
                self.entries.set(i, entry);
                proof {
                    assert(self.entries@ =~= before.update(i as int, entry));
                    assert forall|k: Seq<char>| #[trigger]
                        self.at(k) == if k == key@ {
                            Some(info)
                        } else {
                            known(before, k)
                        } by {
                        lemma_known_replaced(before, i as int, entry, k);
                    }
                }
                return ;
            }
            i += 1;
        }
        self.entries.push((copied(key), info));
        proof {
            assert forall|k: Seq<char>| #[trigger]
                self.at(k) == if k == key@ {
                    Some(info)
                } else {
                    known(before, k)
                } by {
                assert(self.entries@.drop_last() =~= before);
            }
        }
    }
}

/// Replacing the one entry for an address changes what is known of it alone.
proof fn lemma_known_replaced(
    entries: Seq<(String, DirettaSinkInfo)>,
    i: int,
    entry: (String, DirettaSinkInfo),
    key: Seq<char>,
)
    requires
        0 <= i < entries.len(),
        entries[i].0@ == entry.0@,
        forall|j: int| i < j < entries.len() ==> (#[trigger] entries[j]).0@ != entry.0@,
    ensures
        known(entries.update(i, entry), key) == if key == entry.0@ {
            Some(entry.1)
        } else {
            known(entries, key)
        },
    decreases entries.len(),
{
    let new = entries.update(i, entry);
    if i < entries.len() - 1 {
        assert(new.drop_last() =~= entries.drop_last().update(i, entry));
        lemma_known_replaced(entries.drop_last(), i, entry, key);
    } else {
        assert(new.drop_last() =~= entries.drop_last());
    }
}

/// Forgets what the targets can do, as after they changed.
pub fn clear_capability_cache(cache: &mut CapabilityCache)
    ensures
        final(cache).wf(),
        forall|key: Seq<char>| final(cache).at(key) is None,
{
    cache.entries = Vec::new();
}

/// Whatever ran before, a connection starts without a trace of it.
pub proof fn law_connecting_forgets_the_past(
    before: RuntimeView,
    error: Seq<char>,
    target_addr: Seq<char>,
    sample_rate: u32,
    channels: u16,
    is_dsd: bool,
)
    ensures
        RuntimeView::connecting(target_addr, sample_rate, channels, is_dsd).last_error is None,
        RuntimeView::connecting(target_addr, sample_rate, channels, is_dsd).underrun_count == 0,
        before.after_failure(error).last_error == Some(error),
        before.underrun_count < usize::MAX ==> before.after_failure(error).underrun_count
            == before.underrun_count + 1,
{
}

/// While a connection is made, its target and format are told and it counts as
/// active; it is neither online nor playing yet.
pub proof fn law_a_connection_tells_its_target(
    target_addr: Seq<char>,
    sample_rate: u32,
    channels: u16,
    is_dsd: bool,
)
    ensures
        ({
            let v = RuntimeView::connecting(target_addr, sample_rate, channels, is_dsd);
            &&& v.is_diretta_active && !v.is_online && !v.is_playing
            &&& v.target_addr == target_addr
            &&& v.sample_rate == sample_rate && v.channels == channels && v.is_dsd == is_dsd
        }),
        !RuntimeView::idle().is_diretta_active && !RuntimeView::idle().is_online
            && !RuntimeView::idle().is_playing && RuntimeView::idle().target_addr.len() == 0
            && RuntimeView::idle().last_error is None && RuntimeView::idle().sample_rate == 0
            && RuntimeView::idle().channels == 0 && RuntimeView::idle().underrun_count == 0
            && !RuntimeView::idle().is_dsd,
{
}

/// What was last noted of a target is what is known of it, and says nothing of the
/// others.
pub proof fn law_the_last_note_is_known(
    entries: Seq<(String, DirettaSinkInfo)>,
    entry: (String, DirettaSinkInfo),
    other: Seq<char>,
)
    ensures
        known(entries.push(entry), entry.0@) == Some(entry.1),
        other != entry.0@ ==> known(entries.push(entry), other) == known(entries, other),
        known(Seq::empty(), other) is None,
{
    assert(entries.push(entry).drop_last() =~= entries);
}

} // verus!
