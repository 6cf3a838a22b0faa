//! The output that pushes sound to a Diretta target: which connection is used,
//! and when pushing goes on or ends.

use vstd::prelude::*;

use crate::number::{i32_value, parse_i32};
use crate::text::{
    last_in_class, part, rfind_in_class, same, split_once, split_once_at, to_chars, to_text,
    CharClass,
};

verus! {

/// Microseconds between two pushes.
pub const PUSH_STEP_MICROS: u64 = 10_000;

/// Chunks of silence that are pushed first.
pub const PREFILL_CHUNKS: usize = 30;

/// Pushes after the start during which the target need not answer.
pub const WATCHDOG_GRACE_TICKS: u32 = 50;

/// Pushes in a row without an answer after which the link is dead.
pub const WATCHDOG_DEAD_TICKS: u32 = 40;

/// Failed pushes in a row after which pushing ends.
pub const MAX_WRITE_ERRORS: u32 = 10;

/// How far pushing may lag behind before it stops to catch up, in microseconds.
pub const TICK_CATCHUP_MICROS: u64 = 50_000;

/// The rate to connect with: one of the 44.1 kHz family, on which targets lock
/// reliably. Sources of other rates are converted to it.
pub fn connection_rate(requested: Option<u32>) -> (r: u32)
    ensures
        r == match requested {
            Some(rate) => if rate == 44_100 || rate == 88_200 || rate == 176_400 || rate
                == 352_800 {
                rate
            } else {
                44_100
            },
            None => 44_100,
        },
{
    match requested {
        Some(rate) => {
            if rate == 44_100 || rate == 88_200 || rate == 176_400 || rate == 352_800 {
                rate
            } else {
                44_100
            }
        },
        None => 44_100,
    }
}

/// Samples of all channels in one push.
pub fn chunk_samples(sample_rate: u32, channels: u16) -> (r: u64)
    ensures
        r == (sample_rate * channels * 10) / 1000,
{
    proof {
        let a = sample_rate as int;
        let c = channels as int;
        assert(0 <= a * c <= 0xffff_ffff * 0xffff) by (nonlinear_arith)
            requires
                0 <= a <= 0xffff_ffff,
                0 <= c <= 0xffff,
        ;
    }
    (sample_rate as u64 * channels as u64 * 10) / 1000
}

/// The interface that an address `ip[%interface][,port]` names; 0 where it names
/// none.
pub open spec fn interface_index(addr: Seq<char>) -> int {
    let before = match split_once(addr, ',') {
        Some((a, _)) => a,
        None => addr,
    };
    match split_once(before, '%') {
        Some((_, b)) => match i32_value(b) {
            Some(n) => n,
            None => 0,
        },
        None => 0,
    }
}

/// The interface that an address names.
pub fn parse_interface_index(target_addr: &str) -> (r: i32)
    ensures
        r == interface_index(target_addr@),
{
    let mut addr: Vec<char> = to_chars(target_addr);
    match split_once_at(addr.as_slice(), ',') {
        Some((a, _)) => {
            addr = a;
        },
        None => {},
    }
    match split_once_at(addr.as_slice(), '%') {
        Some((_, b)) => match parse_i32(b.as_slice()) {
            Some(n) => n,
            None => 0,
        },
        None => 0,
    }
}

/// An address up to its last `%` or `,`.
pub open spec fn short_address(addr: Seq<char>) -> Seq<char> {
    match (last_in_class(addr, CharClass::Only('%')), last_in_class(addr, CharClass::Only(','))) {
        (Some(a), Some(b)) => addr.take(
            if a > b {
                a
            } else {
                b
            },
        ),
        (Some(a), None) => addr.take(a),
        (None, Some(b)) => addr.take(b),
        (None, None) => addr,
    }
}

/// A short form of an address, for names and logs.
pub fn short_target(target_addr: &str) -> (r: String)
    ensures
        r@ == short_address(target_addr@),
{
    let chars: Vec<char> = to_chars(target_addr);
    let a: Option<usize> = rfind_in_class(chars.as_slice(), CharClass::Only('%'));
    let b: Option<usize> = rfind_in_class(chars.as_slice(), CharClass::Only(','));
    let end: usize = match (a, b) {
        (Some(a), Some(b)) => if a > b {
            a
        } else {
            b
        },
        (Some(a), None) => a,
        (None, Some(b)) => b,
        (None, None) => chars.len(),
    };
    let name: Vec<char> = part(chars.as_slice(), 0, end);
    assert(name@ =~= short_address(target_addr@));
    to_text(name.as_slice())
}

// ---------------------------------------------------------------------------
// Connections that are kept
// ---------------------------------------------------------------------------

/// A connection that is kept open.
pub struct KeptConnection {
    pub addr: String,
    /// It still pushes.
    pub alive: bool,
    /// Holders of it, with the one that pushes.
    pub owners: usize,
}

/// What is done to reach a target.
#[derive(Debug, Clone, Copy, PartialEq, Eq, Structural)]
pub enum AcquireStep {
    /// Use the connection at this place.
    Reuse(usize),
    /// Connect anew.
    Connect,
}

/// Whether a connection leads to a target and lives.
pub open spec fn serves(kept: KeptConnection, target: Seq<char>) -> bool {
    kept.addr@ == target && kept.alive
}

/// Whether a connection stays when a new one is made: it leads to the target, or
/// something still plays on it.
pub open spec fn stays(kept: KeptConnection, target: Seq<char>) -> bool {
    kept.addr@ == target || kept.owners > 1
}

/// The connections that stay when a new one is made.
pub open spec fn staying(kept: Seq<KeptConnection>, target: Seq<char>) -> Seq<KeptConnection> {
    kept.filter(|k: KeptConnection| stays(k, target))
}

/// Settles how a target is reached. A connection that lives is used again,
/// whatever its rate, since a new one would unlock the target's clock. For a new
/// one those go that nothing plays on.
pub fn acquire_diretta_output(kept: &mut Vec<KeptConnection>, target_addr: &str) -> (r: AcquireStep)
    ensures
        match r {
            AcquireStep::Reuse(i) => {
                &&& final(kept)@ == old(kept)@
                &&& i < old(kept)@.len()
                &&& serves(old(kept)@[i as int], target_addr@)
            },
            AcquireStep::Connect => {
                &&& forall|i: int|
                    0 <= i < old(kept)@.len() ==> !serves(#[trigger] old(kept)@[i], target_addr@)
                &&& final(kept)@ == staying(old(kept)@, target_addr@)
            },
        },
{
    let target: Vec<char> = to_chars(target_addr);
    let n: usize = kept.len();
    let ghost all = kept@;
    let mut i: usize = 0;
    while i < n
        invariant
            i <= n,
            n == kept@.len(),
            kept@ == all,
            all == old(kept)@,
            target@ == target_addr@,
            forall|k: int| 0 <= k < i ==> !serves(#[trigger] all[k], target_addr@),
        decreases n - i,
    {
        let addr: Vec<char> = to_chars(kept[i].addr.as_str());
        if kept[i].alive && same(addr.as_slice(), target.as_slice()) {
            return AcquireStep::Reuse(i);
        }
        i += 1;
    }
    let ghost keep = |k: KeptConnection| stays(k, target_addr@);
    let mut at: usize = 0;
    let mut seen: usize = 0;
    assert(all.take(0).filter(keep) =~= Seq::empty()) by {
        reveal(Seq::filter);
    }
    assert(kept@ =~= all.take(0).filter(keep) + all.skip(0));
    while seen < n
        invariant
            seen <= n,
            n == all.len(),
            all == old(kept)@,
            at <= seen,
            target@ == target_addr@,
            keep == (|k: KeptConnection| stays(k, target_addr@)),
            at == all.take(seen as int).filter(keep).len(),
            kept@ == all.take(seen as int).filter(keep) + all.skip(seen as int),
            forall|k: int| 0 <= k < n ==> !serves(#[trigger] all[k], target_addr@),
        decreases n - seen,
    {
        proof {
            assert(kept@[at as int] == all[seen as int]);
            assert(all.take(seen + 1).drop_last() =~= all.take(seen as int));
            reveal(Seq::filter);
        }
        let addr: Vec<char> = to_chars(kept[at].addr.as_str());
        if kept[at].owners > 1 || same(addr.as_slice(), target.as_slice()) {
            at += 1;
            assert(kept@ =~= all.take(seen + 1).filter(keep) + all.skip(seen + 1));
        } else {
            kept.remove(at);
            assert(kept@ =~= all.take(seen + 1).filter(keep) + all.skip(seen + 1));
        }
        seen += 1;
    }
    proof {
        assert(all.take(n as int) =~= all);
        assert(kept@ =~= all.filter(keep));
    }
    AcquireStep::Connect
}

// ---------------------------------------------------------------------------
// Pushing
// ---------------------------------------------------------------------------

/// Watches whether a target answers.
#[derive(Debug, Clone, Copy, PartialEq, Eq, Structural)]
pub struct Watchdog {
    pub grace_remaining: u32,
    pub offline_ticks: u32,
}

impl Watchdog {
    /// One at the start of a connection.
    pub open spec fn fresh() -> Watchdog {
        Watchdog { grace_remaining: WATCHDOG_GRACE_TICKS, offline_ticks: 0 }
    }

    /// One at the start of a connection.
    pub fn new() -> (r: Self)
        ensures
            r == Watchdog::fresh(),
    {
        Watchdog { grace_remaining: WATCHDOG_GRACE_TICKS, offline_ticks: 0 }
    }

    /// After one more push.
    pub open spec fn after(self, online: bool) -> Watchdog {
        if self.grace_remaining > 0 {
            Watchdog { grace_remaining: (self.grace_remaining - 1) as u32, offline_ticks: 0 }
        } else if online {
            Watchdog { offline_ticks: 0, ..self }
        } else if self.offline_ticks < WATCHDOG_DEAD_TICKS {
            Watchdog { offline_ticks: (self.offline_ticks + 1) as u32, ..self }
        } else {
            self
        }
    }

    /// Whether the link is dead.
    pub open spec fn dead(self) -> bool {
        self.offline_ticks >= WATCHDOG_DEAD_TICKS
    }

    /// Notes whether the target answers, and tells whether the link is dead.
    pub fn watch(&mut self, online: bool) -> (r: bool)
        ensures
            *final(self) == old(self).after(online),
            r == final(self).dead(),
    {
        if self.grace_remaining > 0 {
            self.grace_remaining = self.grace_remaining - 1;
            self.offline_ticks = 0;
        } else if online {
            self.offline_ticks = 0;
        } else if self.offline_ticks < WATCHDOG_DEAD_TICKS {
            self.offline_ticks = self.offline_ticks + 1;
        }
        self.offline_ticks >= WATCHDOG_DEAD_TICKS
    }
}

/// What a look at the commands gave.
#[derive(Debug, Clone, Copy, PartialEq, Eq, Structural)]
pub enum PushCommand {
    /// Another source is to be played.
    SetSource,
    /// Nobody holds the connection any more.
    Released,
    /// There is none.
    Empty,
}

/// Whether pushing goes on.
#[derive(Debug, Clone, Copy, PartialEq, Eq, Structural)]
pub enum PushStep {
    GoOn,
    /// It ends, as nobody needs it.
    Released,
    /// It ends, as it fails.
    WriteFailed,
    /// It ends, as the link is dead.
    Stalled,
}

/// Whether an end of pushing is reported to whoever plays: every one is.
pub fn reports_failure(step: PushStep) -> (r: bool)
    ensures
        r == (step != PushStep::GoOn),
{
    match step {
        PushStep::GoOn => false,
        PushStep::Released => true,
        PushStep::WriteFailed => true,
        PushStep::Stalled => true,
    }
}

/// The state of pushing.
#[derive(Debug, Clone, Copy, PartialEq, Eq, Structural)]
pub struct PushLoop {
    pub watchdog: Watchdog,
    pub write_errors: u32,
    pub tick: u64,
    pub has_source: bool,
}

impl PushLoop {
    /// Pushing at its start.
    pub fn new() -> (r: Self)
        ensures
            r == (PushLoop {
                watchdog: Watchdog::fresh(),
                write_errors: 0,
                tick: 0,
                has_source: false,
            }),
    {
        PushLoop { watchdog: Watchdog::new(), write_errors: 0, tick: 0, has_source: false }
    }

    /// Takes a command.
    pub fn command(&mut self, command: PushCommand) -> (r: PushStep)
        ensures
            r == if command == PushCommand::Released {
                PushStep::Released
            } else {
                PushStep::GoOn
            },
            *final(self) == (PushLoop {
                has_source: old(self).has_source || command == PushCommand::SetSource,
                ..*old(self)
            }),
    {
        match command {
            PushCommand::SetSource => {
                self.has_source = true;
                PushStep::GoOn
            },
            PushCommand::Released => PushStep::Released,
            PushCommand::Empty => PushStep::GoOn,
        }
    }

    /// Whether the source is heard: else silence keeps the target's clock
    /// running.
    pub fn playing(&self, stopped: bool, paused: bool) -> (r: bool)
        ensures
            r == (self.has_source && !stopped && !paused),
    {
        self.has_source && !stopped && !paused
    }

    /// Pushing after one push.
    pub open spec fn after_write(self, ok: bool) -> PushLoop {
        PushLoop {
            write_errors: if ok {
                0
            } else if self.write_errors < MAX_WRITE_ERRORS {
                (self.write_errors + 1) as u32
            } else {
                self.write_errors
            },
            ..self
        }
    }

    /// Notes the outcome of a push. Failures may pass; in a row they end it.
    pub fn written(&mut self, ok: bool) -> (r: PushStep)
        ensures
            *final(self) == old(self).after_write(ok),
            r == if final(self).write_errors >= MAX_WRITE_ERRORS {
                PushStep::WriteFailed
            } else {
                PushStep::GoOn
            },
    {
        if ok {
            self.write_errors = 0;
        } else if self.write_errors < MAX_WRITE_ERRORS {
            self.write_errors = self.write_errors + 1;
        }
        if self.write_errors >= MAX_WRITE_ERRORS {
            PushStep::WriteFailed
        } else {
            PushStep::GoOn
        }
    }

    /// Notes whether the target answers.
    pub fn watched(&mut self, online: bool) -> (r: PushStep)
        ensures
            *final(self) == (PushLoop { watchdog: old(self).watchdog.after(online), ..*old(self) }),
            r == if final(self).watchdog.dead() {
                PushStep::Stalled
            } else {
                PushStep::GoOn
            },
    {
        if self.watchdog.watch(online) {
            PushStep::Stalled
        } else {
            PushStep::GoOn
        }
    }

    /// Counts a push, and tells whether it is worth a line in the log.
    pub fn ticked(&mut self) -> (r: bool)
        ensures
            final(self).tick == (old(self).tick + 1) % 0x1_0000_0000_0000_0000,
            *final(self) == (PushLoop { tick: final(self).tick, ..*old(self) }),
            r == (final(self).tick < 5 || final(self).tick % 500 == 0),
    {
        self.tick = self.tick.wrapping_add(1);
        self.tick < 5 || self.tick % 500 == 0
    }
}

/// When the next push is due, and how long to sleep until then.
#[derive(Debug, Clone, Copy, PartialEq, Eq, Structural)]
pub struct Pace {
    pub due_micros: u64,
    pub sleep_micros: u64,
}

/// Settles how long to sleep before a push that is due. One that is late comes at
/// once; where pushing lags too far behind, it no longer catches up.
pub fn pace(due_micros: u64, now_micros: u64) -> (r: Pace)
    ensures
        r == if due_micros > now_micros {
            Pace { due_micros, sleep_micros: (due_micros - now_micros) as u64 }
        } else if now_micros - due_micros > TICK_CATCHUP_MICROS {
            Pace { due_micros: now_micros, sleep_micros: 0 }
        } else {
            Pace { due_micros, sleep_micros: 0 }
        },
{
    if due_micros > now_micros {
        Pace { due_micros, sleep_micros: due_micros - now_micros }
    } else if now_micros - due_micros > TICK_CATCHUP_MICROS {
        Pace { due_micros: now_micros, sleep_micros: 0 }
    } else {
        Pace { due_micros, sleep_micros: 0 }
    }
}

// ---------------------------------------------------------------------------
// Laws
// ---------------------------------------------------------------------------

/// A watchdog after a row of pushes.
pub open spec fn watched_for(start: Watchdog, online: Seq<bool>) -> Watchdog
    decreases online.len(),
{
    if online.len() == 0 {
        start
    } else {
        watched_for(start, online.drop_last()).after(online.last())
    }
}

/// A fresh connection is never found dead during its time of grace, whatever the
/// target answers.
pub proof fn law_grace_is_never_cut_short(online: Seq<bool>)
    requires
        online.len() <= WATCHDOG_GRACE_TICKS,
    ensures
        watched_for(Watchdog::fresh(), online) == (Watchdog {
            grace_remaining: (WATCHDOG_GRACE_TICKS - online.len()) as u32,
            offline_ticks: 0,
        }),
        !watched_for(Watchdog::fresh(), online).dead(),
    decreases online.len(),
{
    if online.len() > 0 {
        law_grace_is_never_cut_short(online.drop_last());
    }
}

/// Once the time of grace is over, the link is dead exactly when the target has
/// not answered so many times in a row.
pub proof fn law_silence_kills_after_its_time(start: Watchdog, online: Seq<bool>)
    requires
        start.grace_remaining == 0,
        start.offline_ticks == 0,
        forall|i: int| 0 <= i < online.len() ==> !online[i],
    ensures
        watched_for(start, online).grace_remaining == 0,
        watched_for(start, online).offline_ticks == if online.len() < WATCHDOG_DEAD_TICKS {
            online.len() as int
        } else {
            WATCHDOG_DEAD_TICKS as int
        },
        watched_for(start, online).dead() == (online.len() >= WATCHDOG_DEAD_TICKS),
    decreases online.len(),
{
    if online.len() > 0 {
        law_silence_kills_after_its_time(start, online.drop_last());
    }
}

/// One answer makes a link that is not dead as good as new.
pub proof fn law_an_answer_clears_the_count(watchdog: Watchdog)
    ensures
        watchdog.after(true).offline_ticks == 0,
        !watchdog.after(true).dead(),
{
}

/// One push that succeeds makes up for all that failed before it.
pub proof fn law_a_good_push_clears_the_errors(state: PushLoop)
    ensures
        state.after_write(true).write_errors == 0,
        state.after_write(true).watchdog == state.watchdog,
{
}

/// The interface of an address stands between the per cent sign and the comma; where
/// it is no number, or there is none, it is 0. The short form of an address ends
/// before the last of these signs.
pub proof fn law_an_address_names_its_interface(
    ip: Seq<char>,
    interface: Seq<char>,
    port: Seq<char>,
)
    requires
        forall|k: int| 0 <= k < ip.len() ==> #[trigger] ip[k] != '%' && ip[k] != ',',
        forall|k: int|
            0 <= k < interface.len() ==> #[trigger] interface[k] != '%' && interface[k] != ',',
        forall|k: int| 0 <= k < port.len() ==> #[trigger] port[k] != '%' && port[k] != ',',
    ensures
        interface_index(ip + seq!['%'] + interface + seq![','] + port) == match i32_value(
            interface,
        ) {
            Some(n) => n,
            None => 0,
        },
        interface_index(ip + seq!['%'] + interface) == match i32_value(interface) {
            Some(n) => n,
            None => 0,
        },
        interface_index(ip) == 0,
        interface_index(ip + seq![','] + port) == 0,
        short_address(ip + seq!['%'] + interface) == ip,
        short_address(ip + seq![','] + port) == ip,
        short_address(ip) == ip,
        short_address(ip + seq!['%'] + interface + seq![','] + port) == ip + seq!['%'] + interface,
{
    let base = ip + seq!['%'] + interface;
    let n = ip.len() as int;
    assert forall|k: int| 0 <= k < base.len() implies #[trigger] base[k] != ',' by {
        if k < n {
            assert(base[k] == ip[k]);
        } else if k > n {
            assert(base[k] == interface[k - n - 1]);
        }
    }
    crate::text::law_cut_is_at_the_first(base, port, ',');
    crate::text::law_cut_is_at_the_first(ip, interface, '%');
    crate::text::law_cut_is_at_the_first(ip, port, ',');

    let percent = CharClass::Only('%');
    let comma = CharClass::Only(',');
    lemma_last_at(ip, interface, '%');
    lemma_none_at(base, ',');
    lemma_last_at(ip, port, ',');
    let direct = ip + seq![','] + port;
    assert forall|k: int| 0 <= k < direct.len() implies #[trigger] direct[k] != '%' by {
        if k < n {
            assert(direct[k] == ip[k]);
        } else if k > n {
            assert(direct[k] == port[k - n - 1]);
        }
    }
    lemma_none_at(direct, '%');
    lemma_none_at(ip, '%');
    lemma_none_at(ip, ',');
    let full = base + seq![','] + port;
    lemma_last_at(base, port, ',');
    assert(full =~= ip + seq!['%'] + (interface + seq![','] + port));
    let tail = interface + seq![','] + port;
    let m = interface.len() as int;
    assert forall|k: int| 0 <= k < tail.len() implies #[trigger] tail[k] != '%' by {
        if k < m {
            assert(tail[k] == interface[k]);
        } else if k > m {
            assert(tail[k] == port[k - m - 1]);
        }
    }
    lemma_last_at(ip, tail, '%');
    assert(base.take(n) =~= ip);
    assert(direct.take(n) =~= ip);
    assert(full.take(base.len() as int) =~= base);
}

proof fn lemma_last_at(before: Seq<char>, after: Seq<char>, c: char)
    requires
        forall|k: int| 0 <= k < after.len() ==> #[trigger] after[k] != c,
    ensures
        last_in_class(before + seq![c] + after, CharClass::Only(c)) == Some(before.len() as int),
{
    let s = before + seq![c] + after;
    let class = CharClass::Only(c);
    crate::text::law_search_back_ends_at_the_last(s, class);
    let n = before.len() as int;
    assert(s[n] == c && class.has(s[n]));
    assert forall|k: int| n < k < s.len() implies !class.has(#[trigger] s[k]) by {
        assert(s[k] == after[k - n - 1]);
    }
}

proof fn lemma_none_at(s: Seq<char>, c: char)
    requires
        forall|k: int| 0 <= k < s.len() ==> #[trigger] s[k] != c,
    ensures
        last_in_class(s, CharClass::Only(c)) is None,
{
    crate::text::law_search_back_ends_at_the_last(s, CharClass::Only(c));
    if let Some(i) = last_in_class(s, CharClass::Only(c)) {
        assert(s[i] != c);
    }
}

/// A new watch lets fifty ticks pass; then forty without an answer, one after the
/// other, are its end. Ten failed writes in a row are the end of a stream.
pub proof fn law_watches_have_their_patience(watchdog: Watchdog, state: PushLoop)
    ensures
        Watchdog::fresh().grace_remaining == 50,
        Watchdog::fresh().offline_ticks == 0,
        watchdog.dead() <==> watchdog.offline_ticks >= 40,
        watchdog.grace_remaining > 0 ==> watchdog.after(false).grace_remaining
            == watchdog.grace_remaining - 1,
        watchdog.grace_remaining == 0 && watchdog.offline_ticks < 40 ==> watchdog.after(
            false,
        ).offline_ticks == watchdog.offline_ticks + 1,
        watchdog.grace_remaining == 0 && watchdog.dead() ==> watchdog.after(false).dead(),
        state.write_errors < 10 ==> state.after_write(false).write_errors == state.write_errors + 1,
        state.write_errors >= 10 ==> state.after_write(false).write_errors == state.write_errors,
        MAX_WRITE_ERRORS == 10,
        PUSH_STEP_MICROS == 10_000,
        PREFILL_CHUNKS == 30,
        TICK_CATCHUP_MICROS == 50_000,
{
}

/// A kept connection serves its own target while it lives. When another target is
/// wanted it goes, unless someone else holds it too; the others keep their order.
pub proof fn law_connections_are_kept_for_their_target(
    kept: Seq<KeptConnection>,
    more: KeptConnection,
    target: Seq<char>,
)
    ensures
        serves(more, target) ==> more.addr@ == target && more.alive,
        more.addr@ == target && more.alive ==> serves(more, target),
        more.addr@ == target || more.owners >= 2 ==> staying(kept.push(more), target) == staying(
            kept,
            target,
        ).push(more),
        more.addr@ != target && more.owners <= 1 ==> staying(kept.push(more), target) == staying(
            kept,
            target,
        ),
{
    reveal(Seq::filter);
    assert(kept.push(more).drop_last() =~= kept);
}

} // verus!
