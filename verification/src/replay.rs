//! Recorded key input and its replay.
//!
//! A recording is the magic `RBAREC01` followed by records of ten bytes: the cycle as eight
//! little-endian bytes and the key state as two.

use vstd::prelude::*;

verus! {

/// The length of the magic.
pub const MAGIC_LEN: usize = 8;

/// The length of a record.
pub const RECORD_LEN: usize = 10;

/// A change of the key state.
#[derive(Clone, Copy, PartialEq, Eq, Structural, Debug)]
pub struct Event {
    pub cycle: u64,
    pub state: u16,
}

/// Why a recording cannot be read.
#[derive(Clone, Copy, Debug)]
pub enum ReplayError {
    /// The recording is shorter than the magic.
    UnexpectedEof,
    /// The recording begins with something else.
    MagicMismatch([u8; 8]),
}

/// The magic at the start of a recording.
pub open spec fn magic() -> Seq<u8> {
    seq![0x52u8, 0x42, 0x41, 0x52, 0x45, 0x43, 0x30, 0x31]
}

/// The number that little-endian bytes stand for.
pub open spec fn little_endian(bytes: Seq<u8>) -> nat
    decreases bytes.len(),
{
    if bytes.len() == 0 {
        0
    } else {
        bytes[0] as nat + 0x100 * little_endian(bytes.skip(1))
    }
}

/// The little-endian bytes of a number.
pub open spec fn to_little_endian(n: nat, len: nat) -> Seq<u8>
    decreases len,
{
    if len == 0 {
        Seq::empty()
    } else {
        seq![(n % 0x100) as u8] + to_little_endian(n / 0x100, (len - 1) as nat)
    }
}

/// The event that ten bytes stand for.
pub open spec fn record(bytes: Seq<u8>) -> Event {
    Event {
        cycle: little_endian(bytes.take(8)) as u64,
        state: little_endian(bytes.skip(8)) as u16,
    }
}

/// The bytes of an event.
pub open spec fn record_bytes(e: Event) -> Seq<u8> {
    to_little_endian(e.cycle as nat, 8) + to_little_endian(e.state as nat, 2)
}

/// The events of a run of records; an incomplete one at the end is dropped.
pub open spec fn records(bytes: Seq<u8>) -> Seq<Event>
    decreases bytes.len(),
{
    if bytes.len() < 10 {
        Seq::empty()
    } else {
        seq![record(bytes.take(10))] + records(bytes.skip(10))
    }
}

/// The bytes of a run of events.
pub open spec fn records_bytes(events: Seq<Event>) -> Seq<u8>
    decreases events.len(),
{
    if events.len() == 0 {
        Seq::empty()
    } else {
        record_bytes(events[0]) + records_bytes(events.skip(1))
    }
}

/// Replays recorded key input.
#[derive(Debug)]
pub struct Replayer {
    pub events: Vec<Event>,
    pub cursor: usize,
}

/// The position after all events from `cursor` on that are due at `now`.
pub open spec fn due(events: Seq<Event>, cursor: int, now: u64) -> int
    decreases events.len() - cursor,
{
    if 0 <= cursor < events.len() && events[cursor].cycle <= now {
        due(events, cursor + 1, now)
    } else {
        cursor
    }
}

impl Replayer {
    /// The cursor lies among the events or behind them.
    pub open spec fn wf(&self) -> bool {
        self.cursor <= self.events@.len()
    }

    /// Reads a recording.
    pub fn load(bytes: &[u8]) -> (r: Result<Replayer, ReplayError>)
        ensures
            (r matches Err(ReplayError::UnexpectedEof)) == (bytes@.len() < 8),
            (r matches Err(ReplayError::MagicMismatch(_))) == (bytes@.len() >= 8 && bytes@.take(8)
                != magic()),
            r matches Err(ReplayError::MagicMismatch(m)) ==> m@ == bytes@.take(8),
            r matches Ok(p) ==> p.wf() && p.cursor == 0 && p.events@ == records(bytes@.skip(8)),
    {
        if bytes.len() < MAGIC_LEN {
            return Err(ReplayError::UnexpectedEof);
        }
        let m: [u8; 8] = [
            bytes[0],
            bytes[1],
            bytes[2],
            bytes[3],
            bytes[4],
            bytes[5],
            bytes[6],
            bytes[7],
        ];
        assert(m@ =~= bytes@.take(8));
        if !(m[0] == 0x52 && m[1] == 0x42 && m[2] == 0x41 && m[3] == 0x52 && m[4] == 0x45 && m[5]
            == 0x43 && m[6] == 0x30 && m[7] == 0x31) {
            return Err(ReplayError::MagicMismatch(m));
        }
        assert(m@ =~= magic());
        let mut events: Vec<Event> = Vec::new();
        let mut at: usize = MAGIC_LEN;
        assert(events@ + records(bytes@.skip(8)) =~= records(bytes@.skip(8)));
        while bytes.len() - at >= RECORD_LEN
            invariant
                8 <= at <= bytes@.len(),
                events@ + records(bytes@.skip(at as int)) == records(bytes@.skip(8)),
            decreases bytes@.len() - at,
        {
            let cycle: u64 = read_little_endian(bytes, at, 8);
            let state: u16 = read_little_endian(bytes, at + 8, 2) as u16;
            proof {
                let rest = bytes@.skip(at as int);
                assert(rest.take(10).take(8) =~= bytes@.subrange(at as int, at + 8));
                assert(rest.take(10).skip(8) =~= bytes@.subrange(at + 8, at + 10));
                assert(rest.skip(10) =~= bytes@.skip(at + 10));
                assert(events@ + (seq![record(rest.take(10))] + records(rest.skip(10)))
                    =~= events@.push(record(rest.take(10))) + records(rest.skip(10)));
            }
            events.push(Event { cycle, state });
            at = at + RECORD_LEN;
        }
        assert(events@ =~= records(bytes@.skip(8)));
        Ok(Replayer { events, cursor: 0 })
    }

    /// The number of events.
    pub fn len(&self) -> (n: usize)
        ensures
            n == self.events@.len(),
    {
        self.events.len()
    }

    /// The cycle of the last event, or zero without one.
    pub fn last_cycle(&self) -> (c: u64)
        ensures
            c == if self.events@.len() == 0 {
                0
            } else {
                self.events@.last().cycle
            },
    {
        if self.events.len() == 0 {
            0
        } else {
            self.events[self.events.len() - 1].cycle
        }
    }

    /// Applies every event that is due: the key state becomes that of the last one.
    pub fn apply_due(&mut self, now: u64, key_state: &mut u16)
        requires
            old(self).wf(),
        ensures
            final(self).wf(),
            final(self).events@ == old(self).events@,
            final(self).cursor == due(old(self).events@, old(self).cursor as int, now),
            *final(key_state) == if final(self).cursor == old(self).cursor {
                *old(key_state)
            } else {
                old(self).events@[final(self).cursor - 1].state
            },
    {
        while self.cursor < self.events.len() && self.events[self.cursor].cycle <= now
            invariant
                self.wf(),
                self.events@ == old(self).events@,
                old(self).cursor <= self.cursor,
                due(self.events@, self.cursor as int, now) == due(
                    old(self).events@,
                    old(self).cursor as int,
                    now,
                ),
                *key_state == if self.cursor == old(self).cursor {
                    *old(key_state)
                } else {
                    old(self).events@[self.cursor - 1].state
                },
            decreases self.events@.len() - self.cursor,
        {
            *key_state = self.events[self.cursor].state;
            self.cursor = self.cursor + 1;
        }
    }

    /// Whether every event was applied.
    pub fn exhausted(&self) -> (r: bool)
        ensures
            r == (self.cursor >= self.events@.len()),
    {
        self.cursor >= self.events.len()
    }
}

/// Reads a little-endian number of up to eight bytes.
fn read_little_endian(bytes: &[u8], at: usize, len: usize) -> (v: u64)
    requires
        at + len <= bytes@.len(),
        len <= 8,
    ensures
        v == little_endian(bytes@.subrange(at as int, at + len)),
        len == 2 ==> v < 0x1_0000,
    decreases len,
{
    if len == 0 {
        return 0;
    }
    let total: usize = bytes.len();
    assert(at < total);
    let rest: u64 = read_little_endian(bytes, at + 1, len - 1);
    proof {
        assert(bytes@.subrange(at as int, at + len).skip(1) =~= bytes@.subrange(at + 1, at + len));
        lemma_little_endian_bound(bytes@.subrange(at + 1, at + len));
    }
    bytes[at] as u64 + 0x100 * rest
}

/// How many numbers `n` bytes can hold.
pub open spec fn pow256(n: nat) -> nat
    decreases n,
{
    if n == 0 {
        1
    } else {
        0x100 * pow256((n - 1) as nat)
    }
}

proof fn lemma_little_endian_bound(bytes: Seq<u8>)
    ensures
        little_endian(bytes) < pow256(bytes.len()),
        bytes.len() <= 1 ==> little_endian(bytes) < 0x100,
        bytes.len() <= 7 ==> little_endian(bytes) < 0x100_0000_0000_0000,
    decreases bytes.len(),
{
    reveal_with_fuel(pow256, 9);
    if bytes.len() > 0 {
        lemma_little_endian_bound(bytes.skip(1));
    }
}

proof fn lemma_little_endian_round_trip(n: nat, len: nat)
    requires
        n < pow256(len),
    ensures
        to_little_endian(n, len).len() == len,
        little_endian(to_little_endian(n, len)) == n,
    decreases len,
{
    if len > 0 {
        let b = to_little_endian(n, len);
        lemma_little_endian_round_trip(n / 0x100, (len - 1) as nat);
        assert(b.skip(1) =~= to_little_endian(n / 0x100, (len - 1) as nat));
    }
}

/// What was recorded is what is read back.
pub proof fn law_recording_round_trip(events: Seq<Event>)
    ensures
        records(records_bytes(events)) == events,
    decreases events.len(),
{
    if events.len() == 0 {
        assert(records(records_bytes(events)) =~= events);
    } else {
        let e = events[0];
        let rest = records_bytes(events.skip(1));
        let bytes = records_bytes(events);
        law_recording_round_trip(events.skip(1));
        assert(e.cycle < pow256(8) && e.state < pow256(2)) by {
            reveal_with_fuel(pow256, 9);
        }
        lemma_little_endian_round_trip(e.cycle as nat, 8);
        lemma_little_endian_round_trip(e.state as nat, 2);
        assert(bytes.take(10).take(8) =~= to_little_endian(e.cycle as nat, 8));
        assert(bytes.take(10).skip(8) =~= to_little_endian(e.state as nat, 2));
        assert(bytes.skip(10) =~= rest);
        assert(seq![e] + events.skip(1) =~= events);
    }
}

/// Applying events in two goes is the same as applying them at the later time.
pub proof fn law_due_in_two_goes(events: Seq<Event>, cursor: int, a: u64, b: u64)
    requires
        0 <= cursor <= events.len(),
        a <= b,
    ensures
        due(events, due(events, cursor, a), b) == due(events, cursor, b),
    decreases events.len() - cursor,
{
    if cursor < events.len() && events[cursor].cycle <= a {
        law_due_in_two_goes(events, cursor + 1, a, b);
    }
}

/// A recording in order is exhausted once its last cycle has come.
pub proof fn law_ordered_replay_ends(events: Seq<Event>, cursor: int, now: u64)
    requires
        0 <= cursor <= events.len(),
        forall|i: int, j: int|
            0 <= i <= j < events.len() ==> (#[trigger] events[i]).cycle <= (
                #[trigger] events[j]
            ).cycle,
        events.len() > 0 ==> events.last().cycle <= now,
    ensures
        due(events, cursor, now) == events.len(),
    decreases events.len() - cursor,
{
    if cursor < events.len() {
        assert(events[cursor].cycle <= events[events.len() - 1].cycle);
        law_ordered_replay_ends(events, cursor + 1, now);
    }
}

} // verus!
