//! How numbers are laid out in texts, recordings and memory.

use vstd::prelude::*;
use crate::memory::{half_at, with_half, with_word, word_at};
use crate::replay::{Event, due, record_bytes, to_little_endian};
use crate::text::{decimal, digit, hex};

verus! {

/// The value of a digit up to `f`, or something else for any other character.
pub open spec fn digit_worth(c: char) -> int {
    if '0' <= c && c <= '9' {
        c as int - 48
    } else {
        c as int - 87
    }
}

/// The number that a row of digits stands for, the highest first.
pub open spec fn number_in(s: Seq<char>, base: int) -> int
    decreases s.len(),
{
    if s.len() == 0 {
        0
    } else {
        number_in(s.drop_last(), base) * base + digit_worth(s.last())
    }
}

proof fn lemma_digit_worth(d: nat)
    requires
        d < 16,
    ensures
        digit_worth(digit(d)) == d,
        (digit(d) == '0') == (d == 0),
{
}

/// A number in decimal reads back as itself and has no zero in front.
pub proof fn law_decimal_reads_back(n: nat)
    ensures
        number_in(decimal(n), 10) == n,
        decimal(n).len() > 0,
        n > 0 ==> decimal(n)[0] != '0',
        forall|i: int|
            0 <= i < decimal(n).len() ==> '0' <= #[trigger] decimal(n)[i] && decimal(n)[i] <= '9',
    decreases n,
{
    lemma_digit_worth(n % 10);
    if n < 10 {
        assert(decimal(n).drop_last() =~= Seq::<char>::empty());
        assert(number_in(Seq::<char>::empty(), 10) == 0);
    } else {
        law_decimal_reads_back(n / 10);
        assert(decimal(n).drop_last() =~= decimal(n / 10));
    }
}

/// Two to the power of four times a number.
pub open spec fn sixteen_to(w: nat) -> nat
    decreases w,
{
    if w == 0 {
        1
    } else {
        16 * sixteen_to((w - 1) as nat)
    }
}

/// A number in hexadecimal has as many digits as asked for and reads back as its lowest ones.
pub proof fn law_hex_reads_back(n: nat, w: nat)
    requires
        n < sixteen_to(w),
    ensures
        hex(n, w).len() == w,
        number_in(hex(n, w), 16) == n,
    decreases w,
{
    if w == 0 {
        assert(hex(n, w) =~= Seq::<char>::empty());
    } else {
        let k = (w - 1) as nat;
        lemma_digit_worth(n % 16);
        law_hex_reads_back(n / 16, k);
        assert(hex(n, w).drop_last() =~= hex(n / 16, k));
    }
}

/// The bytes of an event in a recording: eight of the cycle and two of the key state, each the lowest
/// first.
pub proof fn law_record_layout(e: Event)
    ensures
        ({
            let b = record_bytes(e);
            let c = e.cycle as int;
            &&& b.len() == 10
            &&& b[0] == c % 256 && b[1] == c / 256 % 256 && b[2] == c / 65536 % 256
            &&& b[3] == c / 0x100_0000 % 256 && b[4] == c / 0x1_0000_0000 % 256
            &&& b[5] == c / 0x100_0000_0000 % 256 && b[6] == c / 0x1_0000_0000_0000 % 256
            &&& b[7] == c / 0x100_0000_0000_0000 % 256
            &&& b[8] == e.state % 256 && b[9] == e.state / 256
        }),
{
    reveal_with_fuel(to_little_endian, 9);
    let c = e.cycle as nat;
    assert(c / 0x100 / 0x100 == c / 65536);
    assert(c / 65536 / 0x100 == c / 0x100_0000);
    assert(c / 0x100_0000 / 0x100 == c / 0x1_0000_0000);
    assert(c / 0x1_0000_0000 / 0x100 == c / 0x100_0000_0000);
    assert(c / 0x100_0000_0000 / 0x100 == c / 0x1_0000_0000_0000);
    assert(c / 0x1_0000_0000_0000 / 0x100 == c / 0x100_0000_0000_0000);
}

/// The events that are applied are exactly those that are due, up to the first that is not.
pub proof fn law_due_events(events: Seq<Event>, cursor: int, now: u64)
    requires
        0 <= cursor <= events.len(),
    ensures
        ({
            let end = due(events, cursor, now);
            &&& cursor <= end <= events.len()
            &&& forall|i: int| cursor <= i < end ==> (#[trigger] events[i]).cycle <= now
            &&& end < events.len() ==> events[end].cycle > now
        }),
    decreases events.len() - cursor,
{
    if cursor < events.len() && events[cursor].cycle <= now {
        law_due_events(events, cursor + 1, now);
    }
}

/// Flat memory holds words and halfwords lowest byte first, and a store changes those bytes only.
pub proof fn law_memory_layout(data: Seq<u8>, addr: int, v: u32, h: u16, i: int)
    requires
        0 <= addr,
        addr + 4 <= data.len(),
        0 <= i < data.len(),
    ensures
        ({
            let w = with_word(data, addr, v);
            &&& w.len() == data.len()
            &&& w[addr] == v % 256
            &&& w[addr + 1] == v / 256 % 256
            &&& w[addr + 2] == v / 65536 % 256
            &&& w[addr + 3] == v / 16777216
            &&& i < addr || i >= addr + 4 ==> w[i] == data[i]
        }),
        ({
            let w = with_half(data, addr, h);
            &&& w[addr] == h % 256
            &&& w[addr + 1] == h / 256
            &&& i < addr || i >= addr + 2 ==> w[i] == data[i]
        }),
        word_at(data, addr) == data[addr] + 256 * data[addr + 1] + 65536 * data[addr + 2] + 16777216
            * data[addr + 3],
        half_at(data, addr) == data[addr] + 256 * data[addr + 1],
{
}

} // verus!
