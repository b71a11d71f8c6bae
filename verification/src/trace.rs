//! Trace files: the blocks of a run, one to a line, as they seed a later run.

use vstd::prelude::*;
use crate::text::{digit, hex, push_hex};
use vstd::string::*;

verus! {

/// The two instruction sets in a trace file.
#[derive(Clone, Copy, PartialEq, Eq, Structural, Debug)]
pub enum Mode {
    Thumb,
    Arm,
}

/// A block to compile ahead of time: the address of its first instruction.
#[derive(Clone, Copy, PartialEq, Eq, Structural, Debug)]
pub struct Seed {
    pub pc: u32,
    pub mode: Mode,
}

/// Whether a character is white space.
pub open spec fn is_space(c: char) -> bool {
    let x = c as u32;
    9 <= x <= 13 || x == 0x20 || x == 0x85 || x == 0xa0 || x == 0x1680 || 0x2000 <= x <= 0x200a || x
        == 0x2028 || x == 0x2029 || x == 0x202f || x == 0x205f || x == 0x3000
}

/// The value of a hexadecimal digit in either case.
pub open spec fn digit_value(c: char) -> Option<nat> {
    let x = c as u32;
    if 0x30 <= x <= 0x39 {
        Some((x - 0x30) as nat)
    } else if 0x41 <= x <= 0x46 {
        Some((x - 0x41 + 10) as nat)
    } else if 0x61 <= x <= 0x66 {
        Some((x - 0x61 + 10) as nat)
    } else {
        None
    }
}

/// The value of hexadecimal digits; `None` if a character is no digit.
pub open spec fn digits_value(s: Seq<char>) -> Option<nat>
    decreases s.len(),
{
    if s.len() == 0 {
        Some(0)
    } else {
        match (digits_value(s.drop_last()), digit_value(s.last())) {
            (Some(a), Some(b)) => Some(16 * a + b),
            _ => None,
        }
    }
}

/// A hexadecimal word, with an optional plus sign before its digits.
pub open spec fn hex_word(s: Seq<char>) -> Option<u32> {
    let digits = if s.len() > 0 && s[0] == '+' {
        s.skip(1)
    } else {
        s
    };
    match digits_value(digits) {
        Some(v) if digits.len() > 0 && v <= u32::MAX => Some(v as u32),
        _ => None,
    }
}

/// The text after leading white space.
pub open spec fn after_spaces(s: Seq<char>) -> Seq<char>
    decreases s.len(),
{
    if s.len() > 0 && is_space(s[0]) {
        after_spaces(s.skip(1))
    } else {
        s
    }
}

/// How many characters come before the first white space.
pub open spec fn word_len(s: Seq<char>) -> nat
    decreases s.len(),
{
    if s.len() > 0 && !is_space(s[0]) {
        1 + word_len(s.skip(1))
    } else {
        0
    }
}

/// The instruction set that a word names.
pub open spec fn mode_named(s: Seq<char>) -> Option<Mode> {
    if s == "thumb"@ {
        Some(Mode::Thumb)
    } else if s == "arm"@ {
        Some(Mode::Arm)
    } else {
        None
    }
}

/// The seed that a line stands for: a hexadecimal address and the name of an instruction set. The
/// address in the file is that of the fetch, two instructions ahead.
pub open spec fn seed_of_line(line: Seq<char>) -> Option<Seed> {
    let a = after_spaces(line);
    let first = a.take(word_len(a) as int);
    let b = after_spaces(a.skip(word_len(a) as int));
    let second = b.take(word_len(b) as int);
    match (hex_word(first), mode_named(second)) {
        (Some(pc), Some(Mode::Thumb)) => Some(Seed { pc: pc.wrapping_sub(4), mode: Mode::Thumb }),
        (Some(pc), Some(Mode::Arm)) => Some(Seed { pc: pc.wrapping_sub(8), mode: Mode::Arm }),
        _ => None,
    }
}

/// Where the first line of a text ends: before its first line feed, or at its end.
pub open spec fn line_end(s: Seq<char>) -> nat
    decreases s.len(),
{
    if s.len() > 0 && s[0] != '\n' {
        1 + line_end(s.skip(1))
    } else {
        0
    }
}

/// The seeds of all lines of a text; lines that do not name one are passed over.
pub open spec fn seeds_of(s: Seq<char>) -> Seq<Seed>
    decreases s.len(),
{
    if s.len() == 0 {
        Seq::empty()
    } else {
        let n = line_end(s);
        let rest = if n < s.len() {
            seeds_of(s.skip(n as int + 1))
        } else {
            Seq::empty()
        };
        match seed_of_line(s.take(n as int)) {
            Some(seed) => seq![seed] + rest,
            None => rest,
        }
    }
}

/// The characters of a text.
fn characters(s: &str) -> (v: Vec<char>)
    ensures
        v@ == s@,
{
    let mut v: Vec<char> = Vec::new();
    let n: usize = s.unicode_len();
    let mut i: usize = 0;
    while i < n
        invariant
            i <= n,
            n == s@.len(),
            v@ == s@.take(i as int),
        decreases n - i,
    {
        v.push(s.get_char(i));
        i = i + 1;
        assert(s@.take(i as int) =~= s@.take(i - 1).push(s@[i - 1]));
    }
    assert(v@ =~= s@);
    v
}

fn space(c: char) -> (r: bool)
    ensures
        r == is_space(c),
{
    let x: u32 = c as u32;
    (9 <= x && x <= 13) || x == 0x20 || x == 0x85 || x == 0xa0 || x == 0x1680 || (0x2000 <= x && x
        <= 0x200a) || x == 0x2028 || x == 0x2029 || x == 0x202f || x == 0x205f || x == 0x3000
}

fn digit_of(c: char) -> (r: Option<u32>)
    ensures
        r is Some == (digit_value(c) is Some),
        r matches Some(d) ==> d == digit_value(c)->0 && d < 16,
{
    let x: u32 = c as u32;
    if 0x30 <= x && x <= 0x39 {
        Some(x - 0x30)
    } else if 0x41 <= x && x <= 0x46 {
        Some(x - 0x41 + 10)
    } else if 0x61 <= x && x <= 0x66 {
        Some(x - 0x61 + 10)
    } else {
        None
    }
}

/// Characters that are no number stay none when more follow, and a number only grows.
proof fn lemma_digits_prefix(s: Seq<char>, n: int)
    requires
        0 <= n <= s.len(),
    ensures
        digits_value(s.take(n)) is None ==> digits_value(s) is None,
        digits_value(s) is Some ==> digits_value(s)->0 >= digits_value(s.take(n))->0,
    decreases s.len() - n,
{
    if n == s.len() {
        assert(s.take(n) =~= s);
    } else {
        lemma_digits_prefix(s, n + 1);
        assert(s.take(n + 1).drop_last() =~= s.take(n));
    }
}

/// Reads a hexadecimal word from a stretch of characters.
fn parse_hex(v: &Vec<char>, from: usize, to: usize) -> (r: Option<u32>)
    requires
        from <= to <= v@.len(),
    ensures
        r == hex_word(v@.subrange(from as int, to as int)),
{
    let ghost whole = v@.subrange(from as int, to as int);
    let start: usize = if from < to && v[from] == '+' {
        from + 1
    } else {
        from
    };
    let ghost digits = v@.subrange(start as int, to as int);
    proof {
        if start > from {
            assert(whole.skip(1) =~= digits);
        }
    }
    if start == to {
        return None;
    }
    let mut value: u64 = 0;
    let mut i: usize = start;
    assert(digits.take(0) =~= Seq::empty());
    while i < to
        invariant
            start <= i <= to <= v@.len(),
            start < to,
            from <= to,
            whole == v@.subrange(from as int, to as int),
            digits == v@.subrange(start as int, to as int),
            value <= u32::MAX,
            digits_value(digits.take(i - start)) == Some(value as nat),
            hex_word(whole) == match digits_value(digits) {
                Some(x) if digits.len() > 0 && x <= u32::MAX => Some(x as u32),
                _ => None,
            },
        decreases to - i,
    {
        let ghost k = i - start;
        proof {
            assert(digits.take(k + 1).drop_last() =~= digits.take(k));
            assert(digits.take(k + 1).last() == v@[i as int]);
            lemma_digits_prefix(digits, k + 1);
        }
        match digit_of(v[i]) {
            Some(d) => {
                value = 16 * value + d as u64;
                if value > 0xffff_ffff {
                    return None;
                }
            },
            None => {
                return None;
            },
        }
        i = i + 1;
    }
    assert(digits.take(to - start) =~= digits);
    Some(value as u32)
}

/// The place after leading white space.
fn skip_spaces(v: &Vec<char>, from: usize, to: usize) -> (i: usize)
    requires
        from <= to <= v@.len(),
    ensures
        from <= i <= to,
        v@.subrange(i as int, to as int) == after_spaces(v@.subrange(from as int, to as int)),
{
    let mut i: usize = from;
    while i < to && space(v[i])
        invariant
            from <= i <= to <= v@.len(),
            after_spaces(v@.subrange(i as int, to as int)) == after_spaces(
                v@.subrange(from as int, to as int),
            ),
        decreases to - i,
    {
        assert(v@.subrange(i as int, to as int).skip(1) =~= v@.subrange(i + 1, to as int));
        i = i + 1;
    }
    i
}

/// The place after the word that starts here.
fn skip_word(v: &Vec<char>, from: usize, to: usize) -> (i: usize)
    requires
        from <= to <= v@.len(),
    ensures
        from <= i <= to,
        i - from == word_len(v@.subrange(from as int, to as int)),
{
    let mut i: usize = from;
    while i < to && !space(v[i])
        invariant
            from <= i <= to <= v@.len(),
            i - from + word_len(v@.subrange(i as int, to as int)) == word_len(
                v@.subrange(from as int, to as int),
            ),
        decreases to - i,
    {
        assert(v@.subrange(i as int, to as int).skip(1) =~= v@.subrange(i + 1, to as int));
        i = i + 1;
    }
    i
}

/// Reads the name of an instruction set.
fn parse_mode(v: &Vec<char>, from: usize, to: usize) -> (r: Option<Mode>)
    requires
        from <= to <= v@.len(),
    ensures
        r == mode_named(v@.subrange(from as int, to as int)),
{
    let ghost w = v@.subrange(from as int, to as int);
    proof {
        reveal_strlit("thumb");
        reveal_strlit("arm");
    }
    if to - from == 5 && v[from] == 't' && v[from + 1] == 'h' && v[from + 2] == 'u' && v[from + 3]
        == 'm' && v[from + 4] == 'b' {
        assert(w =~= "thumb"@);
        Some(Mode::Thumb)
    } else if to - from == 3 && v[from] == 'a' && v[from + 1] == 'r' && v[from + 2] == 'm' {
        assert(w =~= "arm"@);
        assert(w.len() != "thumb"@.len());
        Some(Mode::Arm)
    } else {
        proof {
            if w == "thumb"@ {
                assert(w.len() == 5);
                assert(v@[from as int] == w[0] && v@[from + 1] == w[1] && v@[from + 2] == w[2]
                    && v@[from + 3] == w[3] && v@[from + 4] == w[4]);
                assert(false);
            }
            if w == "arm"@ {
                assert(w.len() == 3);
                assert(v@[from as int] == w[0] && v@[from + 1] == w[1] && v@[from + 2] == w[2]);
                assert(false);
            }
        }
        None
    }
}

/// Reads the seed of one line.
fn parse_line(v: &Vec<char>, from: usize, to: usize) -> (r: Option<Seed>)
    requires
        from <= to <= v@.len(),
    ensures
        r == seed_of_line(v@.subrange(from as int, to as int)),
{
    let a: usize = skip_spaces(v, from, to);
    let a_end: usize = skip_word(v, a, to);
    let b: usize = skip_spaces(v, a_end, to);
    let b_end: usize = skip_word(v, b, to);
    proof {
        let rest = v@.subrange(a as int, to as int);
        assert(rest.take(a_end - a) =~= v@.subrange(a as int, a_end as int));
        assert(rest.skip(a_end - a) =~= v@.subrange(a_end as int, to as int));
        let rest2 = v@.subrange(b as int, to as int);
        assert(rest2.take(b_end - b) =~= v@.subrange(b as int, b_end as int));
    }
    match (parse_hex(v, a, a_end), parse_mode(v, b, b_end)) {
        (Some(pc), Some(Mode::Thumb)) => Some(Seed { pc: pc.wrapping_sub(4), mode: Mode::Thumb }),
        (Some(pc), Some(Mode::Arm)) => Some(Seed { pc: pc.wrapping_sub(8), mode: Mode::Arm }),
        _ => None,
    }
}

/// The place of the end of the line that starts here.
fn find_line_end(v: &Vec<char>, from: usize) -> (i: usize)
    requires
        from <= v@.len(),
    ensures
        from <= i <= v@.len(),
        i - from == line_end(v@.skip(from as int)),
{
    let mut i: usize = from;
    while i < v.len() && v[i] != '\n'
        invariant
            from <= i <= v@.len(),
            i - from + line_end(v@.skip(i as int)) == line_end(v@.skip(from as int)),
        decreases v@.len() - i,
    {
        assert(v@.skip(i as int).skip(1) =~= v@.skip(i + 1));
        i = i + 1;
    }
    i
}

/// Reads a trace file: one block to a line, as a hexadecimal address and `thumb` or `arm`.
pub fn parse_seeds(text: &str) -> (seeds: Vec<Seed>)
    ensures
        seeds@ == seeds_of(text@),
{
    let v: Vec<char> = characters(text);
    let mut seeds: Vec<Seed> = Vec::new();
    let mut at: usize = 0;
    assert(v@.skip(0) =~= text@);
    assert(seeds@ + seeds_of(v@.skip(0)) =~= seeds_of(text@));
    while at < v.len()
        invariant
            at <= v@.len(),
            seeds@ + seeds_of(v@.skip(at as int)) == seeds_of(text@),
        decreases v@.len() - at,
    {
        let end: usize = find_line_end(&v, at);
        let ghost before = seeds@;
        let ghost s = v@.skip(at as int);
        let ghost n = (end - at) as nat;
        proof {
            assert(s.take(n as int) =~= v@.subrange(at as int, end as int));
        }
        let seed: Option<Seed> = parse_line(&v, at, end);
        if let Some(x) = seed {
            seeds.push(x);
        }
        if end == v.len() {
            proof {
                assert(seeds@ =~= before + seeds_of(s));
            }
            return seeds;
        }
        proof {
            assert(s.skip(n as int + 1) =~= v@.skip(end + 1));
            let rest = seeds_of(v@.skip(end + 1));
            match seed {
                Some(x) => {
                    assert(before + (seq![x] + rest) =~= before.push(x) + rest);
                },
                None => {},
            }
        }
        at = end + 1;
    }
    assert(seeds@ + seeds_of(v@.skip(at as int)) =~= seeds@);
    seeds
}

/// The lines of a trace file for blocks given by the address of their fetch.
pub open spec fn trace_text(keys: Seq<(u32, bool)>, n: nat) -> Seq<char>
    decreases n,
{
    if n == 0 {
        Seq::empty()
    } else {
        trace_text(keys, (n - 1) as nat) + hex(keys[n - 1].0 as nat, 8) + (if keys[n - 1].1 {
            " thumb\n"@
        } else {
            " arm\n"@
        })
    }
}

/// Writes a trace file for blocks given by the address of their fetch.
pub fn format_trace(keys: &Vec<(u32, bool)>) -> (out: String)
    ensures
        out@ == trace_text(keys@, keys@.len()),
{
    let mut out = String::new();
    let mut i: usize = 0;
    assert(out@ =~= trace_text(keys@, 0));
    while i < keys.len()
        invariant
            i <= keys@.len(),
            out@ == trace_text(keys@, i as nat),
        decreases keys@.len() - i,
    {
        let (pc, thumb): (u32, bool) = keys[i];
        push_hex(&mut out, pc as u64, 8);
        if thumb {
            out.append(" thumb\n");
        } else {
            out.append(" arm\n");
        }
        i = i + 1;
        assert(out@ =~= trace_text(keys@, i as nat));
    }
    out
}

/// How many numbers `n` hexadecimal digits can hold.
pub open spec fn pow16(n: nat) -> nat
    decreases n,
{
    if n == 0 {
        1
    } else {
        16 * pow16((n - 1) as nat)
    }
}

/// The digits of a number read as that number, and none of them is white space, a line feed or a
/// sign.
proof fn lemma_hex_digits(n: nat, width: nat)
    requires
        n < pow16(width),
    ensures
        hex(n, width).len() == width,
        digits_value(hex(n, width)) == Some(n),
        forall|i: int|
            0 <= i < width ==> !is_space(#[trigger] hex(n, width)[i]) && hex(n, width)[i] != '\n'
                && hex(n, width)[i] != '+',
    decreases width,
{
    if width > 0 {
        lemma_hex_digits(n / 16, (width - 1) as nat);
        let s = hex(n, width);
        assert(s.drop_last() =~= hex(n / 16, (width - 1) as nat));
        assert(s.last() == digit(n % 16));
    }
}

/// A word before white space or the end is as long as it is.
proof fn lemma_word_len(w: Seq<char>, rest: Seq<char>)
    requires
        forall|i: int| 0 <= i < w.len() ==> !is_space(#[trigger] w[i]),
        rest.len() == 0 || is_space(rest[0]),
    ensures
        word_len(w + rest) == w.len(),
    decreases w.len(),
{
    if w.len() == 0 {
        assert(w + rest =~= rest);
    } else {
        lemma_word_len(w.skip(1), rest);
        assert((w + rest).skip(1) =~= w.skip(1) + rest);
    }
}

/// A line ends at its line feed.
proof fn lemma_line_end(line: Seq<char>, rest: Seq<char>)
    requires
        forall|i: int| 0 <= i < line.len() ==> #[trigger] line[i] != '\n',
    ensures
        line_end(line + seq!['\n'] + rest) == line.len(),
    decreases line.len(),
{
    let s = line + seq!['\n'] + rest;
    if line.len() > 0 {
        lemma_line_end(line.skip(1), rest);
        assert(s.skip(1) =~= line.skip(1) + seq!['\n'] + rest);
    }
}

/// The seed that a written key reads back as.
pub open spec fn seed_of_key(key: (u32, bool)) -> Seed {
    if key.1 {
        Seed { pc: key.0.wrapping_sub(4), mode: Mode::Thumb }
    } else {
        Seed { pc: key.0.wrapping_sub(8), mode: Mode::Arm }
    }
}

/// The line of a key without its line feed.
pub open spec fn key_line(key: (u32, bool)) -> Seq<char> {
    hex(key.0 as nat, 8) + seq![' '] + (if key.1 {
        "thumb"@
    } else {
        "arm"@
    })
}

proof fn lemma_key_line(key: (u32, bool))
    ensures
        seed_of_line(key_line(key)) == Some(seed_of_key(key)),
        forall|i: int| 0 <= i < key_line(key).len() ==> #[trigger] key_line(key)[i] != '\n',
{
    let name = if key.1 {
        "thumb"@
    } else {
        "arm"@
    };
    let h = hex(key.0 as nat, 8);
    let a = key_line(key);
    reveal_strlit("thumb");
    reveal_strlit("arm");
    assert(key.0 < pow16(8)) by {
        reveal_with_fuel(pow16, 9);
    }
    lemma_hex_digits(key.0 as nat, 8);
    assert(a =~= h + (seq![' '] + name));
    assert(a[0] == h[0]);
    assert(after_spaces(a) == a);
    lemma_word_len(h, seq![' '] + name);
    assert(a.take(8) =~= h);
    assert(a.skip(8) =~= seq![' '] + name);
    assert((seq![' '] + name).skip(1) =~= name);
    assert(name[0] == 't' || name[0] == 'a');
    assert(after_spaces(seq![' '] + name) == after_spaces(name));
    assert(after_spaces(name) == name);
    lemma_word_len(name, Seq::empty());
    assert(name + Seq::<char>::empty() =~= name);
    assert(name.take(name.len() as int) =~= name);
    assert("thumb"@.len() != "arm"@.len());
    assert forall|i: int| 0 <= i < a.len() implies #[trigger] a[i] != '\n' by {
        if i < 8 {
            assert(a[i] == h[i]);
        } else if i > 8 {
            assert(a[i] == name[i - 9]);
        }
    }
}

/// One line before a text adds its seed before the others.
proof fn lemma_seeds_line(line: Seq<char>, rest: Seq<char>)
    requires
        forall|i: int| 0 <= i < line.len() ==> #[trigger] line[i] != '\n',
        seed_of_line(line) is Some,
    ensures
        seeds_of(line + seq!['\n'] + rest) == seq![seed_of_line(line)->0] + seeds_of(rest),
{
    let s = line + seq!['\n'] + rest;
    lemma_line_end(line, rest);
    assert(s.take(line.len() as int) =~= line);
    assert(s.skip(line.len() as int + 1) =~= rest);
}

/// The lines of the keys from `k` on.
spec fn trace_from(keys: Seq<(u32, bool)>, k: int) -> Seq<char>
    decreases keys.len() - k,
{
    if 0 <= k < keys.len() {
        key_line(keys[k]) + seq!['\n'] + trace_from(keys, k + 1)
    } else {
        Seq::empty()
    }
}

proof fn lemma_trace_from(keys: Seq<(u32, bool)>, n: nat)
    requires
        n <= keys.len(),
    ensures
        trace_text(keys, keys.len()) == trace_text(keys, n) + trace_from(keys, n as int),
    decreases keys.len() - n,
{
    if n == keys.len() {
        assert(trace_text(keys, n) + trace_from(keys, n as int) =~= trace_text(keys, n));
    } else {
        lemma_trace_from(keys, n + 1);
        let key = keys[n as int];
        reveal_strlit("thumb");
        reveal_strlit("arm");
        reveal_strlit(" thumb\n");
        reveal_strlit(" arm\n");
        assert(key_line(key) + seq!['\n'] =~= hex(key.0 as nat, 8) + (if key.1 {
            " thumb\n"@
        } else {
            " arm\n"@
        }));
        assert(trace_text(keys, n + 1) + trace_from(keys, n as int + 1) =~= trace_text(keys, n)
            + trace_from(keys, n as int));
    }
}

proof fn lemma_seeds_from(keys: Seq<(u32, bool)>, k: int)
    requires
        0 <= k <= keys.len(),
    ensures
        seeds_of(trace_from(keys, k)) == keys.skip(k).map_values(
            |key: (u32, bool)| seed_of_key(key),
        ),
    decreases keys.len() - k,
{
    let f = |key: (u32, bool)| seed_of_key(key);
    if k == keys.len() {
        assert(keys.skip(k).map_values(f) =~= Seq::<Seed>::empty());
    } else {
        lemma_seeds_from(keys, k + 1);
        lemma_key_line(keys[k]);
        lemma_seeds_line(key_line(keys[k]), trace_from(keys, k + 1));
        assert(keys.skip(k).map_values(f) =~= seq![seed_of_key(keys[k])] + keys.skip(
            k + 1,
        ).map_values(f));
    }
}

/// A written trace file reads back as the same blocks, by the addresses of their first
/// instructions.
pub proof fn law_trace_round_trip(keys: Seq<(u32, bool)>)
    ensures
        seeds_of(trace_text(keys, keys.len())) == keys.map_values(
            |key: (u32, bool)| seed_of_key(key),
        ),
{
    lemma_trace_from(keys, 0);
    lemma_seeds_from(keys, 0);
    assert(trace_text(keys, 0) + trace_from(keys, 0) =~= trace_from(keys, 0));
    assert(keys.skip(0) =~= keys);
}

} // verus!
