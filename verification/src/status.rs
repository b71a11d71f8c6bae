//! The state of a core as styled text.

use vstd::prelude::*;
use crate::cpu::{Arm7tdmiCore, word_bytes};
use crate::memory::MemoryInterface;
use crate::text::{hex, padded, push_hex, push_padded};
use vstd::string::*;
use ansi_term::{Colour, Style};

verus! {

/// A text in bold.
pub open spec fn bold(s: Seq<char>) -> Seq<char> {
    "\x1b[1m"@ + s + "\x1b[0m"@
}

/// A text in bold black on yellow.
pub open spec fn highlighted(s: Seq<char>) -> Seq<char> {
    "\x1b[1;43;30m"@ + s + "\x1b[0m"@
}

/// `Style::bold` and `Style::paint`: a text between the codes for bold and for plain.
#[verifier::external_body]
fn paint_bold(s: &str) -> (r: String)
    ensures
        r@ == bold(s@),
{
    Style::new().bold().paint(s).to_string()
}

/// `Colour::bold`, `Style::on` and `Style::paint`: a text between the codes for bold black on
/// yellow and for plain.
#[verifier::external_body]
fn paint_highlighted(s: &str) -> (r: String)
    ensures
        r@ == highlighted(s@),
{
    Colour::Black.bold().on(Colour::Yellow).paint(s).to_string()
}

/// A character with small letters of the Latin alphabet made capital.
pub open spec fn capital(c: char) -> char {
    if 'a' <= c && c <= 'z' {
        (c as u8 - 32) as u8 as char
    } else {
        c
    }
}

/// A text in capitals.
pub open spec fn capitals(s: Seq<char>) -> Seq<char> {
    s.map_values(|c: char| capital(c))
}

/// A text with the small letters of the Latin alphabet made capital.
fn to_capitals(s: &str) -> (r: String)
    ensures
        r@ == capitals(s@),
{
    let letters = "ABCDEFGHIJKLMNOPQRSTUVWXYZ";
    let n: usize = s.unicode_len();
    let mut r = String::new();
    let mut i: usize = 0;
    proof {
        reveal_strlit("ABCDEFGHIJKLMNOPQRSTUVWXYZ");
    }
    while i < n
        invariant
            i <= n == s@.len(),
            letters@ == "ABCDEFGHIJKLMNOPQRSTUVWXYZ"@,
            letters@.len() == 26,
            r@ == capitals(s@.take(i as int)),
        decreases n - i,
    {
        let c = s.get_char(i);
        let ghost before = r@;
        if 'a' <= c && c <= 'z' {
            let k: usize = (c as u8 - 97) as usize;
            proof {
                lemma_letters(k as int);
            }
            r.append(letters.substring_char(k, k + 1));
        } else {
            r.append(s.substring_char(i, i + 1));
        }
        assert(r@ =~= before.push(capital(c)));
        assert(s@.take(i + 1) =~= s@.take(i as int).push(c));
        assert(capitals(s@.take(i + 1)) =~= capitals(s@.take(i as int)).push(capital(c)));
        i = i + 1;
    }
    assert(s@.take(n as int) =~= s@);
    r
}

/// The capital letters in order.
proof fn lemma_letters(k: int)
    requires
        0 <= k < 26,
    ensures
        "ABCDEFGHIJKLMNOPQRSTUVWXYZ"@[k] == (65 + k) as u8 as char,
{
    reveal_strlit("ABCDEFGHIJKLMNOPQRSTUVWXYZ");
    let s = "ABCDEFGHIJKLMNOPQRSTUVWXYZ"@;
    assert(s[0] == 'A' && s[1] == 'B' && s[2] == 'C' && s[3] == 'D' && s[4] == 'E' && s[5] == 'F');
    assert(s[6] == 'G' && s[7] == 'H' && s[8] == 'I' && s[9] == 'J' && s[10] == 'K' && s[11] == 'L');
    assert(s[12] == 'M' && s[13] == 'N' && s[14] == 'O' && s[15] == 'P' && s[16] == 'Q');
    assert(s[17] == 'R' && s[18] == 'S' && s[19] == 'T' && s[20] == 'U' && s[21] == 'V');
    assert(s[22] == 'W' && s[23] == 'X' && s[24] == 'Y' && s[25] == 'Z');
}

/// A register with its name in capitals and in a field of three.
pub open spec fn register_entry(name: Seq<char>, value: u32) -> Seq<char> {
    "\t"@ + padded(capitals(name), 3) + " = 0x"@ + hex(value as nat, 8)
}

/// The entries of the first `n` registers, four to a line; a register that differs from what it
/// was before is highlighted.
pub open spec fn register_table(
    gpr: Seq<u32>,
    previous: Seq<u32>,
    names: Seq<String>,
    n: nat,
) -> Seq<char>
    decreases n,
{
    if n == 0 {
        Seq::empty()
    } else {
        let k = n - 1;
        let entry = register_entry(names[k]@, gpr[k]);
        register_table(gpr, previous, names, k as nat) + (if gpr[k] != previous[k] {
            highlighted(entry)
        } else {
            bold(entry)
        }) + (if n % 4 == 0 {
            "\n"@
        } else {
            Seq::empty()
        })
    }
}

/// The whole status: the status register, the registers and the next program counter.
pub open spec fn status_text(
    cpsr: Seq<char>,
    gpr: Seq<u32>,
    previous: Seq<u32>,
    names: Seq<String>,
    next_pc: u32,
) -> Seq<char> {
    "ARM7TDMI Core Status:\n\tCPSR: "@ + cpsr + "\n\tGeneral Purpose Registers:\n"@
        + register_table(gpr, previous, names, 15) + bold(register_entry("PC"@, next_pc)) + "\n"@
}

/// Appends the entry of a register.
fn push_entry(out: &mut String, name: &str, value: u32)
    ensures
        final(out)@ == old(out)@ + register_entry(name@, value),
{
    out.append("\t");
    push_padded(out, to_capitals(name).as_str(), 3);
    out.append(" = 0x");
    push_hex(out, value as u64, 8);
    assert(out@ =~= old(out)@ + register_entry(name@, value));
}

impl<I: MemoryInterface> Arm7tdmiCore<I> {
    /// The status of the core as text. `cpsr` is the status register as text, and `names` are the
    /// names of R0 to R14.
    pub fn debug_text(&self, cpsr: &str, names: &Vec<String>) -> (out: String)
        requires
            names@.len() == 15,
            self@.pc >= 2 * word_bytes(self@.thumb()),
        ensures
            out@ == status_text(
                cpsr@,
                self@.gpr,
                self@.gpr,
                names@,
                (self@.pc - 2 * word_bytes(self@.thumb())) as u32,
            ),
    {
        self.status(cpsr, names, &self.gpr)
    }

    /// The status of the core as text, with the registers highlighted that the last executed
    /// instruction changed.
    pub fn display_text(&self, cpsr: &str, names: &Vec<String>) -> (out: String)
        requires
            names@.len() == 15,
            self@.pc >= 2 * word_bytes(self@.thumb()),
        ensures
            out@ == status_text(
                cpsr@,
                self@.gpr,
                self@.dbg.gpr_previous,
                names@,
                (self@.pc - 2 * word_bytes(self@.thumb())) as u32,
            ),
    {
        self.status(cpsr, names, &self.dbg.gpr_previous)
    }

    /// The status of the core as text, with the registers highlighted that differ from `previous`.
    fn status(&self, cpsr: &str, names: &Vec<String>, previous: &[u32; 15]) -> (out: String)
        requires
            names@.len() == 15,
            self@.pc >= 2 * word_bytes(self@.thumb()),
        ensures
            out@ == status_text(
                cpsr@,
                self@.gpr,
                previous@,
                names@,
                (self@.pc - 2 * word_bytes(self@.thumb())) as u32,
            ),
    {
        let mut out = String::new();
        out.append("ARM7TDMI Core Status:\n\tCPSR: ");
        out.append(cpsr);
        out.append("\n\tGeneral Purpose Registers:\n");
        let ghost head = out@;
        let mut i: usize = 0;
        assert(out@ =~= head + register_table(self.gpr@, previous@, names@, 0));
        while i < 15
            invariant
                i <= 15,
                names@.len() == 15,
                out@ == head + register_table(self.gpr@, previous@, names@, i as nat),
            decreases 15 - i,
        {
            let ghost before = out@;
            let mut entry = String::new();
            push_entry(&mut entry, names[i].as_str(), self.gpr[i]);
            assert(entry@ =~= register_entry(names@[i as int]@, self.gpr@[i as int]));
            let styled = if self.gpr[i] != previous[i] {
                paint_highlighted(entry.as_str())
            } else {
                paint_bold(entry.as_str())
            };
            out.append(styled.as_str());
            if (i + 1) % 4 == 0 {
                out.append("\n");
            }
            i = i + 1;
            assert(out@ =~= head + register_table(self.gpr@, previous@, names@, i as nat));
        }
        let mut entry = String::new();
        push_entry(&mut entry, "PC", self.get_next_pc());
        assert(entry@ =~= register_entry("PC"@, (self@.pc - 2 * word_bytes(self@.thumb())) as u32));
        out.append(paint_bold(entry.as_str()).as_str());
        out.append("\n");
        assert(out@ =~= status_text(
            cpsr@,
            self@.gpr,
            previous@,
            names@,
            (self@.pc - 2 * word_bytes(self@.thumb())) as u32,
        ));
        out
    }
}

} // verus!
