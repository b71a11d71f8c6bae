//! Listings of compiled code.

use vstd::prelude::*;
use crate::text::{hex, padded, push_hex, push_padded};
use vstd::string::*;
use capstone::arch::{BuildsCapstone, arm64, x86};
use capstone::Capstone;

verus! {

/// One disassembled instruction.
#[derive(Debug)]
pub struct DisasmLine {
    pub address: u64,
    pub mnemonic: String,
    pub operands: String,
}

/// What a disassembled instruction says: its address, mnemonic and operands.
pub ghost struct LineText {
    pub address: u64,
    pub mnemonic: Seq<char>,
    pub operands: Seq<char>,
}

impl View for DisasmLine {
    type V = LineText;

    open spec fn view(&self) -> LineText {
        LineText { address: self.address, mnemonic: self.mnemonic@, operands: self.operands@ }
    }
}

/// Why code cannot be disassembled, in the disassembler's words.
#[derive(Debug)]
pub enum DisasmFault {
    /// The disassembler cannot be made.
    Init(String),
    /// The code cannot be decoded.
    Decode(String),
}

/// What a fault says.
pub ghost enum FaultText {
    Init(Seq<char>),
    Decode(Seq<char>),
}

impl View for DisasmFault {
    type V = FaultText;

    open spec fn view(&self) -> FaultText {
        match self {
            DisasmFault::Init(e) => FaultText::Init(e@),
            DisasmFault::Decode(e) => FaultText::Decode(e@),
        }
    }
}

/// What a disassembly says, or what is wrong with it.
pub open spec fn said(r: Result<Vec<DisasmLine>, DisasmFault>) -> Result<
    Seq<LineText>,
    FaultText,
> {
    match r {
        Ok(lines) => Ok(lines@.map_values(|l: DisasmLine| l@)),
        Err(e) => Err(e@),
    }
}

/// The machines whose code can be listed.
#[derive(Clone, Copy, PartialEq, Eq, Structural, Debug)]
pub enum HostArch {
    X86_64,
    Aarch64,
    Other,
}

/// The disassembly of 64-bit x86 code at an address.
pub uninterp spec fn x86_disassembly(code: Seq<u8>, address: u64) -> Result<
    Seq<LineText>,
    FaultText,
>;

/// The disassembly of 64-bit ARM code at an address.
pub uninterp spec fn arm64_disassembly(code: Seq<u8>, address: u64) -> Result<
    Seq<LineText>,
    FaultText,
>;

/// `Capstone::disasm_all` for 64-bit x86: the instructions of a piece of code, as far as they can
/// be decoded.
#[verifier::external_body]
fn disassemble_x86(code: &[u8], address: u64) -> (r: Result<Vec<DisasmLine>, DisasmFault>)
    ensures
        said(r) == x86_disassembly(code@, address),
{
    let cs = Capstone::new().x86().mode(x86::ArchMode::Mode64).detail(false).build();
    let cs = cs.map_err(|e| DisasmFault::Init(e.to_string()))?;
    let insns = cs.disasm_all(code, address).map_err(|e| DisasmFault::Decode(e.to_string()))?;
    let line = |i: &capstone::Insn| DisasmLine {
        address: i.address(),
        mnemonic: i.mnemonic().unwrap_or("").to_string(),
        operands: i.op_str().unwrap_or("").to_string(),
    };
    Ok(insns.iter().map(line).collect())
}

/// `Capstone::disasm_all` for 64-bit ARM: the instructions of a piece of code, as far as they can
/// be decoded.
#[verifier::external_body]
fn disassemble_arm64(code: &[u8], address: u64) -> (r: Result<Vec<DisasmLine>, DisasmFault>)
    ensures
        said(r) == arm64_disassembly(code@, address),
{
    let cs = Capstone::new().arm64().mode(arm64::ArchMode::Arm).detail(false).build();
    let cs = cs.map_err(|e| DisasmFault::Init(e.to_string()))?;
    let insns = cs.disasm_all(code, address).map_err(|e| DisasmFault::Decode(e.to_string()))?;
    let line = |i: &capstone::Insn| DisasmLine {
        address: i.address(),
        mnemonic: i.mnemonic().unwrap_or("").to_string(),
        operands: i.op_str().unwrap_or("").to_string(),
    };
    Ok(insns.iter().map(line).collect())
}

/// The text of one line: the address in a field of 18, the mnemonic in a field of eight, and the
/// operands.
pub open spec fn line_text(l: LineText) -> Seq<char> {
    "  0x"@ + hex(l.address as nat, 16) + "  "@ + padded(l.mnemonic, 8) + "  "@ + l.operands
        + "\n"@
}

/// Whether a mnemonic is that of a return.
pub open spec fn is_return(mnemonic: Seq<char>) -> bool {
    mnemonic == "ret"@ || mnemonic == "retq"@
}

/// The text of the lines from `k` on, up to the first return and with it.
pub open spec fn listing_from(lines: Seq<LineText>, k: int) -> Seq<char>
    decreases lines.len() - k,
{
    if !(0 <= k < lines.len()) {
        Seq::empty()
    } else if is_return(lines[k].mnemonic) {
        line_text(lines[k])
    } else {
        line_text(lines[k]) + listing_from(lines, k + 1)
    }
}

/// Whether two texts are equal.
pub fn same_text(a: &str, b: &str) -> (r: bool)
    ensures
        r == (a@ == b@),
{
    let n: usize = a.unicode_len();
    if n != b.unicode_len() {
        return false;
    }
    let mut i: usize = 0;
    while i < n
        invariant
            i <= n,
            n == a@.len(),
            n == b@.len(),
            forall|j: int| 0 <= j < i ==> a@[j] == b@[j],
        decreases n - i,
    {
        if a.get_char(i) != b.get_char(i) {
            return false;
        }
        i = i + 1;
    }
    assert(a@ =~= b@);
    true
}

/// Appends the text of one line.
fn push_line(out: &mut String, l: &DisasmLine)
    ensures
        final(out)@ == old(out)@ + line_text(l@),
{
    out.append("  0x");
    push_hex(out, l.address, 16);
    out.append("  ");
    push_padded(out, l.mnemonic.as_str(), 8);
    out.append("  ");
    out.append(l.operands.as_str());
    out.append("\n");
    assert(out@ =~= old(out)@ + line_text(l@));
}

/// The lines up to the first return and with it, as text.
pub fn listing(lines: &Vec<DisasmLine>) -> (out: String)
    ensures
        out@ == listing_from(lines@.map_values(|l: DisasmLine| l@), 0),
{
    let ghost texts = lines@.map_values(|l: DisasmLine| l@);
    let mut out = String::new();
    let mut k: usize = 0;
    assert(out@ + listing_from(texts, 0) =~= listing_from(texts, 0));
    while k < lines.len()
        invariant
            k <= lines@.len(),
            texts == lines@.map_values(|l: DisasmLine| l@),
            out@ + listing_from(texts, k as int) == listing_from(texts, 0),
        decreases lines@.len() - k,
    {
        let ghost before = out@;
        push_line(&mut out, &lines[k]);
        let last: bool = same_text(lines[k].mnemonic.as_str(), "ret") || same_text(
            lines[k].mnemonic.as_str(),
            "retq",
        );
        proof {
            assert(texts[k as int] == lines@[k as int]@);
            assert(before + (line_text(texts[k as int]) + listing_from(texts, k + 1)) =~= out@
                + listing_from(texts, k + 1));
        }
        if last {
            return out;
        }
        k = k + 1;
    }
    assert(out@ + listing_from(texts, k as int) =~= out@);
    out
}

/// What the listing of a piece of code says.
pub open spec fn listed_code(host: HostArch, code: Seq<u8>, address: u64) -> Result<
    Seq<char>,
    Seq<char>,
> {
    match host {
        HostArch::X86_64 => text_of(host, x86_disassembly(code, address)),
        HostArch::Aarch64 => text_of(host, arm64_disassembly(code, address)),
        HostArch::Other => Err("unsupported host arch for capstone dump"@),
    }
}

/// The name of a machine in a fault.
pub open spec fn host_name(host: HostArch) -> Seq<char> {
    match host {
        HostArch::X86_64 => "x86_64"@,
        HostArch::Aarch64 => "arm64"@,
        HostArch::Other => "other"@,
    }
}

/// The listing of a disassembly, or the text of what is wrong with it.
pub open spec fn text_of(host: HostArch, d: Result<Seq<LineText>, FaultText>) -> Result<
    Seq<char>,
    Seq<char>,
> {
    match d {
        Ok(lines) => Ok(listing_from(lines, 0)),
        Err(FaultText::Init(e)) => Err("capstone "@ + host_name(host) + " init: "@ + e),
        Err(FaultText::Decode(e)) => Err("capstone disasm: "@ + e),
    }
}

/// Lists a disassembly for a machine.
pub fn list_disassembly(host: HostArch, d: Result<Vec<DisasmLine>, DisasmFault>) -> (r: Result<
    String,
    String,
>)
    ensures
        (match r {
            Ok(s) => Ok(s@),
            Err(e) => Err(e@),
        }) == text_of(host, said(d)),
{
    match d {
        Ok(lines) => Ok(listing(&lines)),
        Err(DisasmFault::Init(e)) => {
            let mut text = String::from_str("capstone ");
            text.append(
                match host {
                    HostArch::X86_64 => "x86_64",
                    HostArch::Aarch64 => "arm64",
                    HostArch::Other => "other",
                },
            );
            text.append(" init: ");
            text.append(e.as_str());
            assert(text@ =~= "capstone "@ + host_name(host) + " init: "@ + e@);
            Err(text)
        },
        Err(DisasmFault::Decode(e)) => {
            let mut text = String::from_str("capstone disasm: ");
            text.append(e.as_str());
            assert(text@ =~= "capstone disasm: "@ + e@);
            Err(text)
        },
    }
}

/// Lists the code at an address up to its first return.
pub fn list_code(host: HostArch, code: &[u8], address: u64) -> (r: Result<String, String>)
    ensures
        (match r {
            Ok(s) => Ok(s@),
            Err(e) => Err(e@),
        }) == listed_code(host, code@, address),
{
    match host {
        HostArch::X86_64 => list_disassembly(host, disassemble_x86(code, address)),
        HostArch::Aarch64 => list_disassembly(host, disassemble_arm64(code, address)),
        HostArch::Other => Err(String::from_str("unsupported host arch for capstone dump")),
    }
}

} // verus!
