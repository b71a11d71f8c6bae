//! The recompiler's intermediate code and what it means.
//!
//! A fragment is a straight line of operations; operation `i` defines temporary `i`. A block is a
//! list of nodes, each made of fragments, with the few branches that compiled blocks have.

use vstd::prelude::*;
use crate::bits::{sshr, truth};

verus! {

/// The functions that compiled code calls back into.
#[derive(Clone, Copy, PartialEq, Eq, Structural, Debug)]
pub enum Callee {
    Load32,
    Store32,
    Load8,
    Store8,
    Load32Sequential,
    Store32Sequential,
    Store16,
    LoadWithIdle16,
    LoadWithIdle32,
    LoadWithIdle8,
    SetNextFetchNonseq,
    PayThumbFetchExtraNonseq,
    IdleCycle,
    ThumbFetchN,
    ChainAbortCheck,
    AbortMidBlock,
}

impl Callee {
    /// How many words the callee takes after the context.
    pub open spec fn takes(self) -> nat {
        match self {
            Callee::Load32 | Callee::Load8 | Callee::Load32Sequential => 1,
            Callee::LoadWithIdle16 | Callee::LoadWithIdle32 | Callee::LoadWithIdle8 => 1,
            Callee::PayThumbFetchExtraNonseq => 1,
            Callee::Store32 | Callee::Store8 | Callee::Store32Sequential | Callee::Store16 => 2,
            Callee::ThumbFetchN => 2,
            Callee::AbortMidBlock => 3,
            Callee::SetNextFetchNonseq | Callee::IdleCycle | Callee::ChainAbortCheck => 0,
        }
    }

    /// Whether the callee hands a word back.
    pub open spec fn answers(self) -> bool {
        match self {
            Callee::Load32 | Callee::Load8 | Callee::Load32Sequential => true,
            Callee::LoadWithIdle16 | Callee::LoadWithIdle32 | Callee::LoadWithIdle8 => true,
            Callee::ChainAbortCheck => true,
            _ => false,
        }
    }

    /// The callee's place among all callees.
    pub open spec fn place(self) -> int {
        match self {
            Callee::Load32 => 0,
            Callee::Store32 => 1,
            Callee::Load8 => 2,
            Callee::Store8 => 3,
            Callee::Load32Sequential => 4,
            Callee::Store32Sequential => 5,
            Callee::Store16 => 6,
            Callee::LoadWithIdle16 => 7,
            Callee::LoadWithIdle32 => 8,
            Callee::LoadWithIdle8 => 9,
            Callee::SetNextFetchNonseq => 10,
            Callee::PayThumbFetchExtraNonseq => 11,
            Callee::IdleCycle => 12,
            Callee::ThumbFetchN => 13,
            Callee::ChainAbortCheck => 14,
            Callee::AbortMidBlock => 15,
        }
    }

    /// The callee's place among all callees.
    pub fn index(self) -> (i: usize)
        ensures
            i == self.place(),
            i < 16,
    {
        match self {
            Callee::Load32 => 0,
            Callee::Store32 => 1,
            Callee::Load8 => 2,
            Callee::Store8 => 3,
            Callee::Load32Sequential => 4,
            Callee::Store32Sequential => 5,
            Callee::Store16 => 6,
            Callee::LoadWithIdle16 => 7,
            Callee::LoadWithIdle32 => 8,
            Callee::LoadWithIdle8 => 9,
            Callee::SetNextFetchNonseq => 10,
            Callee::PayThumbFetchExtraNonseq => 11,
            Callee::IdleCycle => 12,
            Callee::ThumbFetchN => 13,
            Callee::ChainAbortCheck => 14,
            Callee::AbortMidBlock => 15,
        }
    }

    /// The callee at a place.
    pub fn at(i: usize) -> (f: Callee)
        requires
            i < 16,
        ensures
            f.place() == i,
    {
        match i {
            0 => Callee::Load32,
            1 => Callee::Store32,
            2 => Callee::Load8,
            3 => Callee::Store8,
            4 => Callee::Load32Sequential,
            5 => Callee::Store32Sequential,
            6 => Callee::Store16,
            7 => Callee::LoadWithIdle16,
            8 => Callee::LoadWithIdle32,
            9 => Callee::LoadWithIdle8,
            10 => Callee::SetNextFetchNonseq,
            11 => Callee::PayThumbFetchExtraNonseq,
            12 => Callee::IdleCycle,
            13 => Callee::ThumbFetchN,
            14 => Callee::ChainAbortCheck,
            _ => Callee::AbortMidBlock,
        }
    }

    /// The name under which the callee is linked.
    pub open spec fn linked_as(self) -> Seq<char> {
        match self {
            Callee::Load32 => "rba_bus_load_32"@,
            Callee::Store32 => "rba_bus_store_32"@,
            Callee::Load8 => "rba_bus_load_8"@,
            Callee::Store8 => "rba_bus_store_8"@,
            Callee::Load32Sequential => "rba_bus_load_32_seq"@,
            Callee::Store32Sequential => "rba_bus_store_32_seq"@,
            Callee::Store16 => "rba_bus_store_16"@,
            Callee::LoadWithIdle16 => "rba_bus_load_with_idle_16"@,
            Callee::LoadWithIdle32 => "rba_bus_load_with_idle_32"@,
            Callee::LoadWithIdle8 => "rba_bus_load_with_idle_8"@,
            Callee::SetNextFetchNonseq => "rba_set_next_fetch_nonseq"@,
            Callee::PayThumbFetchExtraNonseq => "rba_pay_thumb_fetch_extra_nonseq"@,
            Callee::IdleCycle => "rba_idle_cycle"@,
            Callee::ThumbFetchN => "rba_thumb_fetch_n"@,
            Callee::ChainAbortCheck => "rba_chain_abort_check"@,
            Callee::AbortMidBlock => "rba_abort_mid_block"@,
        }
    }

    /// The name under which the callee is linked.
    pub fn symbol(self) -> (s: &'static str)
        ensures
            s@ == self.linked_as(),
    {
        match self {
            Callee::Load32 => "rba_bus_load_32",
            Callee::Store32 => "rba_bus_store_32",
            Callee::Load8 => "rba_bus_load_8",
            Callee::Store8 => "rba_bus_store_8",
            Callee::Load32Sequential => "rba_bus_load_32_seq",
            Callee::Store32Sequential => "rba_bus_store_32_seq",
            Callee::Store16 => "rba_bus_store_16",
            Callee::LoadWithIdle16 => "rba_bus_load_with_idle_16",
            Callee::LoadWithIdle32 => "rba_bus_load_with_idle_32",
            Callee::LoadWithIdle8 => "rba_bus_load_with_idle_8",
            Callee::SetNextFetchNonseq => "rba_set_next_fetch_nonseq",
            Callee::PayThumbFetchExtraNonseq => "rba_pay_thumb_fetch_extra_nonseq",
            Callee::IdleCycle => "rba_idle_cycle",
            Callee::ThumbFetchN => "rba_thumb_fetch_n",
            Callee::ChainAbortCheck => "rba_chain_abort_check",
            Callee::AbortMidBlock => "rba_abort_mid_block",
        }
    }

    /// The number of words taken after the context.
    pub fn arity(self) -> (r: usize)
        ensures
            r == self.takes(),
    {
        match self {
            Callee::Load32 | Callee::Load8 | Callee::Load32Sequential => 1,
            Callee::LoadWithIdle16 | Callee::LoadWithIdle32 | Callee::LoadWithIdle8 => 1,
            Callee::PayThumbFetchExtraNonseq => 1,
            Callee::Store32 | Callee::Store8 | Callee::Store32Sequential | Callee::Store16 => 2,
            Callee::ThumbFetchN => 2,
            Callee::AbortMidBlock => 3,
            Callee::SetNextFetchNonseq | Callee::IdleCycle | Callee::ChainAbortCheck => 0,
        }
    }

    /// Whether a word comes back.
    pub fn returns_word(self) -> (r: bool)
        ensures
            r == self.answers(),
    {
        match self {
            Callee::Load32 | Callee::Load8 | Callee::Load32Sequential => true,
            Callee::LoadWithIdle16 | Callee::LoadWithIdle32 | Callee::LoadWithIdle8 => true,
            Callee::ChainAbortCheck => true,
            _ => false,
        }
    }
}

/// One call out of compiled code; arguments beyond the callee's arity are zero.
#[derive(Clone, Copy, PartialEq, Eq, Structural, Debug)]
pub struct BusCall {
    pub to: Callee,
    pub a: u32,
    pub b: u32,
    pub c: u32,
}

/// Two-operand word operations.
#[derive(Clone, Copy, PartialEq, Eq, Structural, Debug)]
pub enum BinOp {
    Add,
    Sub,
    And,
    Or,
    Xor,
}

/// Word operations with a constant right operand.
#[derive(Clone, Copy, PartialEq, Eq, Structural, Debug)]
pub enum ImmOp {
    Add,
    And,
    Or,
    Shl,
    Ushr,
    Sshr,
}

/// Integer comparisons.
#[derive(Clone, Copy, PartialEq, Eq, Structural, Debug)]
pub enum Cc {
    Equal,
    NotEqual,
    UnsignedLessThan,
    UnsignedGreaterThanOrEqual,
}

/// One operation of a fragment.
#[derive(Clone, Copy, PartialEq, Eq, Structural, Debug)]
pub enum Op {
    /// A constant word.
    Const(u32),
    /// A constant truth value.
    True,
    /// Reads the block's extra argument.
    Arg,
    /// Reads a guest register.
    Gpr(usize),
    /// Writes a guest register.
    SetGpr(usize, usize),
    /// Reads the status word.
    Cpsr,
    /// Replaces the status word.
    SetCpsr(usize),
    /// Writes the branch target.
    SetPc(usize),
    /// Sets the block's result.
    SetTook(usize),
    Bin(BinOp, usize, usize),
    Imm(ImmOp, usize, u32),
    Not(usize),
    Test(Cc, usize, usize),
    /// Widens a truth value to a word.
    Widen(usize),
    Call0(Callee),
    Call1(Callee, usize),
    Call2(Callee, usize, usize),
    Call3(Callee, usize, usize, usize),
}

pub open spec fn bin_value(op: BinOp, x: u32, y: u32) -> u32 {
    match op {
        BinOp::Add => x.wrapping_add(y),
        BinOp::Sub => x.wrapping_sub(y),
        BinOp::And => x & y,
        BinOp::Or => x | y,
        BinOp::Xor => x ^ y,
    }
}

pub open spec fn imm_value(op: ImmOp, x: u32, n: u32) -> u32 {
    match op {
        ImmOp::Add => x.wrapping_add(n),
        ImmOp::And => x & n,
        ImmOp::Or => x | n,
        ImmOp::Shl => x << n,
        ImmOp::Ushr => x >> n,
        ImmOp::Sshr => sshr(x, n),
    }
}

pub open spec fn holds(cc: Cc, x: u32, y: u32) -> bool {
    match cc {
        Cc::Equal => x == y,
        Cc::NotEqual => x != y,
        Cc::UnsignedLessThan => x < y,
        Cc::UnsignedGreaterThanOrEqual => x >= y,
    }
}

/// What a temporary holds.
#[derive(Clone, Copy, PartialEq, Eq, Structural, Debug)]
pub enum Kind {
    Word,
    Truth,
    Nothing,
}

/// What an operation leaves in its temporary, given what the earlier ones hold.
pub open spec fn kind_of(op: Op, kinds: Seq<Kind>) -> Kind {
    match op {
        Op::True | Op::Test(..) => Kind::Truth,
        Op::Bin(_, x, _) => kinds[x as int],
        Op::SetGpr(..) | Op::SetCpsr(_) | Op::SetPc(_) | Op::SetTook(_) => Kind::Nothing,
        Op::Call0(f) | Op::Call1(f, _) | Op::Call2(f, _, _) | Op::Call3(f, _, _, _) => if f.answers() {
            Kind::Word
        } else {
            Kind::Nothing
        },
        _ => Kind::Word,
    }
}

/// Whether temporary `t` holds something of a kind.
pub open spec fn is_kind(kinds: Seq<Kind>, t: usize, k: Kind) -> bool {
    t < kinds.len() && kinds[t as int] == k
}

/// Whether temporary `t` holds a word.
pub open spec fn is_word(kinds: Seq<Kind>, t: usize) -> bool {
    is_kind(kinds, t, Kind::Word)
}

/// Whether an operation joins operands of two kinds: words by any operation, and truth values by
/// the logical ones.
pub open spec fn joins(op: BinOp, x: Kind, y: Kind) -> bool {
    match x {
        Kind::Word => y == Kind::Word,
        Kind::Truth => y == Kind::Truth && op != BinOp::Add && op != BinOp::Sub,
        Kind::Nothing => false,
    }
}

/// Whether an operation only uses earlier temporaries, for what they hold, and existing registers.
pub open spec fn op_ok(op: Op, kinds: Seq<Kind>) -> bool {
    match op {
        Op::Const(_) | Op::True | Op::Arg | Op::Cpsr => true,
        Op::Gpr(r) => r < 15,
        Op::SetGpr(r, t) => r < 15 && is_word(kinds, t),
        Op::SetCpsr(t) | Op::SetPc(t) | Op::SetTook(t) | Op::Not(t) => is_word(kinds, t),
        Op::Widen(t) => is_kind(kinds, t, Kind::Truth),
        Op::Bin(o, x, y) => x < kinds.len() && y < kinds.len() && joins(
            o,
            kinds[x as int],
            kinds[y as int],
        ),
        Op::Imm(o, x, k) => is_word(kinds, x) && ((o == ImmOp::Shl || o == ImmOp::Ushr || o
            == ImmOp::Sshr) ==> k < 32),
        Op::Test(_, x, y) => is_word(kinds, x) && is_word(kinds, y),
        Op::Call0(f) => f.takes() == 0,
        Op::Call1(f, x) => f.takes() == 1 && is_word(kinds, x),
        Op::Call2(f, x, y) => f.takes() == 2 && is_word(kinds, x) && is_word(kinds, y),
        Op::Call3(f, x, y, z) => f.takes() == 3 && is_word(kinds, x) && is_word(kinds, y)
            && is_word(kinds, z),
    }
}

/// The guest state that compiled code works on. `arg` is the block's extra argument, `calls` lists
/// the calls made so far, and `bus`
/// gives the answer to the last call of a history.
pub ghost struct Cpu {
    pub gpr: Seq<u32>,
    pub cpsr: u32,
    pub pc_out: u32,
    pub took: u32,
    pub arg: u32,
    pub calls: Seq<BusCall>,
    pub bus: spec_fn(Seq<BusCall>) -> u32,
}

impl Cpu {
    /// Register `r`.
    pub open spec fn reg(self, r: usize) -> u32 {
        self.gpr[r as int]
    }

    /// This state with register `r` replaced.
    pub open spec fn set(self, r: usize, v: u32) -> Cpu {
        Cpu { gpr: self.gpr.update(r as int, v), ..self }
    }

    /// This state with the status word replaced.
    pub open spec fn flagged(self, cpsr: u32) -> Cpu {
        Cpu { cpsr, ..self }
    }

    /// This state after one more call.
    pub open spec fn called(self, to: Callee, a: u32, b: u32, c: u32) -> Cpu {
        Cpu { calls: self.calls.push(BusCall { to, a, b, c }), ..self }
    }

    /// The answer to the last call.
    pub open spec fn answer(self) -> u32 {
        (self.bus)(self.calls)
    }

    /// The word that a last call of `f` gave: its answer, or zero where it has none.
    pub open spec fn given(self, f: Callee) -> u32 {
        if f.answers() {
            self.answer()
        } else {
            0
        }
    }

    /// This state with a branch to `pc` taken.
    pub open spec fn branched(self, pc: u32) -> Cpu {
        Cpu { pc_out: pc, took: 1, ..self }
    }
}

/// A guest state together with the temporaries defined so far.
pub ghost struct Mach {
    pub cpu: Cpu,
    pub env: Seq<u32>,
}

impl Mach {
    /// The guest state after `op`.
    pub open spec fn acted(self, op: Op) -> Cpu {
        let e = self.env;
        match op {
            Op::SetGpr(r, t) => self.cpu.set(r, e[t as int]),
            Op::SetCpsr(t) => self.cpu.flagged(e[t as int]),
            Op::SetPc(t) => Cpu { pc_out: e[t as int], ..self.cpu },
            Op::SetTook(t) => Cpu { took: e[t as int], ..self.cpu },
            Op::Call0(f) => self.cpu.called(f, 0, 0, 0),
            Op::Call1(f, x) => self.cpu.called(f, e[x as int], 0, 0),
            Op::Call2(f, x, y) => self.cpu.called(f, e[x as int], e[y as int], 0),
            Op::Call3(f, x, y, z) => self.cpu.called(f, e[x as int], e[y as int], e[z as int]),
            _ => self.cpu,
        }
    }

    /// The temporary that `op` defines; zero for operations that define none.
    pub open spec fn val(self, op: Op) -> u32 {
        let e = self.env;
        match op {
            Op::Const(k) => k,
            Op::True => 1,
            Op::Arg => self.cpu.arg,
            Op::Gpr(r) => self.cpu.reg(r),
            Op::Cpsr => self.cpu.cpsr,
            Op::Bin(o, x, y) => bin_value(o, e[x as int], e[y as int]),
            Op::Imm(o, x, k) => imm_value(o, e[x as int], k),
            Op::Not(x) => !e[x as int],
            Op::Test(cc, x, y) => truth(holds(cc, e[x as int], e[y as int])),
            Op::Widen(x) => e[x as int],
            Op::Call0(f) | Op::Call1(f, _) | Op::Call2(f, _, _) | Op::Call3(f, _, _, _) => self.acted(
                op,
            ).given(f),
            _ => 0,
        }
    }

    pub open spec fn step(self, op: Op) -> Mach {
        Mach { cpu: self.acted(op), env: self.env.push(self.val(op)) }
    }
}

/// The machine after a fragment, started in `s` with no temporaries.
pub open spec fn run(ops: Seq<Op>, s: Cpu) -> Mach
    decreases ops.len(),
{
    if ops.len() == 0 {
        Mach { cpu: s, env: Seq::empty() }
    } else {
        run(ops.drop_last(), s).step(ops.last())
    }
}

/// A fragment defines one temporary for each of its operations.
pub proof fn lemma_run_len(ops: Seq<Op>, s: Cpu)
    ensures
        run(ops, s).env.len() == ops.len(),
    decreases ops.len(),
{
    if ops.len() > 0 {
        lemma_run_len(ops.drop_last(), s);
    }
}

/// A straight-line fragment.
#[derive(Debug)]
pub struct Code {
    pub ops: Vec<Op>,
    /// What each temporary holds.
    pub kinds: Vec<Kind>,
}

impl View for Code {
    type V = Seq<Op>;

    open spec fn view(&self) -> Seq<Op> {
        self.ops@
    }
}

impl Code {
    /// Every operation refers to earlier temporaries, for what they hold, and to existing
    /// registers only.
    pub closed spec fn wf(&self) -> bool {
        &&& self.kinds@.len() == self@.len()
        &&& forall|i: int|
            0 <= i < self@.len() ==> op_ok(#[trigger] self@[i], self.kinds@.take(i))
                && self.kinds@[i] == kind_of(self@[i], self.kinds@.take(i))
    }

    /// Each operation of a well-formed fragment is in order.
    pub proof fn lemma_op(&self, i: int)
        requires
            self.wf(),
            0 <= i < self@.len(),
        ensures
            self.kinds@.len() == self@.len(),
            op_ok(self@[i], self.kinds@.take(i)),
            self.kinds@[i] == kind_of(self@[i], self.kinds@.take(i)),
    {
    }

    /// There is one kind for each operation.
    pub proof fn lemma_sizes(&self)
        requires
            self.wf(),
        ensures
            self.kinds@.len() == self@.len(),
    {
    }

    pub fn new() -> (code: Code)
        ensures
            code@.len() == 0,
            code.kinds@.len() == 0,
            code.wf(),
            forall|s: Cpu| #[trigger]
                run(code@, s) == (Mach { cpu: s, env: Seq::empty() }),
    {
        Code { ops: Vec::new(), kinds: Vec::new() }
    }

    /// Appends an operation and returns the temporary that it defines.
    fn push(&mut self, op: Op, kind: Kind) -> (t: usize)
        requires
            old(self).wf(),
            op_ok(op, old(self).kinds@),
            kind == kind_of(op, old(self).kinds@),
        ensures
            final(self)@ == old(self)@.push(op),
            final(self).kinds@ == old(self).kinds@.push(kind),
            old(self).kinds@.len() == old(self)@.len(),
            final(self).wf(),
            t == old(self)@.len(),
            forall|s: Cpu| (#[trigger] run(old(self)@, s)).env.len() == old(self)@.len(),
            forall|s: Cpu| #[trigger] run(final(self)@, s) == run(old(self)@, s).step(op),
    {
        let t: usize = self.ops.len();
        self.ops.push(op);
        self.kinds.push(kind);
        proof {
            assert forall|s: Cpu| (#[trigger] run(old(self)@, s)).env.len()
                == old(self)@.len() by {
                lemma_run_len(old(self)@, s);
            }
            assert(self@.drop_last() =~= old(self)@);
            assert forall|i: int| 0 <= i < self@.len() implies op_ok(
                #[trigger] self@[i],
                self.kinds@.take(i),
            ) && self.kinds@[i] == kind_of(self@[i], self.kinds@.take(i)) by {
                if i < old(self)@.len() {
                    assert(self.kinds@.take(i) =~= old(self).kinds@.take(i));
                    assert(old(self)@[i] == self@[i]);
                } else {
                    assert(self.kinds@.take(i) =~= old(self).kinds@);
                }
            }
        }
        t
    }

    /// Appends a constant word.
    pub fn konst(&mut self, k: u32) -> (t: usize)
        requires
            old(self).wf(),
        ensures
            final(self).wf(),
            final(self)@.len() == old(self)@.len() + 1,
            final(self).kinds@ == old(self).kinds@.push(Kind::Word),
            old(self).kinds@.len() == old(self)@.len(),
            t == old(self)@.len(),
            forall|s: Cpu| (#[trigger] run(old(self)@, s)).env.len() == old(self)@.len(),
            forall|s: Cpu|
                #![trigger run(final(self)@, s)]
                {
                    &&& run(final(self)@, s).cpu == run(old(self)@, s).cpu
                    &&& run(final(self)@, s).env == run(old(self)@, s).env.push(k)
                },
    {
        self.push(Op::Const(k), Kind::Word)
    }

    /// Appends a constant truth.
    pub fn yes(&mut self) -> (t: usize)
        requires
            old(self).wf(),
        ensures
            final(self).wf(),
            final(self)@.len() == old(self)@.len() + 1,
            final(self).kinds@ == old(self).kinds@.push(Kind::Truth),
            old(self).kinds@.len() == old(self)@.len(),
            t == old(self)@.len(),
            forall|s: Cpu| (#[trigger] run(old(self)@, s)).env.len() == old(self)@.len(),
            forall|s: Cpu|
                #![trigger run(final(self)@, s)]
                {
                    &&& run(final(self)@, s).cpu == run(old(self)@, s).cpu
                    &&& run(final(self)@, s).env == run(old(self)@, s).env.push(1)
                },
    {
        self.push(Op::True, Kind::Truth)
    }

    /// Appends a register read.
    pub fn gpr(&mut self, r: usize) -> (t: usize)
        requires
            old(self).wf(),
            r < 15,
        ensures
            final(self).wf(),
            final(self)@.len() == old(self)@.len() + 1,
            final(self).kinds@ == old(self).kinds@.push(Kind::Word),
            old(self).kinds@.len() == old(self)@.len(),
            t == old(self)@.len(),
            forall|s: Cpu| (#[trigger] run(old(self)@, s)).env.len() == old(self)@.len(),
            forall|s: Cpu|
                #![trigger run(final(self)@, s)]
                {
                    &&& run(final(self)@, s).cpu == run(old(self)@, s).cpu
                    &&& run(final(self)@, s).env == run(old(self)@, s).env.push(
                        run(old(self)@, s).cpu.reg(r),
                    )
                },
    {
        self.push(Op::Gpr(r), Kind::Word)
    }

    /// Appends a read of the extra argument.
    pub fn arg(&mut self) -> (t: usize)
        requires
            old(self).wf(),
        ensures
            final(self).wf(),
            final(self)@.len() == old(self)@.len() + 1,
            final(self).kinds@ == old(self).kinds@.push(Kind::Word),
            old(self).kinds@.len() == old(self)@.len(),
            t == old(self)@.len(),
            forall|s: Cpu| (#[trigger] run(old(self)@, s)).env.len() == old(self)@.len(),
            forall|s: Cpu|
                #![trigger run(final(self)@, s)]
                {
                    &&& run(final(self)@, s).cpu == run(old(self)@, s).cpu
                    &&& run(final(self)@, s).env == run(old(self)@, s).env.push(
                        run(old(self)@, s).cpu.arg,
                    )
                },
    {
        self.push(Op::Arg, Kind::Word)
    }

    /// Appends a read of the status word.
    pub fn cpsr(&mut self) -> (t: usize)
        requires
            old(self).wf(),
        ensures
            final(self).wf(),
            final(self)@.len() == old(self)@.len() + 1,
            final(self).kinds@ == old(self).kinds@.push(Kind::Word),
            old(self).kinds@.len() == old(self)@.len(),
            t == old(self)@.len(),
            forall|s: Cpu| (#[trigger] run(old(self)@, s)).env.len() == old(self)@.len(),
            forall|s: Cpu|
                #![trigger run(final(self)@, s)]
                {
                    &&& run(final(self)@, s).cpu == run(old(self)@, s).cpu
                    &&& run(final(self)@, s).env == run(old(self)@, s).env.push(
                        run(old(self)@, s).cpu.cpsr,
                    )
                },
    {
        self.push(Op::Cpsr, Kind::Word)
    }

    /// Appends a two-operand operation.
    pub fn bin(&mut self, op: BinOp, x: usize, y: usize) -> (t: usize)
        requires
            old(self).wf(),
            x < old(self).kinds@.len(),
            y < old(self).kinds@.len(),
            joins(op, old(self).kinds@[x as int], old(self).kinds@[y as int]),
        ensures
            final(self).wf(),
            final(self)@.len() == old(self)@.len() + 1,
            final(self).kinds@ == old(self).kinds@.push(old(self).kinds@[x as int]),
            old(self).kinds@.len() == old(self)@.len(),
            t == old(self)@.len(),
            forall|s: Cpu| (#[trigger] run(old(self)@, s)).env.len() == old(self)@.len(),
            forall|s: Cpu|
                #![trigger run(final(self)@, s)]
                {
                    &&& run(final(self)@, s).cpu == run(old(self)@, s).cpu
                    &&& run(final(self)@, s).env == run(old(self)@, s).env.push(
                        bin_value(
                            op,
                            run(old(self)@, s).env[x as int],
                            run(old(self)@, s).env[y as int],
                        ),
                    )
                },
    {
        proof {
            self.lemma_sizes();
        }
        let kind: Kind = self.kinds[x];
        self.push(Op::Bin(op, x, y), kind)
    }

    /// Appends an operation with a constant.
    pub fn imm(&mut self, op: ImmOp, x: usize, k: u32) -> (t: usize)
        requires
            old(self).wf(),
            is_word(old(self).kinds@, x),
            (op == ImmOp::Shl || op == ImmOp::Ushr || op == ImmOp::Sshr) ==> k < 32,
        ensures
            final(self).wf(),
            final(self)@.len() == old(self)@.len() + 1,
            final(self).kinds@ == old(self).kinds@.push(Kind::Word),
            old(self).kinds@.len() == old(self)@.len(),
            t == old(self)@.len(),
            forall|s: Cpu| (#[trigger] run(old(self)@, s)).env.len() == old(self)@.len(),
            forall|s: Cpu|
                #![trigger run(final(self)@, s)]
                {
                    &&& run(final(self)@, s).cpu == run(old(self)@, s).cpu
                    &&& run(final(self)@, s).env == run(old(self)@, s).env.push(
                        imm_value(op, run(old(self)@, s).env[x as int], k),
                    )
                },
    {
        self.push(Op::Imm(op, x, k), Kind::Word)
    }

    /// Appends a complement.
    pub fn not(&mut self, x: usize) -> (t: usize)
        requires
            old(self).wf(),
            is_word(old(self).kinds@, x),
        ensures
            final(self).wf(),
            final(self)@.len() == old(self)@.len() + 1,
            final(self).kinds@ == old(self).kinds@.push(Kind::Word),
            old(self).kinds@.len() == old(self)@.len(),
            t == old(self)@.len(),
            forall|s: Cpu| (#[trigger] run(old(self)@, s)).env.len() == old(self)@.len(),
            forall|s: Cpu|
                #![trigger run(final(self)@, s)]
                {
                    &&& run(final(self)@, s).cpu == run(old(self)@, s).cpu
                    &&& run(final(self)@, s).env == run(old(self)@, s).env.push(
                        !run(old(self)@, s).env[x as int],
                    )
                },
    {
        self.push(Op::Not(x), Kind::Word)
    }

    /// Appends a comparison.
    pub fn test(&mut self, cc: Cc, x: usize, y: usize) -> (t: usize)
        requires
            old(self).wf(),
            is_word(old(self).kinds@, x),
            is_word(old(self).kinds@, y),
        ensures
            final(self).wf(),
            final(self)@.len() == old(self)@.len() + 1,
            final(self).kinds@ == old(self).kinds@.push(Kind::Truth),
            old(self).kinds@.len() == old(self)@.len(),
            t == old(self)@.len(),
            forall|s: Cpu| (#[trigger] run(old(self)@, s)).env.len() == old(self)@.len(),
            forall|s: Cpu|
                #![trigger run(final(self)@, s)]
                {
                    &&& run(final(self)@, s).cpu == run(old(self)@, s).cpu
                    &&& run(final(self)@, s).env == run(old(self)@, s).env.push(
                        truth(
                            holds(
                                cc,
                                run(old(self)@, s).env[x as int],
                                run(old(self)@, s).env[y as int],
                            ),
                        ),
                    )
                },
    {
        self.push(Op::Test(cc, x, y), Kind::Truth)
    }

    /// Appends the widening of a truth value.
    pub fn widen(&mut self, x: usize) -> (t: usize)
        requires
            old(self).wf(),
            is_kind(old(self).kinds@, x, Kind::Truth),
        ensures
            final(self).wf(),
            final(self)@.len() == old(self)@.len() + 1,
            final(self).kinds@ == old(self).kinds@.push(Kind::Word),
            old(self).kinds@.len() == old(self)@.len(),
            t == old(self)@.len(),
            forall|s: Cpu| (#[trigger] run(old(self)@, s)).env.len() == old(self)@.len(),
            forall|s: Cpu|
                #![trigger run(final(self)@, s)]
                {
                    &&& run(final(self)@, s).cpu == run(old(self)@, s).cpu
                    &&& run(final(self)@, s).env == run(old(self)@, s).env.push(
                        run(old(self)@, s).env[x as int],
                    )
                },
    {
        self.push(Op::Widen(x), Kind::Word)
    }

    /// Appends a register write.
    pub fn set_gpr(&mut self, r: usize, x: usize) -> (t: usize)
        requires
            old(self).wf(),
            r < 15,
            is_word(old(self).kinds@, x),
        ensures
            final(self).wf(),
            final(self)@.len() == old(self)@.len() + 1,
            final(self).kinds@ == old(self).kinds@.push(Kind::Nothing),
            old(self).kinds@.len() == old(self)@.len(),
            t == old(self)@.len(),
            forall|s: Cpu| (#[trigger] run(old(self)@, s)).env.len() == old(self)@.len(),
            forall|s: Cpu|
                #![trigger run(final(self)@, s)]
                {
                    &&& run(final(self)@, s).cpu == run(old(self)@, s).cpu.set(
                        r,
                        run(old(self)@, s).env[x as int],
                    )
                    &&& run(final(self)@, s).env == run(old(self)@, s).env.push(0)
                },
    {
        self.push(Op::SetGpr(r, x), Kind::Nothing)
    }

    /// Appends a write of the status word.
    pub fn set_cpsr(&mut self, x: usize) -> (t: usize)
        requires
            old(self).wf(),
            is_word(old(self).kinds@, x),
        ensures
            final(self).wf(),
            final(self)@.len() == old(self)@.len() + 1,
            final(self).kinds@ == old(self).kinds@.push(Kind::Nothing),
            old(self).kinds@.len() == old(self)@.len(),
            t == old(self)@.len(),
            forall|s: Cpu| (#[trigger] run(old(self)@, s)).env.len() == old(self)@.len(),
            forall|s: Cpu|
                #![trigger run(final(self)@, s)]
                {
                    &&& run(final(self)@, s).cpu == run(old(self)@, s).cpu.flagged(
                        run(old(self)@, s).env[x as int],
                    )
                    &&& run(final(self)@, s).env == run(old(self)@, s).env.push(0)
                },
    {
        self.push(Op::SetCpsr(x), Kind::Nothing)
    }

    /// Appends a write of the branch target.
    pub fn set_pc(&mut self, x: usize) -> (t: usize)
        requires
            old(self).wf(),
            is_word(old(self).kinds@, x),
        ensures
            final(self).wf(),
            final(self)@.len() == old(self)@.len() + 1,
            final(self).kinds@ == old(self).kinds@.push(Kind::Nothing),
            old(self).kinds@.len() == old(self)@.len(),
            t == old(self)@.len(),
            forall|s: Cpu| (#[trigger] run(old(self)@, s)).env.len() == old(self)@.len(),
            forall|s: Cpu|
                #![trigger run(final(self)@, s)]
                {
                    &&& run(final(self)@, s).cpu == (
                        Cpu { pc_out: run(old(self)@, s).env[x as int], ..run(old(self)@, s).cpu }
                    )
                    &&& run(final(self)@, s).env == run(old(self)@, s).env.push(0)
                },
    {
        self.push(Op::SetPc(x), Kind::Nothing)
    }

    /// Appends a write of the block result.
    pub fn set_took(&mut self, x: usize) -> (t: usize)
        requires
            old(self).wf(),
            is_word(old(self).kinds@, x),
        ensures
            final(self).wf(),
            final(self)@.len() == old(self)@.len() + 1,
            final(self).kinds@ == old(self).kinds@.push(Kind::Nothing),
            old(self).kinds@.len() == old(self)@.len(),
            t == old(self)@.len(),
            forall|s: Cpu| (#[trigger] run(old(self)@, s)).env.len() == old(self)@.len(),
            forall|s: Cpu|
                #![trigger run(final(self)@, s)]
                {
                    &&& run(final(self)@, s).cpu == (
                        Cpu { took: run(old(self)@, s).env[x as int], ..run(old(self)@, s).cpu }
                    )
                    &&& run(final(self)@, s).env == run(old(self)@, s).env.push(0)
                },
    {
        self.push(Op::SetTook(x), Kind::Nothing)
    }

    /// Appends a call without arguments.
    pub fn call0(&mut self, f: Callee) -> (t: usize)
        requires
            old(self).wf(),
            f.takes() == 0,
        ensures
            final(self).wf(),
            final(self)@.len() == old(self)@.len() + 1,
            final(self).kinds@ == old(self).kinds@.push(
                (if f.answers() { Kind::Word } else { Kind::Nothing }),
            ),
            old(self).kinds@.len() == old(self)@.len(),
            t == old(self)@.len(),
            forall|s: Cpu| (#[trigger] run(old(self)@, s)).env.len() == old(self)@.len(),
            forall|s: Cpu|
                #![trigger run(final(self)@, s)]
                {
                    &&& run(final(self)@, s).cpu == run(old(self)@, s).cpu.called(f, 0, 0, 0)
                    &&& run(final(self)@, s).env == run(old(self)@, s).env.push(
                        run(final(self)@, s).cpu.given(f),
                    )
                },
    {
        self.push(Op::Call0(f), if f.returns_word() { Kind::Word } else { Kind::Nothing })
    }

    /// Appends a call with one argument.
    pub fn call1(&mut self, f: Callee, x: usize) -> (t: usize)
        requires
            old(self).wf(),
            f.takes() == 1,
            is_word(old(self).kinds@, x),
        ensures
            final(self).wf(),
            final(self)@.len() == old(self)@.len() + 1,
            final(self).kinds@ == old(self).kinds@.push(
                (if f.answers() { Kind::Word } else { Kind::Nothing }),
            ),
            old(self).kinds@.len() == old(self)@.len(),
            t == old(self)@.len(),
            forall|s: Cpu| (#[trigger] run(old(self)@, s)).env.len() == old(self)@.len(),
            forall|s: Cpu|
                #![trigger run(final(self)@, s)]
                {
                    &&& run(final(self)@, s).cpu == run(old(self)@, s).cpu.called(
                        f,
                        run(old(self)@, s).env[x as int],
                        0,
                        0,
                    )
                    &&& run(final(self)@, s).env == run(old(self)@, s).env.push(
                        run(final(self)@, s).cpu.given(f),
                    )
                },
    {
        self.push(Op::Call1(f, x), if f.returns_word() { Kind::Word } else { Kind::Nothing })
    }

    /// Appends a call with two arguments.
    pub fn call2(&mut self, f: Callee, x: usize, y: usize) -> (t: usize)
        requires
            old(self).wf(),
            f.takes() == 2,
            is_word(old(self).kinds@, x),
            is_word(old(self).kinds@, y),
        ensures
            final(self).wf(),
            final(self)@.len() == old(self)@.len() + 1,
            final(self).kinds@ == old(self).kinds@.push(
                (if f.answers() { Kind::Word } else { Kind::Nothing }),
            ),
            old(self).kinds@.len() == old(self)@.len(),
            t == old(self)@.len(),
            forall|s: Cpu| (#[trigger] run(old(self)@, s)).env.len() == old(self)@.len(),
            forall|s: Cpu|
                #![trigger run(final(self)@, s)]
                {
                    &&& run(final(self)@, s).cpu == run(old(self)@, s).cpu.called(
                        f,
                        run(old(self)@, s).env[x as int],
                        run(old(self)@, s).env[y as int],
                        0,
                    )
                    &&& run(final(self)@, s).env == run(old(self)@, s).env.push(
                        run(final(self)@, s).cpu.given(f),
                    )
                },
    {
        self.push(Op::Call2(f, x, y), if f.returns_word() { Kind::Word } else { Kind::Nothing })
    }

    /// Appends a call with three arguments.
    pub fn call3(&mut self, f: Callee, x: usize, y: usize, z: usize) -> (t: usize)
        requires
            old(self).wf(),
            f.takes() == 3,
            is_word(old(self).kinds@, x),
            is_word(old(self).kinds@, y),
            is_word(old(self).kinds@, z),
        ensures
            final(self).wf(),
            final(self)@.len() == old(self)@.len() + 1,
            final(self).kinds@ == old(self).kinds@.push(
                (if f.answers() { Kind::Word } else { Kind::Nothing }),
            ),
            old(self).kinds@.len() == old(self)@.len(),
            t == old(self)@.len(),
            forall|s: Cpu| (#[trigger] run(old(self)@, s)).env.len() == old(self)@.len(),
            forall|s: Cpu|
                #![trigger run(final(self)@, s)]
                {
                    &&& run(final(self)@, s).cpu == run(old(self)@, s).cpu.called(
                        f,
                        run(old(self)@, s).env[x as int],
                        run(old(self)@, s).env[y as int],
                        run(old(self)@, s).env[z as int],
                    )
                    &&& run(final(self)@, s).env == run(old(self)@, s).env.push(
                        run(final(self)@, s).cpu.given(f),
                    )
                },
    {
        self.push(Op::Call3(f, x, y, z), if f.returns_word() { Kind::Word } else { Kind::Nothing })
    }
}

} // verus!
