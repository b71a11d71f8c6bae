//! What the entries of a function builder mean: how the function runs that they build.
//!
//! Only functions without loops are given a meaning: a jump leads to a block that is started
//! further down in the list.

use vstd::prelude::*;
use crate::bits::truth;
use crate::dynarec::clif::{Clif, Site, Ty, fits, lemma_site_push, orderly, proper, site};
use crate::dynarec::ir::{BinOp, BusCall, Callee, bin_value, holds, imm_value};

verus! {

/// A machine value: its type and its bits.
pub ghost struct Bits {
    pub ty: Ty,
    pub n: u64,
}

/// What a function finds around it: where the registers, the status word, the branch target and
/// the context lie, what 64-bit cells hold, which callee each number of the module stands for, and
/// how calls are answered.
pub ghost struct Host {
    pub gpr: u64,
    pub cpsr: u64,
    pub pc_out: u64,
    pub ctx: u64,
    pub cells: spec_fn(u64) -> u64,
    pub callees: spec_fn(u32) -> Callee,
    pub bus: spec_fn(Seq<BusCall>) -> u32,
}

/// The memory that a function works on, and the calls that it made.
pub ghost struct Memory {
    pub gpr: Seq<u32>,
    pub cpsr: u32,
    pub pc_out: u32,
    pub calls: Seq<BusCall>,
}

/// A function at work: its values, its variables and its memory.
pub ghost struct Running {
    pub vals: Map<u32, Bits>,
    pub vars: Map<u32, Bits>,
    pub mem: Memory,
}

/// How a function ends.
pub ghost enum End {
    /// With values given back.
    Returned(Seq<Bits>, Memory),
    /// With a call through a pointer, whose result it gives back.
    Chained(Bits, Seq<Bits>, Memory),
    /// This entry read a variable through a value that holds something else.
    Stale(int),
    /// Something was done that has no meaning.
    Lost,
}

/// A place in the memory.
pub ghost enum Cell {
    Gpr(int),
    Cpsr,
    Pc,
}

/// The place at an address.
pub open spec fn cell_at(h: Host, addr: int) -> Option<Cell> {
    if h.gpr <= addr < h.gpr + 60 && (addr - h.gpr) % 4 == 0 {
        Some(Cell::Gpr((addr - h.gpr) / 4))
    } else if addr == h.cpsr {
        Some(Cell::Cpsr)
    } else if addr == h.pc_out {
        Some(Cell::Pc)
    } else {
        None
    }
}

/// Whether registers, status word and branch target lie apart from each other.
pub open spec fn apart(h: Host) -> bool {
    &&& !(h.gpr <= h.cpsr < h.gpr + 60)
    &&& !(h.gpr <= h.pc_out < h.gpr + 60)
    &&& h.cpsr != h.pc_out
}

pub open spec fn peek(mem: Memory, cell: Cell) -> u32 {
    match cell {
        Cell::Gpr(r) => mem.gpr[r],
        Cell::Cpsr => mem.cpsr,
        Cell::Pc => mem.pc_out,
    }
}

pub open spec fn poke(mem: Memory, cell: Cell, v: u32) -> Memory {
    match cell {
        Cell::Gpr(r) => Memory { gpr: mem.gpr.update(r, v), ..mem },
        Cell::Cpsr => Memory { cpsr: v, ..mem },
        Cell::Pc => Memory { pc_out: v, ..mem },
    }
}

/// A 32-bit value.
pub open spec fn bits32(v: u32) -> Bits {
    Bits { ty: Ty::I32, n: v as u64 }
}

/// A pointer.
pub open spec fn bits64(v: u64) -> Bits {
    Bits { ty: Ty::I64, n: v }
}

/// A truth value.
pub open spec fn bits8(v: bool) -> Bits {
    Bits { ty: Ty::I8, n: truth(v) as u64 }
}

/// A two-operand operation on bytes.
pub open spec fn byte_value(op: BinOp, x: u8, y: u8) -> u8 {
    match op {
        BinOp::Add => x.wrapping_add(y),
        BinOp::Sub => x.wrapping_sub(y),
        BinOp::And => x & y,
        BinOp::Or => x | y,
        BinOp::Xor => x ^ y,
    }
}

/// A two-operand operation on words or bytes.
pub open spec fn joined(op: BinOp, x: Bits, y: Bits) -> Bits {
    match x.ty {
        Ty::I8 => Bits { ty: Ty::I8, n: byte_value(op, x.n as u8, y.n as u8) as u64 },
        _ => bits32(bin_value(op, x.n as u32, y.n as u32)),
    }
}

/// A constant cut to its type.
pub open spec fn cut(ty: Ty, k: u64) -> Bits {
    Bits {
        ty,
        n: match ty {
            Ty::I8 => k % 0x100,
            Ty::I32 => k % 0x1_0000_0000,
            Ty::I64 => k,
        },
    }
}

/// Whether entry `i` imports a function of the module.
pub open spec fn imports_at(log: Seq<Clif>, i: int, id: u32, f: u32) -> bool {
    0 <= i < log.len() && log[i] is Import && log[i]->Import_0 == id && log[i]->Import_2 == f
}

/// Whether a function of the module is imported.
pub open spec fn imported_as(log: Seq<Clif>, id: u32, f: u32) -> bool {
    exists|i: int| imports_at(log, i, id, f)
}

/// The number by which the module knows an imported function.
pub open spec fn module_number(log: Seq<Clif>, f: u32) -> u32 {
    choose|id: u32| imported_as(log, id, f)
}

/// The callee that an imported function stands for.
pub open spec fn callee_of(log: Seq<Clif>, h: Host, f: u32) -> Callee {
    (h.callees)(module_number(log, f))
}

/// Whether entry `i` starts a block.
pub open spec fn starts_at(log: Seq<Clif>, i: int, block: u32) -> bool {
    0 <= i < log.len() && log[i] == Clif::Switch(block)
}

/// The entry that starts a block.
pub open spec fn start_of(log: Seq<Clif>, block: u32) -> int {
    choose|i: int| starts_at(log, i, block)
}

impl Running {
    pub open spec fn has(self, v: u32, ty: Ty) -> bool {
        self.vals.contains_key(v) && self.vals[v].ty == ty
    }

    pub open spec fn has_all(self, vs: Seq<u32>) -> bool {
        forall|i: int| 0 <= i < vs.len() ==> self.vals.contains_key(#[trigger] vs[i])
    }

    pub open spec fn word(self, v: u32) -> u32 {
        self.vals[v].n as u32
    }

    pub open spec fn with(self, r: u32, v: Bits) -> Running {
        Running { vals: self.vals.insert(r, v), ..self }
    }

    /// The address that a pointer and an offset make.
    pub open spec fn address(self, ptr: u32, offset: u32) -> int {
        self.vals[ptr].n + offset
    }

    /// Argument `i` of a call, or zero without one.
    pub open spec fn argument(self, args: Seq<u32>, i: int) -> u32 {
        if i < args.len() {
            self.word(args[i])
        } else {
            0
        }
    }

    /// Whether the arguments of a call are the context and as many words as a callee takes.
    pub open spec fn passes(self, h: Host, f: Callee, args: Seq<u32>) -> bool {
        &&& args.len() == 1 + f.takes()
        &&& self.has(args[0], Ty::I64) && self.vals[args[0]].n == h.ctx
        &&& forall|i: int| 1 <= i < args.len() ==> self.has(#[trigger] args[i], Ty::I32)
    }

    /// Whether an entry has a meaning here.
    pub open spec fn can(self, log: Seq<Clif>, h: Host, e: Clif) -> bool {
        match e {
            Clif::Def(_, v) => self.vals.contains_key(v),
            Clif::Use(var, _) => self.vars.contains_key(var),
            Clif::Load(Ty::I32, ptr, k, _) => self.has(ptr, Ty::I64) && cell_at(
                h,
                self.address(ptr, k),
            ) is Some,
            Clif::Load(ty, ptr, k, _) => ty == Ty::I64 && self.has(ptr, Ty::I64) && k == 0,
            Clif::Store(v, ptr, k) => self.has(v, Ty::I32) && self.has(ptr, Ty::I64) && cell_at(
                h,
                self.address(ptr, k),
            ) is Some,
            Clif::Bin(_, x, y, _) => (self.has(x, Ty::I32) && self.has(y, Ty::I32)) || (self.has(
                x,
                Ty::I8,
            ) && self.has(y, Ty::I8)),
            Clif::Imm(_, x, _, _) => self.has(x, Ty::I32),
            Clif::Not(x, _) => self.has(x, Ty::I32),
            Clif::Test(_, x, y, _) => self.has(x, Ty::I32) && self.has(y, Ty::I32),
            Clif::NonZero(x, _) => self.vals.contains_key(x),
            Clif::Widen(x, _) => self.has(x, Ty::I8),
            Clif::Call(f, args, r) => {
                &&& self.passes(h, callee_of(log, h, f), args)
                &&& r is Some == callee_of(log, h, f).answers()
            },
            _ => true,
        }
    }

    /// What an entry does that does not lead elsewhere.
    pub open spec fn did(self, log: Seq<Clif>, h: Host, e: Clif) -> Running {
        match e {
            Clif::Def(var, v) => Running { vars: self.vars.insert(var, self.vals[v]), ..self },
            Clif::Use(var, r) => self.with(r, self.vars[var]),
            Clif::Const(ty, k, r) => self.with(r, cut(ty, k)),
            Clif::Load(Ty::I32, ptr, k, r) => self.with(
                r,
                bits32(peek(self.mem, cell_at(h, self.address(ptr, k))->0)),
            ),
            Clif::Load(_, ptr, _, r) => self.with(r, bits64((h.cells)(self.vals[ptr].n))),
            Clif::Store(v, ptr, k) => Running {
                mem: poke(self.mem, cell_at(h, self.address(ptr, k))->0, self.word(v)),
                ..self
            },
            Clif::Bin(op, x, y, r) => self.with(r, joined(op, self.vals[x], self.vals[y])),
            Clif::Imm(op, x, k, r) => self.with(r, bits32(imm_value(op, self.word(x), k))),
            Clif::Not(x, r) => self.with(r, bits32(!self.word(x))),
            Clif::Test(cc, x, y, r) => self.with(r, bits8(holds(cc, self.word(x), self.word(y)))),
            Clif::NonZero(x, r) => self.with(r, bits8(self.vals[x].n != 0)),
            Clif::Widen(x, r) => self.with(r, bits32(self.word(x))),
            Clif::Call(f, args, r) => {
                let calls = self.mem.calls.push(
                    BusCall {
                        to: callee_of(log, h, f),
                        a: self.argument(args, 1),
                        b: self.argument(args, 2),
                        c: self.argument(args, 3),
                    },
                );
                let after = Running { mem: Memory { calls, ..self.mem }, ..self };
                match r {
                    Some(v) => after.with(v, bits32((h.bus)(calls))),
                    None => after,
                }
            },
            _ => self,
        }
    }
}

/// How a function ends that stands before entry `i`.
#[verifier::opaque]
pub open spec fn run_from(log: Seq<Clif>, h: Host, i: int, m: Running) -> End
    decreases log.len() - i,
{
    if !(0 <= i < log.len()) {
        End::Lost
    } else {
        match log[i] {
            Clif::Return(vs) => if m.has_all(vs) {
                End::Returned(vs.map_values(|v: u32| m.vals[v]), m.mem)
            } else {
                End::Lost
            },
            Clif::CallIndirect(_, ptr, args, _) => if m.vals.contains_key(ptr) && m.has_all(args) {
                End::Chained(m.vals[ptr], args.map_values(|v: u32| m.vals[v]), m.mem)
            } else {
                End::Lost
            },
            Clif::Jump(block) => if i < start_of(log, block) < log.len() {
                run_from(log, h, start_of(log, block), m)
            } else {
                End::Lost
            },
            Clif::Brif(v, yes, no) => {
                let t = if m.vals[v].n != 0 {
                    start_of(log, yes)
                } else {
                    start_of(log, no)
                };
                if m.vals.contains_key(v) && i < t < log.len() {
                    run_from(log, h, t, m)
                } else {
                    End::Lost
                }
            },
            e => if !m.can(log, h, e) {
                End::Lost
            } else if e is Use && m.vals.contains_key(e->Use_1) && m.vals[e->Use_1]
                != m.vars[e->Use_0] {
                End::Stale(i)
            } else {
                run_from(log, h, i + 1, m.did(log, h, e))
            },
        }
    }
}

/// Whether a function starts before entry `i`: its first block starts there, its parameters are all
/// that holds values, and what is built from there on is orderly.
pub open spec fn enters(log: Seq<Clif>, i: int, m: Running) -> bool {
    &&& 0 <= i < log.len()
    &&& log[i] is Switch
    &&& site(log.take(i)).at is None
    &&& orderly(log, i as nat)
    &&& m.vars == Map::<u32, Bits>::empty()
    &&& forall|v: u32| #[trigger] m.vals.contains_key(v) ==> site(log.take(i)).has(v)
}

/// Whether reading a variable after a list gives a value that holds it: no run of a function that is
/// built so finds anything else in the value.
#[verifier::opaque]
pub open spec fn reads_right(log: Seq<Clif>, var: u32, r: u32) -> bool {
    forall|whole: Seq<Clif>, h: Host, i: int, m: Running|
        begins(whole, log.push(Clif::Use(var, r))) && enters(whole, i, m)
            ==> #[trigger] run_from(whole, h, i, m) != End::Stale(log.len() as int)
}

/// The value that a variable was last set to in the block at the end of a list.
pub open spec fn set_here(log: Seq<Clif>, var: u32) -> Option<u32>
    decreases log.len(),
{
    if log.len() == 0 {
        None
    } else {
        match log.last() {
            Clif::Switch(_) => None,
            Clif::Def(x, v) => if x == var {
                Some(v)
            } else {
                set_here(log.drop_last(), var)
            },
            _ => set_here(log.drop_last(), var),
        }
    }
}

/// A run goes stale at an entry that reads a variable.
proof fn lemma_stale_at(log: Seq<Clif>, h: Host, i: int, m: Running)
    requires
        run_from(log, h, i, m) is Stale,
    ensures
        ({
            let p = run_from(log, h, i, m)->Stale_0;
            i <= p < log.len() && log[p] is Use
        }),
    decreases log.len() - i,
{
    reveal(run_from);
    match log[i] {
        Clif::Jump(block) => lemma_stale_at(log, h, start_of(log, block), m),
        Clif::Brif(v, yes, no) => {
            let t = if m.vals[v].n != 0 {
                start_of(log, yes)
            } else {
                start_of(log, no)
            };
            lemma_stale_at(log, h, t, m);
        },
        e => {
            if !(e is Use && m.vals.contains_key(e->Use_1) && m.vals[e->Use_1]
                != m.vars[e->Use_0]) {
                lemma_stale_at(log, h, i + 1, m.did(log, h, e));
            }
        },
    }
}

/// A list that is proper from an entry on is orderly from a later one on.
proof fn lemma_orderly_later(log: Seq<Clif>, n: nat, i: nat)
    requires
        proper(log, n),
        n <= i,
    ensures
        orderly(log, i),
    decreases log.len(),
{
    if log.len() > i {
        lemma_orderly_later(log.drop_last(), n, i);
    }
}

/// A function that was built properly never reads a variable through a value that holds something
/// else.
pub proof fn lemma_never_stale(log: Seq<Clif>, n: nat, h: Host, i: int, m: Running)
    requires
        proper(log, n),
        n <= i < log.len(),
        log[i] is Switch,
        site(log.take(i)).at is None,
        m.vars == Map::<u32, Bits>::empty(),
        forall|v: u32| #[trigger] m.vals.contains_key(v) ==> site(log.take(i)).has(v),
    ensures
        !(run_from(log, h, i, m) is Stale),
{
    if run_from(log, h, i, m) is Stale {
        lemma_stale_at(log, h, i, m);
        let p = run_from(log, h, i, m)->Stale_0;
        lemma_fits_at(log, n, p);
        reveal(reads_right);
        assert(log.take(p + 1) =~= log.take(p).push(log[p]));
        lemma_orderly_later(log, n, i as nat);
        assert(enters(log, i, m));
    }
}

/// Whether a list begins with another one.
pub open spec fn begins(log: Seq<Clif>, head: Seq<Clif>) -> bool {
    head.len() <= log.len() && log.take(head.len() as int) == head
}

/// Where one more entry of the beginning stands.
pub broadcast proof fn lemma_begins(log: Seq<Clif>, head: Seq<Clif>, e: Clif)
    requires
        #[trigger] begins(log, head.push(e)),
    ensures
        begins(log, head),
        log[head.len() as int] == e,
{
    assert(log.take(head.len() as int) =~= head.push(e).take(head.len() as int));
    assert(head.push(e).take(head.len() as int) =~= head);
    assert(log.take(head.push(e).len() as int)[head.len() as int] == e);
}

/// What a site knows stays known.
pub proof fn lemma_site_grows(log: Seq<Clif>, i: int, j: int)
    requires
        0 <= i <= j <= log.len(),
    ensures
        forall|v: u32| site(log.take(i)).has(v) ==> #[trigger] site(log.take(j)).has(v),
        forall|f: u32|
            site(log.take(i)).funcs.contains_key(f) ==> #[trigger] site(
                log.take(j),
            ).funcs.contains_key(f),
        forall|b: u32|
            site(log.take(i)).filled.contains(b) ==> #[trigger] site(log.take(j)).filled.contains(
                b,
            ),
    decreases j - i,
{
    if i < j {
        lemma_site_grows(log, i, j - 1);
        assert(log.take(j) =~= log.take(j - 1).push(log[j - 1]));
        lemma_site_push(log.take(j - 1), log[j - 1]);
        match log[j - 1] {
            Clif::Params(_, ps) => {
                lemma_params_grow(site(log.take(j - 1)), ps, ps.len());
            },
            _ => {},
        }
        assert forall|v: u32| site(log.take(i)).has(v) implies #[trigger] site(
            log.take(j),
        ).has(v) by {
            assert(site(log.take(j - 1)).has(v));
        }
    }
}

pub proof fn lemma_params_grow(s: Site, ps: Seq<(u32, bool)>, n: nat)
    requires
        n <= ps.len(),
    ensures
        forall|v: u32| s.has(v) ==> #[trigger] s.with_params(ps, n).has(v),
        s.with_params(ps, n) == (Site { values: s.with_params(ps, n).values, ..s }),
    decreases n,
{
    if n > 0 {
        lemma_params_grow(s, ps, (n - 1) as nat);
        assert forall|v: u32| s.has(v) implies #[trigger] s.with_params(ps, n).has(v) by {
            assert(s.with_params(ps, (n - 1) as nat).has(v));
        }
    }
}

/// Every entry of a proper list fits where it stands.
pub proof fn lemma_fits_at(log: Seq<Clif>, n: nat, i: int)
    requires
        proper(log, n),
        n <= i < log.len(),
    ensures
        fits(log.take(i), log[i]),
    decreases log.len(),
{
    if i == log.len() - 1 {
        assert(log.take(i) =~= log.drop_last());
    } else {
        lemma_fits_at(log.drop_last(), n, i);
        assert(log.drop_last().take(i) =~= log.take(i));
    }
}

/// A function is imported under one number only.
pub proof fn lemma_import(log: Seq<Clif>, n: nat, i: int, id: u32, sig: u32, f: u32)
    requires
        proper(log, n),
        n <= i < log.len(),
        log[i] == Clif::Import(id, sig, f),
    ensures
        module_number(log, f) == id,
{
    assert(imports_at(log, i, id, f));
    assert(imported_as(log, id, f));
    let other = module_number(log, f);
    assert(imported_as(log, other, f));
    let j = choose|j: int| imports_at(log, j, other, f);
    assert(imports_at(log, j, other, f));
    lemma_fits_at(log, n, i);
    if j < i {
        lemma_import_known(log, j);
        lemma_site_grows(log, j + 1, i);
    } else if i < j {
        lemma_fits_at(log, n, j);
        lemma_import_known(log, i);
        lemma_site_grows(log, i + 1, j);
    }
}

proof fn lemma_import_known(log: Seq<Clif>, i: int)
    requires
        0 <= i < log.len(),
        log[i] is Import,
    ensures
        site(log.take(i + 1)).funcs.contains_key(log[i]->Import_2),
{
    assert(log.take(i + 1) =~= log.take(i).push(log[i]));
    lemma_site_push(log.take(i), log[i]);
}

/// Once a block was started, it is the current one or it has ended.
proof fn lemma_started(log: Seq<Clif>, n: nat, i: int, k: int, block: u32)
    requires
        proper(log, n),
        n <= i < k <= log.len(),
        log[i] == Clif::Switch(block),
    ensures
        site(log.take(k)).at == Some(block) || site(log.take(k)).filled.contains(block),
    decreases k,
{
    assert(log.take(k) =~= log.take(k - 1).push(log[k - 1]));
    lemma_site_push(log.take(k - 1), log[k - 1]);
    if k > i + 1 {
        lemma_started(log, n, i, k - 1, block);
        lemma_fits_at(log, n, k - 1);
        lemma_site_grows(log, k - 1, k);
        match log[k - 1] {
            Clif::Params(_, ps) => {
                lemma_params_grow(site(log.take(k - 1)), ps, ps.len());
            },
            _ => {},
        }
    }
}

/// A place without a current block comes before all blocks.
proof fn lemma_no_start(log: Seq<Clif>, n: int, i: int)
    requires
        0 <= i < n <= log.len(),
        site(log.take(n)).at is None,
    ensures
        !(log[i] is Switch),
    decreases n,
{
    assert(log.take(n) =~= log.take(n - 1).push(log[n - 1]));
    lemma_site_push(log.take(n - 1), log[n - 1]);
    match log[n - 1] {
        Clif::Params(_, ps) => {
            lemma_params_grow(site(log.take(n - 1)), ps, ps.len());
        },
        _ => {},
    }
    if i < n - 1 {
        lemma_no_start(log, n - 1, i);
    }
}

/// A block is started at one place only.
pub proof fn lemma_start(log: Seq<Clif>, n: nat, i: int, block: u32)
    requires
        proper(log, n),
        n <= log.len(),
        site(log.take(n as int)).at is None,
        starts_at(log, i, block),
    ensures
        start_of(log, block) == i,
{
    let j = start_of(log, block);
    assert(starts_at(log, j, block));
    if i < n {
        lemma_no_start(log, n as int, i);
    }
    if j < n {
        lemma_no_start(log, n as int, j);
    }
    if i < j {
        lemma_started(log, n, i, j, block);
        lemma_fits_at(log, n, j);
    } else if j < i {
        lemma_started(log, n, j, i, block);
        lemma_fits_at(log, n, i);
    }
}

} // verus!
