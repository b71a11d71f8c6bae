//! A lowered block does what the block does.

use vstd::prelude::*;
use crate::dynarec::block::{
    ABORTED, CompiledBlock, Exit, Node, Outcome, Program, chained, finished, node_ok, node_step,
    run_nodes,
};
use crate::dynarec::clif::{Clif, Ty, carries_on, lemma_site_push, proper, site};
use crate::dynarec::ir::{BinOp, Callee, Code, Cpu, Kind, Mach, Op, bin_value, kind_of, op_ok, run};
use crate::dynarec::lower::{
    Fixed, Names, Whole, all_callees, call_entry, code_entries, entered_block, fit_all, fit_names,
    fit_temps, flushed_cpsr, imported, lemma_entry_prefix, lemma_params, lowered_block,
    lowered_code, lowered_node, lowered_nodes, no_names, op_entry, prologue, takes_params,
    tried_chain,
};
use crate::dynarec::meaning::{
    Bits, Cell, End, Host, Memory, Running, apart, begins, bits32, bits64, bits8, byte_value,
    callee_of, cell_at, lemma_begins, lemma_fits_at, lemma_import, lemma_never_stale,
    lemma_params_grow, lemma_site_grows, lemma_start, run_from, start_of, starts_at,
};

verus! {

/// Whether the fixed parts of a function are what they are meant to be: two different variables,
/// and functions that stand for the callees.
pub open spec fn set_up(log: Seq<Clif>, h: Host, c: Fixed) -> bool {
    &&& apart(h)
    &&& c.cpsr != c.took
    &&& forall|f: Callee| callee_of(log, h, #[trigger] c.func(f)) == f
}

/// The memory of a guest state, with the status word as it is stored.
pub open spec fn memory_of(s: Cpu, stored: u32) -> Memory {
    Memory { gpr: s.gpr, cpsr: stored, pc_out: s.pc_out, calls: s.calls }
}

/// Whether a function at work mirrors a guest state: the status word and the result in variables,
/// the rest in memory, and the parameters in place. `stored` is the status word in memory.
pub open spec fn mirrors(m: Running, c: Fixed, h: Host, s: Cpu, stored: u32) -> bool {
    &&& s.gpr.len() == 15
    &&& s.bus == h.bus
    &&& m.mem == memory_of(s, stored)
    &&& m.vars.contains_pair(c.cpsr, bits32(s.cpsr))
    &&& m.vars.contains_pair(c.took, bits32(s.took))
    &&& m.vals.contains_pair(c.gpr, bits64(h.gpr))
    &&& m.vals.contains_pair(c.cpsr_ptr, bits64(h.cpsr))
    &&& m.vals.contains_pair(c.pc_out, bits64(h.pc_out))
    &&& m.vals.contains_pair(c.cpu_ctx, bits64(h.ctx))
    &&& m.vals.contains_pair(c.arg, bits32(s.arg))
}

/// What a temporary of a kind holds.
pub open spec fn held(k: Kind, v: u32) -> Bits {
    match k {
        Kind::Truth => Bits { ty: Ty::I8, n: v as u64 },
        _ => bits32(v),
    }
}

/// Whether temporaries hold what they are meant to.
pub open spec fn holds_temps(m: Running, env: Seq<u32>, kinds: Seq<Kind>, vals: Seq<u32>) -> bool {
    &&& env.len() == kinds.len()
    &&& env.len() == vals.len()
    &&& forall|j: int|
        0 <= j < env.len() && kinds[j] != Kind::Nothing ==> m.vals.contains_pair(
            #[trigger] env[j],
            held(kinds[j], vals[j]),
        ) && (kinds[j] == Kind::Truth ==> vals[j] <= 1)
}

/// Whether the builder knew all values of a function at work.
pub open spec fn known(log: Seq<Clif>, i: int, m: Running) -> bool {
    forall|v: u32| #[trigger] m.vals.contains_key(v) ==> site(log.take(i)).has(v)
}

/// Whether an entry leads to the next one.
pub open spec fn leads_on(e: Clif) -> bool {
    !(e is Return || e is CallIndirect || e is Jump || e is Brif)
}

/// One entry: it leads to the next one and changes no value.
proof fn lemma_step(log: Seq<Clif>, n: nat, h: Host, i: int, m: Running)
    requires
        proper(log, n),
        n <= i < log.len(),
        leads_on(log[i]),
        m.can(log, h, log[i]),
        known(log, i, m),
        !(run_from(log, h, i, m) is Stale),
    ensures
        run_from(log, h, i, m) == run_from(log, h, i + 1, m.did(log, h, log[i])),
        known(log, i + 1, m.did(log, h, log[i])),
        m.vals.submap_of(m.did(log, h, log[i]).vals),
{
    reveal(run_from);
    let e = log[i];
    let m2 = m.did(log, h, e);
    lemma_fits_at(log, n, i);
    lemma_site_grows(log, i, i + 1);
    assert(log.take(i + 1) =~= log.take(i).push(e));
    lemma_site_push(log.take(i), e);
    assert forall|v: u32| #[trigger] m2.vals.contains_key(v) implies site(log.take(i + 1)).has(
        v,
    ) by {
        if m.vals.contains_key(v) {
            assert(site(log.take(i)).has(v));
        }
    }
}

/// Truth values are joined alike as bytes and as words.
proof fn lemma_truths(op: BinOp, x: u32, y: u32)
    requires
        x <= 1,
        y <= 1,
        op != BinOp::Add,
        op != BinOp::Sub,
    ensures
        byte_value(op, x as u64 as u8, y as u64 as u8) as u64 == bin_value(op, x, y) as u64,
        bin_value(op, x, y) <= 1,
{
    assert(x <= 1 && y <= 1 ==> ((x as u64 as u8) & (y as u64 as u8)) as u64 == (x & y) as u64 && ((
    x as u64 as u8) | (y as u64 as u8)) as u64 == (x | y) as u64 && ((x as u64 as u8) ^ (
    y as u64 as u8)) as u64 == (x ^ y) as u64 && (x & y) <= 1 && (x | y) <= 1 && (x ^ y) <= 1)
        by (bit_vector);
}

/// The place of a register.
proof fn lemma_register(h: Host, r: usize)
    requires
        r < 15,
    ensures
        cell_at(h, h.gpr + (4 * r) as u32) == Some(Cell::Gpr(r as int)),
{
}

/// The words of a call are the temporaries that are passed.
proof fn lemma_passed(m: Running, h: Host, c: Fixed, f: Callee, args: Seq<u32>)
    requires
        args.len() == 1 + f.takes(),
        args[0] == c.cpu_ctx,
        m.vals.contains_pair(c.cpu_ctx, bits64(h.ctx)),
        forall|i: int| 1 <= i < args.len() ==> m.has(#[trigger] args[i], Ty::I32),
    ensures
        m.passes(h, f, args),
{
}

/// The entry of a call makes the call.
proof fn lemma_call(
    log: Seq<Clif>,
    n: nat,
    h: Host,
    c: Fixed,
    i: int,
    f: Callee,
    args: Seq<u32>,
    r: u32,
    m: Running,
    s: Cpu,
    stored: u32,
) -> (m2: Running)
    requires
        proper(log, n),
        n <= i < log.len(),
        set_up(log, h, c),
        log[i] == call_entry(f, args, r, c),
        m.passes(h, f, args),
        mirrors(m, c, h, s, stored),
        known(log, i, m),
        !(run_from(log, h, i, m) is Stale),
    ensures
        run_from(log, h, i, m) == run_from(log, h, i + 1, m2),
        known(log, i + 1, m2),
        m.vals.submap_of(m2.vals),
        ({
            let t = s.called(f, m.argument(args, 1), m.argument(args, 2), m.argument(args, 3));
            &&& mirrors(m2, c, h, t, stored)
            &&& f.answers() ==> m2.vals.contains_pair(r, bits32(t.answer()))
        }),
{
    assert(callee_of(log, h, c.func(f)) == f);
    lemma_step(log, n, h, i, m);
    m.did(log, h, log[i])
}

/// One operation and its entry.
proof fn lemma_op(
    log: Seq<Clif>,
    n: nat,
    h: Host,
    c: Fixed,
    i: int,
    op: Op,
    env: Seq<u32>,
    kinds: Seq<Kind>,
    t: Mach,
    r: u32,
    m: Running,
    stored: u32,
) -> (m2: Running)
    requires
        proper(log, n),
        n <= i,
        set_up(log, h, c),
        op_ok(op, kinds),
        op_entry(op, env, r, c) is Some ==> i < log.len() && log[i] == op_entry(op, env, r, c)->0,
        op is Arg ==> r == c.arg,
        mirrors(m, c, h, t.cpu, stored),
        holds_temps(m, env, kinds, t.env),
        known(log, i, m),
        !(run_from(log, h, i, m) is Stale),
    ensures
        run_from(log, h, i, m) == run_from(
            log,
            h,
            if op is Arg {
                i
            } else {
                i + 1
            },
            m2,
        ),
        mirrors(m2, c, h, t.step(op).cpu, stored),
        holds_temps(m2, env.push(r), kinds.push(kind_of(op, kinds)), t.step(op).env),
        known(
            log,
            if op is Arg {
                i
            } else {
                i + 1
            },
            m2,
        ),
{
    let e = t.env;
    let m2 = match op {
        Op::Arg => m,
        Op::Call0(f) => {
            let args = seq![c.cpu_ctx];
            lemma_passed(m, h, c, f, args);
            lemma_call(log, n, h, c, i, f, args, r, m, t.cpu, stored)
        },
        Op::Call1(f, x) => {
            let args = seq![c.cpu_ctx, env[x as int]];
            assert(m.vals.contains_pair(env[x as int], bits32(e[x as int])));
            lemma_passed(m, h, c, f, args);
            lemma_call(log, n, h, c, i, f, args, r, m, t.cpu, stored)
        },
        Op::Call2(f, x, y) => {
            let args = seq![c.cpu_ctx, env[x as int], env[y as int]];
            assert(m.vals.contains_pair(env[x as int], bits32(e[x as int])));
            assert(m.vals.contains_pair(env[y as int], bits32(e[y as int])));
            lemma_passed(m, h, c, f, args);
            lemma_call(log, n, h, c, i, f, args, r, m, t.cpu, stored)
        },
        Op::Call3(f, x, y, z) => {
            let args = seq![c.cpu_ctx, env[x as int], env[y as int], env[z as int]];
            assert(m.vals.contains_pair(env[x as int], bits32(e[x as int])));
            assert(m.vals.contains_pair(env[y as int], bits32(e[y as int])));
            assert(m.vals.contains_pair(env[z as int], bits32(e[z as int])));
            lemma_passed(m, h, c, f, args);
            lemma_call(log, n, h, c, i, f, args, r, m, t.cpu, stored)
        },
        _ => lemma_plain_op(log, n, h, c, i, op, env, kinds, t, r, m, stored),
    };
    lemma_temps_grow(m, m2, env, kinds, t.env, r, kind_of(op, kinds), t.val(op));
    m2
}

/// Temporaries keep what they hold while values are added.
proof fn lemma_temps_grow(
    m: Running,
    m2: Running,
    env: Seq<u32>,
    kinds: Seq<Kind>,
    vals: Seq<u32>,
    r: u32,
    k: Kind,
    v: u32,
)
    requires
        holds_temps(m, env, kinds, vals),
        m.vals.submap_of(m2.vals),
        k != Kind::Nothing ==> m2.vals.contains_pair(r, held(k, v)),
        k == Kind::Truth ==> v <= 1,
    ensures
        holds_temps(m2, env.push(r), kinds.push(k), vals.push(v)),
{
    assert forall|j: int| 0 <= j < env.push(r).len() && kinds.push(k)[j] != Kind::Nothing implies m2.vals.contains_pair(
        #[trigger] env.push(r)[j],
        held(kinds.push(k)[j], vals.push(v)[j]),
    ) && (kinds.push(k)[j] == Kind::Truth ==> vals.push(v)[j] <= 1) by {
        if j < env.len() {
            assert(m.vals.contains_pair(env[j], held(kinds[j], vals[j])));
            assert(m.vals.dom().contains(env[j]));
            assert(m2.vals.dom().contains(env[j]));
            assert(m2.vals[env[j]] == m.vals[env[j]]);
            assert(kinds.push(k)[j] == kinds[j]);
            assert(vals.push(v)[j] == vals[j]);
            assert(kinds[j] == Kind::Truth ==> vals[j] <= 1);
        } else {
            assert(env.push(r)[j] == r);
            assert(vals.push(v)[j] == v);
            assert(kinds.push(k)[j] == k);
        }
    }
}

/// One operation that makes no call, and its entry.
proof fn lemma_plain_op(
    log: Seq<Clif>,
    n: nat,
    h: Host,
    c: Fixed,
    i: int,
    op: Op,
    env: Seq<u32>,
    kinds: Seq<Kind>,
    t: Mach,
    r: u32,
    m: Running,
    stored: u32,
) -> (m2: Running)
    requires
        !(op is Arg || op is Call0 || op is Call1 || op is Call2 || op is Call3),
        proper(log, n),
        n <= i < log.len(),
        set_up(log, h, c),
        op_ok(op, kinds),
        log[i] == op_entry(op, env, r, c)->0,
        mirrors(m, c, h, t.cpu, stored),
        holds_temps(m, env, kinds, t.env),
        known(log, i, m),
        !(run_from(log, h, i, m) is Stale),
    ensures
        run_from(log, h, i, m) == run_from(log, h, i + 1, m2),
        mirrors(m2, c, h, t.step(op).cpu, stored),
        m.vals.submap_of(m2.vals),
        kind_of(op, kinds) != Kind::Nothing ==> m2.vals.contains_pair(
            r,
            held(kind_of(op, kinds), t.val(op)),
        ),
        kind_of(op, kinds) == Kind::Truth ==> t.val(op) <= 1,
        known(log, i + 1, m2),
{
    let e = t.env;
    match op {
        Op::Gpr(x) => {
            lemma_register(h, x);
        },
        Op::SetGpr(x, y) => {
            lemma_register(h, x);
            assert(m.vals.contains_pair(env[y as int], bits32(e[y as int])));
        },
        Op::SetCpsr(y) | Op::SetPc(y) | Op::SetTook(y) | Op::Not(y) | Op::Imm(_, y, _) => {
            assert(m.vals.contains_pair(env[y as int], bits32(e[y as int])));
        },
        Op::Widen(y) => {
            assert(m.vals.contains_pair(env[y as int], held(Kind::Truth, e[y as int])));
        },
        Op::Test(_, x, y) => {
            assert(m.vals.contains_pair(env[x as int], bits32(e[x as int])));
            assert(m.vals.contains_pair(env[y as int], bits32(e[y as int])));
        },
        Op::Bin(o, x, y) => {
            assert(m.vals.contains_pair(env[x as int], held(kinds[x as int], e[x as int])));
            assert(m.vals.contains_pair(env[y as int], held(kinds[y as int], e[y as int])));
            if kinds[x as int] == Kind::Truth {
                lemma_truths(o, e[x as int], e[y as int]);
            }
        },
        _ => {},
    }
    lemma_step(log, n, h, i, m);
    m.did(log, h, log[i])
}

/// The first operations of a fragment and their entries.
proof fn lemma_ops(
    log: Seq<Clif>,
    n: nat,
    h: Host,
    c: Fixed,
    at: Seq<Clif>,
    code: Code,
    env: Seq<u32>,
    k: nat,
    m: Running,
    s: Cpu,
    stored: u32,
) -> (m2: Running)
    requires
        proper(log, n),
        n <= at.len(),
        set_up(log, h, c),
        code.wf(),
        k <= code@.len(),
        fit_temps(code@, env, c),
        begins(log, code_entries(at, code@, env, c, k)),
        mirrors(m, c, h, s, stored),
        known(log, at.len() as int, m),
        !(run_from(log, h, at.len() as int, m) is Stale),
    ensures
        ({
            let end = code_entries(at, code@, env, c, k);
            let t = run(code@.take(k as int), s);
            &&& at.len() <= end.len()
            &&& run_from(log, h, at.len() as int, m) == run_from(log, h, end.len() as int, m2)
            &&& mirrors(m2, c, h, t.cpu, stored)
            &&& holds_temps(m2, env.take(k as int), code.kinds@.take(k as int), t.env)
            &&& known(log, end.len() as int, m2)
        }),
    decreases k,
{
    code.lemma_sizes();
    if k == 0 {
        assert(code@.take(0) =~= Seq::empty());
        assert(env.take(0) =~= Seq::empty());
        assert(code.kinds@.take(0) =~= Seq::empty());
        m
    } else {
        let j = (k - 1) as nat;
        let op = code@[j as int];
        let r = env[j as int];
        let before = code_entries(at, code@, env, c, j);
        if op_entry(op, env, r, c) is Some {
            lemma_begins(log, before, op_entry(op, env, r, c)->0);
        }
        let m1 = lemma_ops(log, n, h, c, at, code, env, j, m, s, stored);
        code.lemma_op(j as int);
        lemma_entry_prefix(code, env.take(j as int), env, c, j as int);
        let kinds = code.kinds@.take(j as int);
        let t = run(code@.take(j as int), s);
        let m2 = lemma_op(
            log,
            n,
            h,
            c,
            before.len() as int,
            op,
            env.take(j as int),
            kinds,
            t,
            r,
            m1,
            stored,
        );
        assert(code@.take(k as int).drop_last() =~= code@.take(j as int));
        assert(env.take(k as int) =~= env.take(j as int).push(r));
        assert(code.kinds@.take(k as int) =~= kinds.push(kind_of(op, kinds)));
        m2
    }
}

/// A fragment and its entries.
proof fn lemma_code(
    log: Seq<Clif>,
    n: nat,
    h: Host,
    c: Fixed,
    at: Seq<Clif>,
    code: Code,
    env: Seq<u32>,
    m: Running,
    s: Cpu,
    stored: u32,
) -> (m2: Running)
    requires
        proper(log, n),
        n <= at.len(),
        set_up(log, h, c),
        code.wf(),
        fit_temps(code@, env, c),
        begins(log, lowered_code(at, code@, env, c)),
        mirrors(m, c, h, s, stored),
        known(log, at.len() as int, m),
        !(run_from(log, h, at.len() as int, m) is Stale),
    ensures
        ({
            let end = lowered_code(at, code@, env, c);
            &&& at.len() <= end.len()
            &&& run_from(log, h, at.len() as int, m) == run_from(log, h, end.len() as int, m2)
            &&& mirrors(m2, c, h, run(code@, s).cpu, stored)
            &&& holds_temps(m2, env, code.kinds@, run(code@, s).env)
            &&& known(log, end.len() as int, m2)
        }),
{
    code.lemma_sizes();
    let m2 = lemma_ops(log, n, h, c, at, code, env, code@.len(), m, s, stored);
    assert(code@.take(code@.len() as int) =~= code@);
    assert(env.take(code@.len() as int) =~= env);
    assert(code.kinds@.take(code@.len() as int) =~= code.kinds@);
    m2
}

/// A list that begins with a lowered fragment begins with what comes before it.
proof fn lemma_code_begins(
    log: Seq<Clif>,
    at: Seq<Clif>,
    ops: Seq<Op>,
    env: Seq<u32>,
    c: Fixed,
    k: nat,
)
    requires
        begins(log, code_entries(at, ops, env, c, k)),
    ensures
        begins(log, at),
        at.len() <= code_entries(at, ops, env, c, k).len(),
    decreases k,
{
    if k > 0 {
        let before = code_entries(at, ops, env, c, (k - 1) as nat);
        match op_entry(ops[k - 1], env, env[k - 1], c) {
            Some(e) => lemma_begins(log, before, e),
            None => {},
        }
        lemma_code_begins(log, at, ops, env, c, (k - 1) as nat);
    }
}

/// Whether a list is the whole of a function whose entries fit from the `n`-th on, where its first
/// block starts no earlier.
pub open spec fn ready(log: Seq<Clif>, n: nat, h: Host, c: Fixed) -> bool {
    &&& proper(log, n)
    &&& n <= log.len()
    &&& site(log.take(n as int)).at is None
    &&& set_up(log, h, c)
}

/// An entry that does nothing at run time.
proof fn lemma_skip(log: Seq<Clif>, n: nat, h: Host, i: int, m: Running)
    requires
        proper(log, n),
        n <= i < log.len(),
        log[i] is NewBlock || log[i] is Switch || log[i] is Seal || log[i] is NewVar,
        known(log, i, m),
        !(run_from(log, h, i, m) is Stale),
    ensures
        run_from(log, h, i, m) == run_from(log, h, i + 1, m),
        known(log, i + 1, m),
{
    lemma_step(log, n, h, i, m);
}

/// The start of a block.
proof fn lemma_enter(log: Seq<Clif>, n: nat, h: Host, at: Seq<Clif>, block: u32, m: Running)
    requires
        proper(log, n),
        n <= at.len(),
        begins(log, entered_block(at, block)),
        known(log, at.len() as int, m),
        !(run_from(log, h, at.len() as int, m) is Stale),
    ensures
        run_from(log, h, at.len() as int, m) == run_from(log, h, at.len() as int + 2, m),
        known(log, at.len() as int + 2, m),
        begins(log, at),
        starts_at(log, at.len() as int, block),
        entered_block(at, block).len() == at.len() as int + 2,
{
    lemma_begins(log, at.push(Clif::Switch(block)), Clif::Seal(block));
    lemma_begins(log, at, Clif::Switch(block));
    lemma_skip(log, n, h, at.len() as int, m);
    lemma_skip(log, n, h, at.len() as int + 1, m);
}

/// A jump leads to the start of its block.
proof fn lemma_jump(
    log: Seq<Clif>,
    n: nat,
    h: Host,
    c: Fixed,
    i: int,
    block: u32,
    t: int,
    m: Running,
)
    requires
        ready(log, n, h, c),
        0 <= i < t,
        i < log.len(),
        log[i] == Clif::Jump(block),
        starts_at(log, t, block),
        known(log, i, m),
    ensures
        run_from(log, h, i, m) == run_from(log, h, t, m),
        known(log, t, m),
{
    reveal(run_from);
    lemma_start(log, n, t, block);
    lemma_site_grows(log, i, t);
}

/// A branch leads to the start of one of its blocks.
proof fn lemma_brif(
    log: Seq<Clif>,
    n: nat,
    h: Host,
    c: Fixed,
    i: int,
    v: u32,
    yes: u32,
    no: u32,
    t: int,
    m: Running,
)
    requires
        ready(log, n, h, c),
        0 <= i < t,
        i < log.len(),
        log[i] == Clif::Brif(v, yes, no),
        m.vals.contains_key(v),
        starts_at(
            log,
            t,
            if m.vals[v].n != 0 {
                yes
            } else {
                no
            },
        ),
        known(log, i, m),
    ensures
        run_from(log, h, i, m) == run_from(log, h, t, m),
        known(log, t, m),
{
    reveal(run_from);
    lemma_start(
        log,
        n,
        t,
        if m.vals[v].n != 0 {
            yes
        } else {
            no
        },
    );
    lemma_site_grows(log, i, t);
}

/// The status word in memory after it was written back.
pub open spec fn written(c: Fixed, s: Cpu, stored: u32) -> u32 {
    if c.touches_cpsr {
        s.cpsr
    } else {
        stored
    }
}

/// The write-back of the status word.
proof fn lemma_flush(
    log: Seq<Clif>,
    n: nat,
    h: Host,
    c: Fixed,
    at: Seq<Clif>,
    v: u32,
    m: Running,
    s: Cpu,
    stored: u32,
) -> (m2: Running)
    requires
        proper(log, n),
        n <= at.len(),
        set_up(log, h, c),
        begins(log, flushed_cpsr(at, v, c)),
        mirrors(m, c, h, s, stored),
        known(log, at.len() as int, m),
        !(run_from(log, h, at.len() as int, m) is Stale),
    ensures
        begins(log, at),
        at.len() <= flushed_cpsr(at, v, c).len(),
        run_from(log, h, at.len() as int, m) == run_from(
            log,
            h,
            flushed_cpsr(at, v, c).len() as int,
            m2,
        ),
        mirrors(m2, c, h, s, written(c, s, stored)),
        known(log, flushed_cpsr(at, v, c).len() as int, m2),
        m.vals.submap_of(m2.vals),
{
    if c.touches_cpsr {
        lemma_begins(log, at.push(Clif::Use(c.cpsr, v)), Clif::Store(v, c.cpsr_ptr, 0));
        lemma_begins(log, at, Clif::Use(c.cpsr, v));
        lemma_step(log, n, h, at.len() as int, m);
        let m1 = m.did(log, h, Clif::Use(c.cpsr, v));
        lemma_mirrors_grow(m, m1, c, h, s, stored);
        assert(m1.vals.contains_pair(v, bits32(s.cpsr)));
        assert(cell_at(h, m1.address(c.cpsr_ptr, 0)) == Some(Cell::Cpsr));
        lemma_step(log, n, h, at.len() as int + 1, m1);
        m1.did(log, h, Clif::Store(v, c.cpsr_ptr, 0))
    } else {
        m
    }
}

/// How a function ends whose block ended in a guest state.
pub open spec fn end_of(exit: Exit, s: Cpu, c: Fixed, h: Host, stored: u32) -> End {
    let mem = memory_of(s, written(c, s, stored));
    match exit {
        Exit::Return(v) => End::Returned(seq![bits32(v)], mem),
        Exit::Chain(k) => End::Chained(
            bits64((h.cells)(k)),
            seq![bits64(h.gpr), bits64(h.cpsr), bits64(h.pc_out), bits64(h.ctx), bits32(s.arg)],
            mem,
        ),
    }
}

/// The check for control to return to the dispatcher.
proof fn lemma_abort_check(
    log: Seq<Clif>,
    n: nat,
    h: Host,
    c: Fixed,
    at: Seq<Clif>,
    r0: u32,
    r1: u32,
    m: Running,
    s: Cpu,
    stored: u32,
) -> (m2: Running)
    requires
        proper(log, n),
        n <= at.len(),
        set_up(log, h, c),
        begins(
            log,
            at.push(call_entry(Callee::ChainAbortCheck, seq![c.cpu_ctx], r0, c)).push(
                Clif::NonZero(r0, r1),
            ),
        ),
        mirrors(m, c, h, s, stored),
        known(log, at.len() as int, m),
        !(run_from(log, h, at.len() as int, m) is Stale),
    ensures
        begins(log, at),
        run_from(log, h, at.len() as int, m) == run_from(log, h, at.len() as int + 2, m2),
        known(log, at.len() as int + 2, m2),
        m.vals.submap_of(m2.vals),
        ({
            let t = s.called(Callee::ChainAbortCheck, 0, 0, 0);
            &&& mirrors(m2, c, h, t, stored)
            &&& m2.vals.contains_pair(r1, bits8(t.answer() != 0))
        }),
{
    let f = Callee::ChainAbortCheck;
    let args = seq![c.cpu_ctx];
    let e0 = call_entry(f, args, r0, c);
    let e1 = Clif::NonZero(r0, r1);
    lemma_begins(log, at.push(e0), e1);
    lemma_begins(log, at, e0);
    lemma_passed(m, h, c, f, args);
    let m1 = lemma_call(log, n, h, c, at.len() as int, f, args, r0, m, s, stored);
    lemma_step(log, n, h, at.len() as int + 1, m1);
    let m2 = m1.did(log, h, e1);
    assert(m.vals.submap_of(m2.vals)) by {
        assert forall|v: u32| #[trigger] m.vals.dom().contains(v) implies m2.vals.dom().contains(v)
            && m.vals[v] == m2.vals[v] by {
            assert(m1.vals.dom().contains(v));
        }
    }
    m2
}

/// A guest state is still mirrored after values were added.
proof fn lemma_mirrors_grow(m: Running, m2: Running, c: Fixed, h: Host, s: Cpu, stored: u32)
    requires
        mirrors(m, c, h, s, stored),
        m.vals.submap_of(m2.vals),
        m2.vars == m.vars,
        m2.mem == m.mem,
    ensures
        mirrors(m2, c, h, s, stored),
{
    assert(m.vals.dom().contains(c.gpr));
    assert(m.vals.dom().contains(c.cpsr_ptr));
    assert(m.vals.dom().contains(c.pc_out));
    assert(m.vals.dom().contains(c.cpu_ctx));
    assert(m.vals.dom().contains(c.arg));
}

/// The entries that look into a slot: whether it is linked decides where control goes.
pub open spec fn looked(
    at: Seq<Clif>,
    slot: u64,
    merge: u32,
    v: Seq<u32>,
    b: Seq<u32>,
) -> Seq<Clif> {
    at.push(Clif::Const(Ty::I64, slot, v[0])).push(Clif::Load(Ty::I64, v[0], 0, v[1])).push(
        Clif::NewBlock(b[0]),
    ).push(Clif::NewBlock(b[1])).push(Clif::NonZero(v[1], v[2])).push(
        Clif::Brif(v[2], b[0], merge),
    )
}

/// The look into a slot.
proof fn lemma_look(
    log: Seq<Clif>,
    n: nat,
    h: Host,
    c: Fixed,
    at: Seq<Clif>,
    slot: u64,
    merge: u32,
    v: Seq<u32>,
    b: Seq<u32>,
    t: int,
    m: Running,
    s: Cpu,
    stored: u32,
) -> (m2: Running)
    requires
        ready(log, n, h, c),
        n <= at.len(),
        begins(log, looked(at, slot, merge, v, b)),
        looked(at, slot, merge, v, b).len() <= t,
        starts_at(
            log,
            t,
            if (h.cells)(slot) != 0 {
                b[0]
            } else {
                merge
            },
        ),
        mirrors(m, c, h, s, stored),
        known(log, at.len() as int, m),
        !(run_from(log, h, at.len() as int, m) is Stale),
    ensures
        begins(log, at),
        looked(at, slot, merge, v, b).len() == at.len() + 6,
        run_from(log, h, at.len() as int, m) == run_from(log, h, t, m2),
        mirrors(m2, c, h, s, stored),
        m2.vals.contains_pair(v[1], bits64((h.cells)(slot))),
        known(log, t, m2),
{
    let a1 = at.push(Clif::Const(Ty::I64, slot, v[0]));
    let a2 = a1.push(Clif::Load(Ty::I64, v[0], 0, v[1]));
    let a3 = a2.push(Clif::NewBlock(b[0]));
    let a4 = a3.push(Clif::NewBlock(b[1]));
    let a5 = a4.push(Clif::NonZero(v[1], v[2]));
    lemma_begins(log, a5, Clif::Brif(v[2], b[0], merge));
    lemma_begins(log, a4, Clif::NonZero(v[1], v[2]));
    lemma_begins(log, a3, Clif::NewBlock(b[1]));
    lemma_begins(log, a2, Clif::NewBlock(b[0]));
    lemma_begins(log, a1, Clif::Load(Ty::I64, v[0], 0, v[1]));
    lemma_begins(log, at, Clif::Const(Ty::I64, slot, v[0]));
    let i = at.len() as int;
    lemma_step(log, n, h, i, m);
    let m1 = m.did(log, h, log[i]);
    lemma_mirrors_grow(m, m1, c, h, s, stored);
    lemma_step(log, n, h, i + 1, m1);
    let m2 = m1.did(log, h, log[i + 1]);
    lemma_mirrors_grow(m1, m2, c, h, s, stored);
    assert(m2.vals.contains_pair(v[1], bits64((h.cells)(slot))));
    lemma_skip(log, n, h, i + 2, m2);
    lemma_skip(log, n, h, i + 3, m2);
    lemma_step(log, n, h, i + 4, m2);
    let m3 = m2.did(log, h, log[i + 4]);
    lemma_mirrors_grow(m2, m3, c, h, s, stored);
    assert(m2.vals.dom().contains(v[1]));
    assert(m3.vals.contains_pair(v[1], bits64((h.cells)(slot))));
    assert(m3.vals.contains_pair(v[2], bits8((h.cells)(slot) != 0)));
    lemma_brif(log, n, h, c, i + 5, v[2], b[0], merge, t, m3);
    m3
}

/// The entries that go on in a linked block.
pub open spec fn handed_on(at: Seq<Clif>, v: Seq<u32>, c: Fixed) -> Seq<Clif> {
    flushed_cpsr(at, v[5], c).push(
        Clif::CallIndirect(
            c.own_sig,
            v[1],
            seq![c.gpr, c.cpsr_ptr, c.pc_out, c.cpu_ctx, c.arg],
            Some(v[6]),
        ),
    ).push(Clif::Return(seq![v[6]]))
}

/// Going on in a linked block.
proof fn lemma_hand_on(
    log: Seq<Clif>,
    n: nat,
    h: Host,
    c: Fixed,
    at: Seq<Clif>,
    slot: u64,
    v: Seq<u32>,
    m: Running,
    s: Cpu,
    stored: u32,
)
    requires
        proper(log, n),
        set_up(log, h, c),
        n <= at.len(),
        begins(log, handed_on(at, v, c)),
        mirrors(m, c, h, s, stored),
        m.vals.contains_pair(v[1], bits64((h.cells)(slot))),
        known(log, at.len() as int, m),
        !(run_from(log, h, at.len() as int, m) is Stale),
    ensures
        run_from(log, h, at.len() as int, m) == end_of(Exit::Chain(slot), s, c, h, stored),
{
    let l3 = flushed_cpsr(at, v[5], c);
    let passed = seq![c.gpr, c.cpsr_ptr, c.pc_out, c.cpu_ctx, c.arg];
    let call = Clif::CallIndirect(c.own_sig, v[1], passed, Some(v[6]));
    lemma_begins(log, l3.push(call), Clif::Return(seq![v[6]]));
    lemma_begins(log, l3, call);
    let m5 = lemma_flush(log, n, h, c, at, v[5], m, s, stored);
    assert(m.vals.dom().contains(v[1]));
    assert(m5.vals.contains_pair(v[1], bits64((h.cells)(slot))));
    reveal(run_from);
    assert(passed.map_values(|x: u32| m5.vals[x]) =~= seq![
        bits64(h.gpr),
        bits64(h.cpsr),
        bits64(h.pc_out),
        bits64(h.ctx),
        bits32(s.arg),
    ]);
    assert(m5.has_all(passed));
}

/// The attempt to go on in a linked block.
proof fn lemma_chain(
    log: Seq<Clif>,
    n: nat,
    h: Host,
    c: Fixed,
    at: Seq<Clif>,
    slot: u64,
    merge: u32,
    names: Names,
    t: int,
    linked: bool,
    m: Running,
    s: Cpu,
    stored: u32,
) -> (m2: Running)
    requires
        ready(log, n, h, c),
        n <= at.len(),
        begins(log, tried_chain(at, slot, merge, names, c)),
        starts_at(log, t, merge),
        tried_chain(at, slot, merge, names, c).len() <= t,
        ((h.cells)(slot) != 0) == linked,
        mirrors(m, c, h, s, stored),
        known(log, at.len() as int, m),
        !(run_from(log, h, at.len() as int, m) is Stale),
    ensures
        begins(log, at),
        ({
            let o = chained(slot, linked, s);
            match o.exit {
                Some(exit) => run_from(log, h, at.len() as int, m) == end_of(
                    exit,
                    o.cpu,
                    c,
                    h,
                    stored,
                ),
                None => {
                    &&& run_from(log, h, at.len() as int, m) == run_from(log, h, t, m2)
                    &&& mirrors(m2, c, h, o.cpu, stored)
                    &&& known(log, t, m2)
                },
            }
        }),
{
    let v = names.values;
    let b = names.blocks;
    let args = seq![c.cpu_ctx];
    let check = call_entry(Callee::ChainAbortCheck, args, v[3], c);
    let l1 = looked(at, slot, merge, v, b);
    let e1 = entered_block(l1, b[0]);
    let a6 = e1.push(check).push(Clif::NonZero(v[3], v[4]));
    let l2 = a6.push(Clif::Brif(v[4], merge, b[1]));
    let e2 = entered_block(l2, b[1]);
    assert(tried_chain(at, slot, merge, names, c) == handed_on(e2, v, c));
    lemma_hand_on_begins(log, c, e2, v);
    lemma_begins(log, l2.push(Clif::Switch(b[1])), Clif::Seal(b[1]));
    lemma_begins(log, l2, Clif::Switch(b[1]));
    lemma_begins(log, a6, Clif::Brif(v[4], merge, b[1]));
    lemma_begins(log, e1.push(check), Clif::NonZero(v[3], v[4]));
    lemma_begins(log, e1, check);
    lemma_begins(log, l1.push(Clif::Switch(b[0])), Clif::Seal(b[0]));
    lemma_begins(log, l1, Clif::Switch(b[0]));
    if !linked {
        lemma_look(log, n, h, c, at, slot, merge, v, b, t, m, s, stored)
    } else {
        let m3 = lemma_look(log, n, h, c, at, slot, merge, v, b, l1.len() as int, m, s, stored);
        lemma_enter(log, n, h, l1, b[0], m3);
        let m4 = lemma_abort_check(log, n, h, c, e1, v[3], v[4], m3, s, stored);
        let s2 = s.called(Callee::ChainAbortCheck, 0, 0, 0);
        assert(m3.vals.dom().contains(v[1]));
        assert(m4.vals.contains_pair(v[1], bits64((h.cells)(slot))));
        if s2.answer() != 0 {
            lemma_brif(log, n, h, c, a6.len() as int, v[4], merge, b[1], t, m4);
        } else {
            lemma_brif(log, n, h, c, a6.len() as int, v[4], merge, b[1], l2.len() as int, m4);
            lemma_enter(log, n, h, l2, b[1], m4);
            lemma_hand_on(log, n, h, c, e2, slot, v, m4, s2, stored);
        }
        m4
    }
}

proof fn lemma_hand_on_begins(log: Seq<Clif>, c: Fixed, at: Seq<Clif>, v: Seq<u32>)
    requires
        begins(log, handed_on(at, v, c)),
    ensures
        begins(log, at),
        at.len() < handed_on(at, v, c).len(),
{
    let l3 = flushed_cpsr(at, v[5], c);
    let passed = seq![c.gpr, c.cpsr_ptr, c.pc_out, c.cpu_ctx, c.arg];
    let call = Clif::CallIndirect(c.own_sig, v[1], passed, Some(v[6]));
    lemma_begins(log, l3.push(call), Clif::Return(seq![v[6]]));
    lemma_begins(log, l3, call);
    lemma_flush_begins(log, c, at, v[5]);
}

proof fn lemma_flush_begins(log: Seq<Clif>, c: Fixed, at: Seq<Clif>, v: u32)
    requires
        begins(log, flushed_cpsr(at, v, c)),
    ensures
        begins(log, at),
        at.len() <= flushed_cpsr(at, v, c).len(),
{
    if c.touches_cpsr {
        lemma_begins(log, at.push(Clif::Use(c.cpsr, v)), Clif::Store(v, c.cpsr_ptr, 0));
        lemma_begins(log, at, Clif::Use(c.cpsr, v));
    }
}

/// Whether a function that stands before entry `from` does what an outcome says: it ends, or it
/// comes before entry `to` with the guest state mirrored.
pub open spec fn arrives(
    log: Seq<Clif>,
    h: Host,
    c: Fixed,
    from: int,
    m: Running,
    to: int,
    m2: Running,
    o: Outcome,
    stored: u32,
) -> bool {
    match o.exit {
        Some(exit) => run_from(log, h, from, m) == end_of(exit, o.cpu, c, h, stored),
        None => {
            &&& run_from(log, h, from, m) == run_from(log, h, to, m2)
            &&& mirrors(m2, c, h, o.cpu, stored)
            &&& known(log, to, m2)
        },
    }
}

/// Whether the slots of a node are linked as told.
pub open spec fn slots_as(node: Node, h: Host, linked: bool) -> bool {
    match node {
        Node::Chain(k) => ((h.cells)(k) != 0) == linked,
        _ => true,
    }
}

/// A node that runs a fragment under a condition.
proof fn lemma_when(
    log: Seq<Clif>,
    n: nat,
    h: Host,
    c: Fixed,
    at: Seq<Clif>,
    cond: Code,
    test: usize,
    body: Code,
    names: Names,
    m: Running,
    s: Cpu,
    stored: u32,
) -> (m2: Running)
    requires
        ready(log, n, h, c),
        n <= at.len(),
        node_ok(Node::When { cond, test, body }),
        fit_names(Node::When { cond, test, body }, names, c),
        begins(log, lowered_node(at, Node::When { cond, test, body }, names, no_names(), c)),
        mirrors(m, c, h, s, stored),
        known(log, at.len() as int, m),
        !(run_from(log, h, at.len() as int, m) is Stale),
    ensures
        begins(log, at),
        ({
            let end = lowered_node(at, Node::When { cond, test, body }, names, no_names(), c);
            &&& at.len() <= end.len()
            &&& arrives(
                log,
                h,
                c,
                at.len() as int,
                m,
                end.len() as int,
                m2,
                node_step(Node::When { cond, test, body }, false, s),
                stored,
            )
        }),
{
    let b = names.blocks;
    let l0 = lowered_code(at, cond@, names.first, c);
    let v = names.first[test as int];
    let a1 = l0.push(Clif::NewBlock(b[0]));
    let a2 = a1.push(Clif::NewBlock(b[1]));
    let l1 = a2.push(Clif::Brif(v, b[0], b[1]));
    let e1 = entered_block(l1, b[0]);
    let l2a = lowered_code(e1, body@, names.second, c);
    let l2 = l2a.push(Clif::Jump(b[1]));
    lemma_begins(log, l2.push(Clif::Switch(b[1])), Clif::Seal(b[1]));
    lemma_begins(log, l2, Clif::Switch(b[1]));
    lemma_begins(log, l2a, Clif::Jump(b[1]));
    lemma_code_begins(log, e1, body@, names.second, c, body@.len());
    lemma_begins(log, l1.push(Clif::Switch(b[0])), Clif::Seal(b[0]));
    lemma_begins(log, l1, Clif::Switch(b[0]));
    lemma_begins(log, a2, Clif::Brif(v, b[0], b[1]));
    lemma_begins(log, a1, Clif::NewBlock(b[1]));
    lemma_begins(log, l0, Clif::NewBlock(b[0]));
    lemma_code_begins(log, at, cond@, names.first, c, cond@.len());

    let m1 = lemma_code(log, n, h, c, at, cond, names.first, m, s, stored);
    let t = run(cond@, s);
    assert(m1.vals.contains_pair(v, held(Kind::Truth, t.env[test as int])));
    lemma_skip(log, n, h, l0.len() as int, m1);
    lemma_skip(log, n, h, l0.len() as int + 1, m1);
    if t.env[test as int] != 0 {
        lemma_brif(log, n, h, c, a2.len() as int, v, b[0], b[1], l1.len() as int, m1);
        lemma_enter(log, n, h, l1, b[0], m1);
        let m2 = lemma_code(log, n, h, c, e1, body, names.second, m1, t.cpu, stored);
        lemma_jump(log, n, h, c, l2a.len() as int, b[1], l2.len() as int, m2);
        lemma_enter(log, n, h, l2, b[1], m2);
        m2
    } else {
        lemma_brif(log, n, h, c, a2.len() as int, v, b[0], b[1], l2.len() as int, m1);
        lemma_enter(log, n, h, l2, b[1], m1);
        m1
    }
}

/// A node at which the block may be left.
proof fn lemma_abort(
    log: Seq<Clif>,
    n: nat,
    h: Host,
    c: Fixed,
    at: Seq<Clif>,
    code: Code,
    names: Names,
    m: Running,
    s: Cpu,
    stored: u32,
) -> (m2: Running)
    requires
        ready(log, n, h, c),
        n <= at.len(),
        node_ok(Node::Abort(code)),
        fit_names(Node::Abort(code), names, c),
        begins(log, lowered_node(at, Node::Abort(code), names, no_names(), c)),
        mirrors(m, c, h, s, stored),
        known(log, at.len() as int, m),
        !(run_from(log, h, at.len() as int, m) is Stale),
    ensures
        begins(log, at),
        ({
            let end = lowered_node(at, Node::Abort(code), names, no_names(), c);
            &&& at.len() <= end.len()
            &&& arrives(
                log,
                h,
                c,
                at.len() as int,
                m,
                end.len() as int,
                m2,
                node_step(Node::Abort(code), false, s),
                stored,
            )
        }),
{
    let b = names.blocks;
    let v = names.values;
    let check = call_entry(Callee::ChainAbortCheck, seq![c.cpu_ctx], v[0], c);
    let a1 = at.push(check).push(Clif::NonZero(v[0], v[1]));
    let a2 = a1.push(Clif::NewBlock(b[0]));
    let a3 = a2.push(Clif::NewBlock(b[1]));
    let l1 = a3.push(Clif::Brif(v[1], b[0], b[1]));
    let e1 = entered_block(l1, b[0]);
    let l2 = lowered_code(e1, code@, names.first, c);
    let f2 = flushed_cpsr(l2, v[2], c);
    let two = Clif::Const(Ty::I32, ABORTED as u64, v[3]);
    let l3 = f2.push(two).push(Clif::Return(seq![v[3]]));
    lemma_begins(log, l3.push(Clif::Switch(b[1])), Clif::Seal(b[1]));
    lemma_begins(log, l3, Clif::Switch(b[1]));
    lemma_begins(log, f2.push(two), Clif::Return(seq![v[3]]));
    lemma_begins(log, f2, two);
    lemma_flush_begins(log, c, l2, v[2]);
    lemma_code_begins(log, e1, code@, names.first, c, code@.len());
    lemma_begins(log, l1.push(Clif::Switch(b[0])), Clif::Seal(b[0]));
    lemma_begins(log, l1, Clif::Switch(b[0]));
    lemma_begins(log, a3, Clif::Brif(v[1], b[0], b[1]));
    lemma_begins(log, a2, Clif::NewBlock(b[1]));
    lemma_begins(log, a1, Clif::NewBlock(b[0]));

    let m1 = lemma_abort_check(log, n, h, c, at, v[0], v[1], m, s, stored);
    let s1 = s.called(Callee::ChainAbortCheck, 0, 0, 0);
    lemma_skip(log, n, h, a1.len() as int, m1);
    lemma_skip(log, n, h, a2.len() as int, m1);
    if s1.answer() != 0 {
        lemma_brif(log, n, h, c, a3.len() as int, v[1], b[0], b[1], l1.len() as int, m1);
        lemma_enter(log, n, h, l1, b[0], m1);
        let m2 = lemma_code(log, n, h, c, e1, code, names.first, m1, s1, stored);
        let s2 = run(code@, s1).cpu;
        let m3 = lemma_flush(log, n, h, c, l2, v[2], m2, s2, stored);
        lemma_step(log, n, h, f2.len() as int, m3);
        let m4 = m3.did(log, h, two);
        assert(m4.vals.contains_pair(v[3], bits32(ABORTED)));
        lemma_return(log, h, f2.len() as int + 1, v[3], ABORTED, m4);
        m4
    } else {
        lemma_brif(log, n, h, c, a3.len() as int, v[1], b[0], b[1], l3.len() as int, m1);
        lemma_enter(log, n, h, l3, b[1], m1);
        m1
    }
}

/// The return of a word.
proof fn lemma_return(log: Seq<Clif>, h: Host, i: int, v: u32, x: u32, m: Running)
    requires
        0 <= i < log.len(),
        log[i] == Clif::Return(seq![v]),
        m.vals.contains_pair(v, bits32(x)),
    ensures
        run_from(log, h, i, m) == End::Returned(seq![bits32(x)], m.mem),
{
    reveal(run_from);
    let vs = seq![v];
    assert(m.has_all(vs));
    assert(vs.map_values(|v: u32| m.vals[v]) =~= seq![bits32(x)]);
}

/// A node that tries to go on in a linked block.
proof fn lemma_chain_node(
    log: Seq<Clif>,
    n: nat,
    h: Host,
    c: Fixed,
    at: Seq<Clif>,
    slot: u64,
    names: Names,
    more: Names,
    linked: bool,
    m: Running,
    s: Cpu,
    stored: u32,
) -> (m2: Running)
    requires
        ready(log, n, h, c),
        n <= at.len(),
        begins(log, lowered_node(at, Node::Chain(slot), names, more, c)),
        slots_as(Node::Chain(slot), h, linked),
        mirrors(m, c, h, s, stored),
        known(log, at.len() as int, m),
        !(run_from(log, h, at.len() as int, m) is Stale),
    ensures
        begins(log, at),
        ({
            let end = lowered_node(at, Node::Chain(slot), names, more, c);
            &&& at.len() <= end.len()
            &&& arrives(
                log,
                h,
                c,
                at.len() as int,
                m,
                end.len() as int,
                m2,
                node_step(Node::Chain(slot), linked, s),
                stored,
            )
        }),
{
    let merge = names.blocks[0];
    let l1 = at.push(Clif::NewBlock(merge));
    let l2 = tried_chain(l1, slot, merge, more, c);
    lemma_begins(log, l2.push(Clif::Switch(merge)), Clif::Seal(merge));
    lemma_begins(log, l2, Clif::Switch(merge));
    lemma_chain_begins(log, l1, slot, merge, more, c);
    lemma_begins(log, at, Clif::NewBlock(merge));
    lemma_skip(log, n, h, at.len() as int, m);
    let m2 = lemma_chain(
        log,
        n,
        h,
        c,
        l1,
        slot,
        merge,
        more,
        l2.len() as int,
        linked,
        m,
        s,
        stored,
    );
    if chained(slot, linked, s).exit is None {
        lemma_enter(log, n, h, l2, merge, m2);
    }
    m2
}

/// A list that begins with the attempt to go on begins with what comes before it.
proof fn lemma_chain_begins(
    log: Seq<Clif>,
    at: Seq<Clif>,
    slot: u64,
    merge: u32,
    names: Names,
    c: Fixed,
)
    requires
        begins(log, tried_chain(at, slot, merge, names, c)),
    ensures
        begins(log, at),
        at.len() <= tried_chain(at, slot, merge, names, c).len(),
{
    let v = names.values;
    let b = names.blocks;
    let check = call_entry(Callee::ChainAbortCheck, seq![c.cpu_ctx], v[3], c);
    let l1 = looked(at, slot, merge, v, b);
    let e1 = entered_block(l1, b[0]);
    let a6 = e1.push(check).push(Clif::NonZero(v[3], v[4]));
    let l2 = a6.push(Clif::Brif(v[4], merge, b[1]));
    let e2 = entered_block(l2, b[1]);
    assert(tried_chain(at, slot, merge, names, c) == handed_on(e2, v, c));
    lemma_hand_on_begins(log, c, e2, v);
    assert(log.take(at.len() as int) =~= e2.take(at.len() as int)) by {
        assert(log.take(e2.len() as int).take(at.len() as int) =~= log.take(at.len() as int));
    }
    assert(e2.take(at.len() as int) =~= at);
}

/// A list that begins with a lowered node begins with what comes before it.
proof fn lemma_node_begins(
    log: Seq<Clif>,
    at: Seq<Clif>,
    node: Node,
    names: Names,
    more: Names,
    c: Fixed,
)
    requires
        begins(log, lowered_node(at, node, names, more, c)),
    ensures
        begins(log, at),
        at.len() <= lowered_node(at, node, names, more, c).len(),
{
    let b = names.blocks;
    let v = names.values;
    match node {
        Node::Do(code) => {
            lemma_code_begins(log, at, code@, names.first, c, code@.len());
        },
        Node::When { cond, test, body } => {
            let l0 = lowered_code(at, cond@, names.first, c);
            let x = names.first[test as int];
            let a1 = l0.push(Clif::NewBlock(b[0]));
            let a2 = a1.push(Clif::NewBlock(b[1]));
            let l1 = a2.push(Clif::Brif(x, b[0], b[1]));
            let e1 = entered_block(l1, b[0]);
            let l2a = lowered_code(e1, body@, names.second, c);
            let l2 = l2a.push(Clif::Jump(b[1]));
            lemma_begins(log, l2.push(Clif::Switch(b[1])), Clif::Seal(b[1]));
            lemma_begins(log, l2, Clif::Switch(b[1]));
            lemma_begins(log, l2a, Clif::Jump(b[1]));
            lemma_code_begins(log, e1, body@, names.second, c, body@.len());
            lemma_begins(log, l1.push(Clif::Switch(b[0])), Clif::Seal(b[0]));
            lemma_begins(log, l1, Clif::Switch(b[0]));
            lemma_begins(log, a2, Clif::Brif(x, b[0], b[1]));
            lemma_begins(log, a1, Clif::NewBlock(b[1]));
            lemma_begins(log, l0, Clif::NewBlock(b[0]));
            lemma_code_begins(log, at, cond@, names.first, c, cond@.len());
        },
        Node::Abort(code) => {
            let check = call_entry(Callee::ChainAbortCheck, seq![c.cpu_ctx], v[0], c);
            let a1 = at.push(check).push(Clif::NonZero(v[0], v[1]));
            let a2 = a1.push(Clif::NewBlock(b[0]));
            let a3 = a2.push(Clif::NewBlock(b[1]));
            let l1 = a3.push(Clif::Brif(v[1], b[0], b[1]));
            let e1 = entered_block(l1, b[0]);
            let l2 = lowered_code(e1, code@, names.first, c);
            let f2 = flushed_cpsr(l2, v[2], c);
            let two = Clif::Const(Ty::I32, ABORTED as u64, v[3]);
            let l3 = f2.push(two).push(Clif::Return(seq![v[3]]));
            lemma_begins(log, l3.push(Clif::Switch(b[1])), Clif::Seal(b[1]));
            lemma_begins(log, l3, Clif::Switch(b[1]));
            lemma_begins(log, f2.push(two), Clif::Return(seq![v[3]]));
            lemma_begins(log, f2, two);
            lemma_flush_begins(log, c, l2, v[2]);
            lemma_code_begins(log, e1, code@, names.first, c, code@.len());
            lemma_begins(log, l1.push(Clif::Switch(b[0])), Clif::Seal(b[0]));
            lemma_begins(log, l1, Clif::Switch(b[0]));
            lemma_begins(log, a3, Clif::Brif(v[1], b[0], b[1]));
            lemma_begins(log, a2, Clif::NewBlock(b[1]));
            lemma_begins(log, a1, Clif::NewBlock(b[0]));
            lemma_begins(log, at.push(check), Clif::NonZero(v[0], v[1]));
            lemma_begins(log, at, check);
        },
        Node::Chain(k) => {
            let l1 = at.push(Clif::NewBlock(b[0]));
            let l2 = tried_chain(l1, k, b[0], more, c);
            lemma_begins(log, l2.push(Clif::Switch(b[0])), Clif::Seal(b[0]));
            lemma_begins(log, l2, Clif::Switch(b[0]));
            lemma_chain_begins(log, l1, k, b[0], more, c);
            lemma_begins(log, at, Clif::NewBlock(b[0]));
        },
    }
}

/// A node and its entries.
proof fn lemma_node(
    log: Seq<Clif>,
    n: nat,
    h: Host,
    c: Fixed,
    at: Seq<Clif>,
    node: Node,
    names: Names,
    more: Names,
    linked: bool,
    m: Running,
    s: Cpu,
    stored: u32,
) -> (m2: Running)
    requires
        ready(log, n, h, c),
        n <= at.len(),
        node_ok(node),
        fit_names(node, names, c),
        begins(log, lowered_node(at, node, names, more, c)),
        slots_as(node, h, linked),
        mirrors(m, c, h, s, stored),
        known(log, at.len() as int, m),
        !(run_from(log, h, at.len() as int, m) is Stale),
    ensures
        arrives(
            log,
            h,
            c,
            at.len() as int,
            m,
            lowered_node(at, node, names, more, c).len() as int,
            m2,
            node_step(node, linked, s),
            stored,
        ),
{
    match node {
        Node::Do(code) => lemma_code(log, n, h, c, at, code, names.first, m, s, stored),
        Node::When { cond, test, body } => lemma_when(
            log,
            n,
            h,
            c,
            at,
            cond,
            test,
            body,
            names,
            m,
            s,
            stored,
        ),
        Node::Abort(code) => lemma_abort(log, n, h, c, at, code, names, m, s, stored),
        Node::Chain(k) => lemma_chain_node(
            log,
            n,
            h,
            c,
            at,
            k,
            names,
            more,
            linked,
            m,
            s,
            stored,
        ),
    }
}

/// The first nodes and their entries.
proof fn lemma_nodes(
    log: Seq<Clif>,
    n: nat,
    h: Host,
    c: Fixed,
    at: Seq<Clif>,
    p: Program,
    names: Seq<(Names, Names)>,
    k: nat,
    linked: bool,
    m: Running,
    s: Cpu,
    stored: u32,
) -> (m2: Running)
    requires
        ready(log, n, h, c),
        n <= at.len(),
        p.wf(),
        k <= p@.len(),
        fit_all(p@, names, c),
        begins(log, lowered_nodes(at, p@, names, c, k)),
        forall|j: int| 0 <= j < p@.len() ==> slots_as(#[trigger] p@[j], h, linked),
        mirrors(m, c, h, s, stored),
        known(log, at.len() as int, m),
        !(run_from(log, h, at.len() as int, m) is Stale),
    ensures
        at.len() <= lowered_nodes(at, p@, names, c, k).len(),
        arrives(
            log,
            h,
            c,
            at.len() as int,
            m,
            lowered_nodes(at, p@, names, c, k).len() as int,
            m2,
            run_nodes(p@.take(k as int), linked, s),
            stored,
        ),
    decreases k,
{
    if k == 0 {
        assert(p@.take(0) =~= Seq::empty());
        m
    } else {
        let j = (k - 1) as nat;
        let before = lowered_nodes(at, p@, names, c, j);
        let node = p@[j as int];
        lemma_node_begins(log, before, node, names[j as int].0, names[j as int].1, c);
        let m1 = lemma_nodes(log, n, h, c, at, p, names, j, linked, m, s, stored);
        let o = run_nodes(p@.take(j as int), linked, s);
        assert(p@.take(k as int).drop_last() =~= p@.take(j as int));
        if o.exit is Some {
            m1
        } else {
            p.lemma_node(j as int);
            assert(fit_names(p@[j as int], names[j as int].0, c));
            lemma_node(
                log,
                n,
                h,
                c,
                before,
                node,
                names[j as int].0,
                names[j as int].1,
                linked,
                m1,
                o.cpu,
                stored,
            )
        }
    }
}

/// The state in which a function starts: the parameters hold the four pointers and the argument.
pub open spec fn started(ps: Seq<(u32, bool)>, h: Host, s: Cpu, stored: u32) -> Running {
    Running {
        vals: Map::<u32, Bits>::empty().insert(ps[0].0, bits64(h.gpr)).insert(
            ps[1].0,
            bits64(h.cpsr),
        ).insert(ps[2].0, bits64(h.pc_out)).insert(ps[3].0, bits64(h.ctx)).insert(
            ps[4].0,
            bits32(s.arg),
        ),
        vars: Map::empty(),
        mem: memory_of(s, stored),
    }
}

/// Whether the callees stand behind the numbers by which a module knows them.
pub open spec fn answers_for(h: Host, ids: Seq<u32>) -> bool {
    forall|f: Callee| (h.callees)(ids[#[trigger] f.place()]) == f
}

/// Where the imports stand.
proof fn lemma_imports(
    log: Seq<Clif>,
    at: Seq<Clif>,
    ids: Seq<u32>,
    sigs: Seq<u32>,
    funcs: Seq<u32>,
    k: nat,
)
    requires
        k <= 16,
        begins(log, imported(at, ids, sigs, funcs, all_callees(), k)),
    ensures
        begins(log, at),
        imported(at, ids, sigs, funcs, all_callees(), k).len() == at.len() + 2 * k,
        forall|j: int|
            0 <= j < k ==> log[at.len() as int + 2 * j + 1] == Clif::Import(
                #[trigger] ids[j],
                sigs[j],
                funcs[j],
            ),
    decreases k,
{
    if k > 0 {
        let j = (k - 1) as nat;
        let f = all_callees()[j as int];
        let before = imported(at, ids, sigs, funcs, all_callees(), j);
        let sig = Clif::Sig(1, f.takes() as usize, f.answers(), sigs[j as int]);
        let import = Clif::Import(ids[j as int], sigs[j as int], funcs[j as int]);
        lemma_begins(log, before.push(sig), import);
        lemma_begins(log, before, sig);
        lemma_imports(log, at, ids, sigs, funcs, j);
    }
}

/// The start of a function up to its first block.
pub open spec fn declared_parts(at: Seq<Clif>, ids: Seq<u32>, c: Fixed, w: Whole) -> Seq<Clif> {
    imported(
        at.push(Clif::NewBlock(w.entry)).push(Clif::Params(w.entry, w.params)).push(
            Clif::Sig(4, 1, true, c.own_sig),
        ),
        ids,
        w.sigs,
        c.funcs@,
        all_callees(),
        16,
    )
}

/// The fixed parts of a function are set up before its first block.
proof fn lemma_set_up(log: Seq<Clif>, at: Seq<Clif>, ids: Seq<u32>, c: Fixed, w: Whole, h: Host)
    requires
        proper(log, at.len()),
        begins(
            log,
            entered_block(declared_parts(at, ids, c, w), w.entry).push(
                Clif::NewVar(Ty::I32, c.cpsr),
            ).push(Clif::NewVar(Ty::I32, c.took)),
        ),
        apart(h),
        answers_for(h, ids),
    ensures
        begins(log, declared_parts(at, ids, c, w)),
        begins(log, at),
        at.len() < declared_parts(at, ids, c, w).len(),
        log[at.len() as int + 1] == Clif::Params(w.entry, w.params),
        set_up(log, h, c),
{
    let l1 = at.push(Clif::NewBlock(w.entry)).push(Clif::Params(w.entry, w.params)).push(
        Clif::Sig(4, 1, true, c.own_sig),
    );
    let l2 = declared_parts(at, ids, c, w);
    let e = entered_block(l2, w.entry);
    lemma_begins(log, e.push(Clif::NewVar(Ty::I32, c.cpsr)), Clif::NewVar(Ty::I32, c.took));
    lemma_begins(log, e, Clif::NewVar(Ty::I32, c.cpsr));
    lemma_begins(log, l2.push(Clif::Switch(w.entry)), Clif::Seal(w.entry));
    lemma_begins(log, l2, Clif::Switch(w.entry));
    lemma_imports(log, l1, ids, w.sigs, c.funcs@, 16);
    lemma_begins(
        log,
        at.push(Clif::NewBlock(w.entry)).push(Clif::Params(w.entry, w.params)),
        Clif::Sig(4, 1, true, c.own_sig),
    );
    lemma_begins(log, at.push(Clif::NewBlock(w.entry)), Clif::Params(w.entry, w.params));
    lemma_begins(log, at, Clif::NewBlock(w.entry));
    assert forall|f: Callee| callee_of(log, h, #[trigger] c.func(f)) == f by {
        let k = f.place();
        assert(log[l1.len() as int + 2 * k + 1] == Clif::Import(ids[k], w.sigs[k], c.funcs@[k]));
        lemma_import(log, at.len(), l1.len() as int + 2 * k + 1, ids[k], w.sigs[k], c.func(f));
    }
    let i = e.len() as int;
    lemma_fits_at(log, at.len(), i + 1);
    assert(log.take(i + 1) =~= log.take(i).push(log[i]));
    lemma_site_push(log.take(i), log[i]);
}

/// The parameters are known where the first block starts.
proof fn lemma_started_known(
    log: Seq<Clif>,
    at: Seq<Clif>,
    i: int,
    w: Whole,
    h: Host,
    s: Cpu,
    stored: u32,
)
    requires
        proper(log, at.len()),
        at.len() + 2 <= i <= log.len(),
        log[at.len() as int + 1] == Clif::Params(w.entry, w.params),
        w.params.len() >= 5,
    ensures
        known(log, i, started(w.params, h, s, stored)),
        forall|a: int, b: int| 0 <= a < b < 5 ==> w.params[a].0 != w.params[b].0,
{
    let j = at.len() as int + 1;
    let ps = w.params;
    lemma_fits_at(log, at.len(), j);
    assert(log.take(j + 1) =~= log.take(j).push(log[j]));
    lemma_site_push(log.take(j), log[j]);
    let before = site(log.take(j));
    lemma_params(before, ps, ps.len(), 0);
    lemma_params(before, ps, ps.len(), 1);
    lemma_params(before, ps, ps.len(), 2);
    lemma_params(before, ps, ps.len(), 3);
    lemma_params(before, ps, ps.len(), 4);
    lemma_site_grows(log, j + 1, i);
    let m = started(ps, h, s, stored);
    assert forall|v: u32| #[trigger] m.vals.contains_key(v) implies site(log.take(i)).has(v) by {
        assert(site(log.take(j + 1)).has(v));
    }
}

/// The first value of the status word's variable.
pub open spec fn first_cpsr(c: Fixed, w: Whole) -> Clif {
    if c.touches_cpsr {
        Clif::Load(Ty::I32, c.cpsr_ptr, 0, w.cpsr0)
    } else {
        Clif::Const(Ty::I32, 0, w.cpsr0)
    }
}

/// The start of a function.
proof fn lemma_prologue(
    log: Seq<Clif>,
    at: Seq<Clif>,
    ids: Seq<u32>,
    block: CompiledBlock,
    c: Fixed,
    w: Whole,
    h: Host,
    s: Cpu,
    stored: u32,
) -> (m2: Running)
    requires
        proper(log, at.len()),
        begins(log, prologue(at, ids, c, w)),
        takes_params(c, block, w.params),
        apart(h),
        answers_for(h, ids),
        s.gpr.len() == 15,
        s.took == 0,
        s.bus == h.bus,
        s.cpsr == if c.touches_cpsr {
            stored
        } else {
            0
        },
        !(run_from(
            log,
            h,
            declared_parts(at, ids, c, w).len() as int,
            started(w.params, h, s, stored),
        ) is Stale),
    ensures
        set_up(log, h, c),
        begins(log, at),
        starts_at(log, declared_parts(at, ids, c, w).len() as int, w.entry),
        at.len() <= prologue(at, ids, c, w).len(),
        run_from(
            log,
            h,
            declared_parts(at, ids, c, w).len() as int,
            started(w.params, h, s, stored),
        ) == run_from(log, h, prologue(at, ids, c, w).len() as int, m2),
        mirrors(m2, c, h, s, stored),
        known(log, prologue(at, ids, c, w).len() as int, m2),
{
    let n = at.len();
    let l2 = declared_parts(at, ids, c, w);
    let e = entered_block(l2, w.entry);
    let a1 = e.push(Clif::NewVar(Ty::I32, c.cpsr));
    let a2 = a1.push(Clif::NewVar(Ty::I32, c.took));
    let a3 = a2.push(first_cpsr(c, w));
    let a4 = a3.push(Clif::Def(c.cpsr, w.cpsr0));
    let a5 = a4.push(Clif::Const(Ty::I32, 0, w.took0));
    assert(prologue(at, ids, c, w) == a5.push(Clif::Def(c.took, w.took0)));
    lemma_begins(log, a5, Clif::Def(c.took, w.took0));
    lemma_begins(log, a4, Clif::Const(Ty::I32, 0, w.took0));
    lemma_begins(log, a3, Clif::Def(c.cpsr, w.cpsr0));
    lemma_begins(log, a2, first_cpsr(c, w));
    lemma_begins(log, a1, Clif::NewVar(Ty::I32, c.took));
    lemma_begins(log, e, Clif::NewVar(Ty::I32, c.cpsr));
    lemma_begins(log, l2.push(Clif::Switch(w.entry)), Clif::Seal(w.entry));
    lemma_set_up(log, at, ids, c, w, h);
    let m = started(w.params, h, s, stored);
    let i = l2.len() as int;
    lemma_imports_len(at, ids, c, w);
    lemma_started_known(log, at, i, w, h, s, stored);
    lemma_enter(log, n, h, l2, w.entry, m);
    lemma_skip(log, n, h, i + 2, m);
    lemma_skip(log, n, h, i + 3, m);
    assert(m.vals.contains_pair(c.gpr, bits64(h.gpr)));
    assert(m.vals.contains_pair(c.cpsr_ptr, bits64(h.cpsr)));
    assert(m.vals.contains_pair(c.pc_out, bits64(h.pc_out)));
    assert(m.vals.contains_pair(c.cpu_ctx, bits64(h.ctx)));
    assert(m.vals.contains_pair(c.arg, bits32(s.arg)));
    assert(cell_at(h, m.address(c.cpsr_ptr, 0)) == Some(Cell::Cpsr));
    lemma_step(log, n, h, i + 4, m);
    let m1 = m.did(log, h, log[i + 4]);
    assert(m1.vals.contains_pair(w.cpsr0, bits32(s.cpsr)));
    lemma_step(log, n, h, i + 5, m1);
    let m2 = m1.did(log, h, log[i + 5]);
    lemma_step(log, n, h, i + 6, m2);
    let m3 = m2.did(log, h, log[i + 6]);
    assert(m3.vals.contains_pair(w.took0, bits32(0)));
    lemma_step(log, n, h, i + 7, m3);
    let m4 = m3.did(log, h, log[i + 7]);
    assert(m4.vals == m3.vals && m3.vals == m1.vals.insert(w.took0, bits32(0)));
    lemma_still(m, m1);
    lemma_still(m1, m3);
    m4
}

/// The parameters keep what they hold while values are added.
proof fn lemma_still(m: Running, m2: Running)
    requires
        m.vals.submap_of(m2.vals),
    ensures
        forall|v: u32|
            #![trigger m2.vals.contains_key(v)]
            m.vals.contains_key(v) ==> m2.vals.contains_pair(v, m.vals[v]),
{
    assert forall|v: u32|
        #![trigger m2.vals.contains_key(v)]
        m.vals.contains_key(v) implies m2.vals.contains_pair(v, m.vals[v]) by {
        assert(m.vals.dom().contains(v));
        assert(m2.vals.dom().contains(v));
        assert(m2.vals[v] == m.vals[v]);
    }
}

proof fn lemma_imports_len(at: Seq<Clif>, ids: Seq<u32>, c: Fixed, w: Whole)
    ensures
        declared_parts(at, ids, c, w).len() == at.len() + 35,
{
    let l1 = at.push(Clif::NewBlock(w.entry)).push(Clif::Params(w.entry, w.params)).push(
        Clif::Sig(4, 1, true, c.own_sig),
    );
    let l2 = declared_parts(at, ids, c, w);
    assert(l2.take(l2.len() as int) =~= l2);
    lemma_imports(l2, l1, ids, w.sigs, c.funcs@, 16);
}

/// Importing functions starts no block.
proof fn lemma_imports_stay(
    log: Seq<Clif>,
    ids: Seq<u32>,
    sigs: Seq<u32>,
    funcs: Seq<u32>,
    k: nat,
)
    ensures
        site(imported(log, ids, sigs, funcs, all_callees(), k)).at == site(log).at,
    decreases k,
{
    broadcast use lemma_site_push;

    if k > 0 {
        lemma_imports_stay(log, ids, sigs, funcs, (k - 1) as nat);
    }
}

/// A run from the first block of a function never reads a variable through a value that holds
/// something else.
proof fn lemma_first_block(
    log: Seq<Clif>,
    at: Seq<Clif>,
    block: CompiledBlock,
    ids: Seq<u32>,
    c: Fixed,
    w: Whole,
    h: Host,
    s: Cpu,
    stored: u32,
)
    requires
        proper(log, at.len()),
        begins(log, prologue(at, ids, c, w)),
        takes_params(c, block, w.params),
        site(at).at is None,
    ensures
        !(run_from(
            log,
            h,
            declared_parts(at, ids, c, w).len() as int,
            started(w.params, h, s, stored),
        ) is Stale),
{
    broadcast use lemma_site_push;

    let d = declared_parts(at, ids, c, w);
    let l1 = at.push(Clif::NewBlock(w.entry));
    let l2 = l1.push(Clif::Params(w.entry, w.params));
    let l3 = l2.push(Clif::Sig(4, 1, true, c.own_sig));
    lemma_prologue_begins(log, at, ids, c, w);
    lemma_imports_len(at, ids, c, w);
    lemma_imports_stay(l3, ids, w.sigs, c.funcs@, 16);
    lemma_params_grow(site(l1), w.params, w.params.len());
    lemma_imports(log, l3, ids, w.sigs, c.funcs@, 16);
    lemma_begins(log, l2, Clif::Sig(4, 1, true, c.own_sig));
    lemma_begins(log, l1, Clif::Params(w.entry, w.params));
    lemma_started_known(log, at, d.len() as int, w, h, s, stored);
    assert(log.take(d.len() as int) =~= d);
    lemma_never_stale(log, at.len(), h, d.len() as int, started(w.params, h, s, stored));
}

/// A lowered block does what the block does. The function, called with pointers to registers, a
/// status word and a branch target that lie apart, leaves the memory, makes the calls and gives the
/// result that the block's outcome tells.
pub proof fn law_lowered_block_does_the_same(
    at: Seq<Clif>,
    block: CompiledBlock,
    ids: Seq<u32>,
    c: Fixed,
    w: Whole,
    h: Host,
    linked: bool,
    s: Cpu,
    stored: u32,
)
    requires
        block.wf(),
        site(at).at is None,
        carries_on(at, lowered_block(at, block, ids, c, w)),
        takes_params(c, block, w.params),
        fit_all(block.program@, w.nodes, c),
        apart(h),
        answers_for(h, ids),
        forall|j: int|
            0 <= j < block.program@.len() ==> slots_as(#[trigger] block.program@[j], h, linked),
        s.gpr.len() == 15,
        s.took == 0,
        s.bus == h.bus,
        s.cpsr == if block.touches_cpsr {
            stored
        } else {
            0
        },
    ensures
        run_from(
            lowered_block(at, block, ids, c, w),
            h,
            start_of(lowered_block(at, block, ids, c, w), w.entry),
            started(w.params, h, s, stored),
        ) == end_of(
            finished(block.outcome(linked, s)),
            block.outcome(linked, s).cpu,
            c,
            h,
            stored,
        ),
{
    let log = lowered_block(at, block, ids, c, w);
    let nodes = block.program@;
    let n = at.len();
    let l1 = prologue(at, ids, c, w);
    let l2 = lowered_nodes(l1, nodes, w.nodes, c, nodes.len());
    let l3 = flushed_cpsr(l2, w.cpsr1, c);
    let l4 = l3.push(Clif::Use(c.took, w.took1));
    assert(proper(log, n)) by {
        reveal(carries_on);
        assert(proper(at, n));
    }
    assert(log.take(log.len() as int) =~= log);
    lemma_begins(log, l4, Clif::Return(seq![w.took1]));
    lemma_begins(log, l3, Clif::Use(c.took, w.took1));
    lemma_flush_begins(log, c, l2, w.cpsr1);
    lemma_nodes_begin(log, l1, nodes, w.nodes, c, nodes.len());
    let d = declared_parts(at, ids, c, w).len() as int;
    let m0 = started(w.params, h, s, stored);
    lemma_prologue_begins(log, at, ids, c, w);
    assert(log.take(n as int) =~= at);
    lemma_start(log, n, d, w.entry);
    lemma_first_block(log, at, block, ids, c, w, h, s, stored);
    let m1 = lemma_prologue(log, at, ids, block, c, w, h, s, stored);
    let m2 = lemma_nodes(
        log,
        n,
        h,
        c,
        l1,
        block.program,
        w.nodes,
        nodes.len(),
        linked,
        m1,
        s,
        stored,
    );
    assert(nodes.take(nodes.len() as int) =~= nodes);
    let o = block.outcome(linked, s);
    if o.exit is None {
        let m3 = lemma_flush(log, n, h, c, l2, w.cpsr1, m2, o.cpu, stored);
        lemma_step(log, n, h, l3.len() as int, m3);
        let m4 = m3.did(log, h, log[l3.len() as int]);
        assert(m4.vals.contains_pair(w.took1, bits32(o.cpu.took)));
        lemma_return(log, h, l4.len() as int, w.took1, o.cpu.took, m4);
    }
}

/// A list that begins with lowered nodes begins with what comes before them.
proof fn lemma_nodes_begin(
    log: Seq<Clif>,
    at: Seq<Clif>,
    nodes: Seq<Node>,
    names: Seq<(Names, Names)>,
    c: Fixed,
    k: nat,
)
    requires
        begins(log, lowered_nodes(at, nodes, names, c, k)),
    ensures
        begins(log, at),
    decreases k,
{
    if k > 0 {
        let j = (k - 1) as nat;
        let before = lowered_nodes(at, nodes, names, c, j);
        lemma_node_begins(log, before, nodes[j as int], names[j as int].0, names[j as int].1, c);
        lemma_nodes_begin(log, at, nodes, names, c, j);
    }
}

/// Where the first block of a function starts.
proof fn lemma_prologue_begins(log: Seq<Clif>, at: Seq<Clif>, ids: Seq<u32>, c: Fixed, w: Whole)
    requires
        begins(log, prologue(at, ids, c, w)),
    ensures
        begins(log, at),
        begins(log, declared_parts(at, ids, c, w)),
        starts_at(log, declared_parts(at, ids, c, w).len() as int, w.entry),
{
    let l2 = declared_parts(at, ids, c, w);
    let e = entered_block(l2, w.entry);
    let a1 = e.push(Clif::NewVar(Ty::I32, c.cpsr));
    let a2 = a1.push(Clif::NewVar(Ty::I32, c.took));
    let a3 = a2.push(first_cpsr(c, w));
    let a4 = a3.push(Clif::Def(c.cpsr, w.cpsr0));
    let a5 = a4.push(Clif::Const(Ty::I32, 0, w.took0));
    assert(prologue(at, ids, c, w) == a5.push(Clif::Def(c.took, w.took0)));
    lemma_begins(log, a5, Clif::Def(c.took, w.took0));
    lemma_begins(log, a4, Clif::Const(Ty::I32, 0, w.took0));
    lemma_begins(log, a3, Clif::Def(c.cpsr, w.cpsr0));
    lemma_begins(log, a2, first_cpsr(c, w));
    lemma_begins(log, a1, Clif::NewVar(Ty::I32, c.took));
    lemma_begins(log, e, Clif::NewVar(Ty::I32, c.cpsr));
    lemma_begins(log, l2.push(Clif::Switch(w.entry)), Clif::Seal(w.entry));
    lemma_begins(log, l2, Clif::Switch(w.entry));
    let l1 = at.push(Clif::NewBlock(w.entry)).push(Clif::Params(w.entry, w.params)).push(
        Clif::Sig(4, 1, true, c.own_sig),
    );
    lemma_imports(log, l1, ids, w.sigs, c.funcs@, 16);
    lemma_begins(
        log,
        at.push(Clif::NewBlock(w.entry)).push(Clif::Params(w.entry, w.params)),
        Clif::Sig(4, 1, true, c.own_sig),
    );
    lemma_begins(log, at.push(Clif::NewBlock(w.entry)), Clif::Params(w.entry, w.params));
    lemma_begins(log, at, Clif::NewBlock(w.entry));
}

} // verus!
