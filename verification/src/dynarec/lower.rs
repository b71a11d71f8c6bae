//! Lowering of compiled blocks to Cranelift functions.
//!
//! A lowered block is a function of four pointers, to the registers, the status word, the branch
//! target and the context of the callees, and of one word; it gives back the block's result.

use vstd::prelude::*;
use crate::dynarec::block::{ABORTED, CompiledBlock, Node, Program, node_ok};
use crate::dynarec::clif::{
    Clif, Site, Ty, append_params, carries_on, create_block, current_block, declare_word_var,
    def_var, emitted, import_function, import_signature, ins_bin, ins_brif, ins_call,
    ins_call_indirect, ins_const, ins_imm, ins_jump, ins_load, ins_nonzero, ins_not, ins_return,
    ins_store, ins_test, ins_widen, lemma_carry_further, lemma_carry_none, lemma_carry_on,
    lemma_carry_push, lemma_site_push, seal, site, switch_to, use_var,
};
use crate::dynarec::ir::{Callee, Code, Kind, Op, is_kind, kind_of, op_ok};
use cranelift::frontend::FunctionBuilder;

verus! {

/// The fixed parts of a function: its parameters, its two variables, its own signature and the
/// functions that it calls, in the order of the callees.
#[derive(Debug)]
pub struct Fixed {
    pub gpr: u32,
    pub cpsr_ptr: u32,
    pub pc_out: u32,
    pub cpu_ctx: u32,
    pub arg: u32,
    pub cpsr: u32,
    pub took: u32,
    pub own_sig: u32,
    pub funcs: Vec<u32>,
    /// Whether the status word is read on entry and written on exit.
    pub touches_cpsr: bool,
}

/// The machine type of what a temporary holds.
pub open spec fn machine_type(k: Kind) -> Ty {
    match k {
        Kind::Truth => Ty::I8,
        _ => Ty::I32,
    }
}

/// What a callee gives back.
pub open spec fn given_back(f: Callee) -> Option<Ty> {
    if f.answers() {
        Some(Ty::I32)
    } else {
        None
    }
}

impl Fixed {
    /// The function that stands for a callee.
    pub open spec fn func(&self, f: Callee) -> u32 {
        self.funcs@[f.place()]
    }

    /// Whether all fixed parts exist at a site.
    pub open spec fn there(&self, s: Site) -> bool {
        &&& s.has(self.gpr) && s.has(self.cpsr_ptr) && s.has(self.pc_out) && s.has(self.cpu_ctx)
        &&& s.values.contains_pair(self.arg, Some(Ty::I32))
        &&& s.vars.contains_pair(self.cpsr, Ty::I32)
        &&& s.vars.contains_pair(self.took, Ty::I32)
        &&& s.sigs.contains_pair(self.own_sig, Some(Ty::I32))
        &&& self.funcs@.len() == 16
        &&& forall|f: Callee|
            s.funcs.contains_pair(#[trigger] self.funcs@[f.place()], given_back(f))
    }
}

/// The entry that lowers an operation with result `r`, where there is one.
pub open spec fn op_entry(op: Op, env: Seq<u32>, r: u32, c: Fixed) -> Option<Clif> {
    match op {
        Op::Const(k) => Some(Clif::Const(Ty::I32, k as u64, r)),
        Op::True => Some(Clif::Const(Ty::I8, 1, r)),
        Op::Arg => None,
        Op::Gpr(x) => Some(Clif::Load(Ty::I32, c.gpr, (4 * x) as u32, r)),
        Op::SetGpr(x, t) => Some(Clif::Store(env[t as int], c.gpr, (4 * x) as u32)),
        Op::Cpsr => Some(Clif::Use(c.cpsr, r)),
        Op::SetCpsr(t) => Some(Clif::Def(c.cpsr, env[t as int])),
        Op::SetPc(t) => Some(Clif::Store(env[t as int], c.pc_out, 0)),
        Op::SetTook(t) => Some(Clif::Def(c.took, env[t as int])),
        Op::Bin(o, x, y) => Some(Clif::Bin(o, env[x as int], env[y as int], r)),
        Op::Imm(o, x, k) => Some(Clif::Imm(o, env[x as int], k, r)),
        Op::Not(x) => Some(Clif::Not(env[x as int], r)),
        Op::Test(cc, x, y) => Some(Clif::Test(cc, env[x as int], env[y as int], r)),
        Op::Widen(x) => Some(Clif::Widen(env[x as int], r)),
        Op::Call0(f) => Some(call_entry(f, seq![c.cpu_ctx], r, c)),
        Op::Call1(f, x) => Some(call_entry(f, seq![c.cpu_ctx, env[x as int]], r, c)),
        Op::Call2(f, x, y) => Some(
            call_entry(f, seq![c.cpu_ctx, env[x as int], env[y as int]], r, c),
        ),
        Op::Call3(f, x, y, z) => Some(
            call_entry(f, seq![c.cpu_ctx, env[x as int], env[y as int], env[z as int]], r, c),
        ),
    }
}

/// The entry of a call of a callee.
pub open spec fn call_entry(f: Callee, args: Seq<u32>, r: u32, c: Fixed) -> Clif {
    Clif::Call(
        c.func(f),
        args,
        if f.answers() {
            Some(r)
        } else {
            None
        },
    )
}

/// A list carried on by the entries that lower the first `n` operations of a fragment whose
/// temporaries are `env`.
pub open spec fn code_entries(
    log: Seq<Clif>,
    ops: Seq<Op>,
    env: Seq<u32>,
    c: Fixed,
    n: nat,
) -> Seq<Clif>
    decreases n,
{
    if n == 0 {
        log
    } else {
        let before = code_entries(log, ops, env, c, (n - 1) as nat);
        match op_entry(ops[n - 1], env, env[n - 1], c) {
            Some(e) => before.push(e),
            None => before,
        }
    }
}

/// A list carried on by the entries that lower a whole fragment.
pub open spec fn lowered_code(log: Seq<Clif>, ops: Seq<Op>, env: Seq<u32>, c: Fixed) -> Seq<Clif> {
    code_entries(log, ops, env, c, ops.len())
}

/// Whether there is a temporary for each operation, and those that read the argument are the
/// argument.
pub open spec fn fit_temps(ops: Seq<Op>, env: Seq<u32>, c: Fixed) -> bool {
    env.len() == ops.len() && forall|i: int|
        0 <= i < ops.len() && (#[trigger] ops[i]) is Arg ==> env[i] == c.arg
}

/// Whether temporaries exist at a site with the types of what they hold.
pub open spec fn env_there(env: Seq<u32>, kinds: Seq<Kind>, s: Site) -> bool {
    forall|j: int|
        0 <= j < env.len() && kinds[j] != Kind::Nothing ==> s.values.contains_pair(
            #[trigger] env[j],
            Some(machine_type(kinds[j])),
        )
}

/// Lowers a call of a callee and returns its result, or 0 without one.
fn lower_call(b: &mut FunctionBuilder<'_>, f: Callee, args: &Vec<u32>, c: &Fixed) -> (r: u32)
    requires
        site(emitted(*old(b))).is_open(),
        c.there(site(emitted(*old(b)))),
        site(emitted(*old(b))).has_all(args@),
    ensures
        carries_on(emitted(*old(b)), emitted(*final(b))),
        emitted(*final(b)) == emitted(*old(b)).push(call_entry(f, args@, r, *c)),
        f.answers() ==> !site(emitted(*old(b))).has(r),
{
    broadcast use lemma_carry_push;

    let i: usize = f.index();
    proof {
        assert(site(emitted(*old(b))).funcs.contains_pair(c.funcs@[f.place()], given_back(f)));
    }
    match ins_call(b, c.funcs[i], args) {
        Some(v) => v,
        None => 0,
    }
}

/// A site after a new value of the kind that an operation leaves.
pub open spec fn grown(s: Site, r: u32, k: Kind) -> Site {
    if k == Kind::Nothing {
        s
    } else {
        s.with_value(r, Some(machine_type(k)))
    }
}

/// Makes the entry of one call and returns the value of its temporary.
fn enter_call(
    b: &mut FunctionBuilder<'_>,
    op: Op,
    env: &Vec<u32>,
    c: &Fixed,
    Ghost(kinds): Ghost<Seq<Kind>>,
) -> (r: u32)
    requires
        op is Call0 || op is Call1 || op is Call2 || op is Call3,
        site(emitted(*old(b))).is_open(),
        c.there(site(emitted(*old(b)))),
        kinds.len() == env@.len(),
        op_ok(op, kinds),
        env_there(env@, kinds, site(emitted(*old(b)))),
    ensures
        carries_on(emitted(*old(b)), emitted(*final(b))),
        emitted(*final(b)) == match op_entry(op, env@, r, *c) {
            Some(e) => emitted(*old(b)).push(e),
            None => emitted(*old(b)),
        },
        !(op is Arg) ==> site(emitted(*final(b))) == grown(
            site(emitted(*old(b))),
            r,
            kind_of(op, kinds),
        ),
        kind_of(op, kinds) != Kind::Nothing && site(emitted(*old(b))).has(r) ==> site(
            emitted(*old(b)),
        ).values[r] == Some(machine_type(kind_of(op, kinds))),
        op is Arg ==> r == c.arg,
{
    broadcast use {lemma_site_push, lemma_carry_push};

    match op {
        Op::Call0(f) => {
            let args: Vec<u32> = vec![c.cpu_ctx];
            assert(args@ =~= seq![c.cpu_ctx]);
            lower_call(b, f, &args, c)
        },
        Op::Call1(f, x) => {
            let args: Vec<u32> = vec![c.cpu_ctx, env[x]];
            assert(args@ =~= seq![c.cpu_ctx, env@[x as int]]);
            lower_call(b, f, &args, c)
        },
        Op::Call2(f, x, y) => {
            let args: Vec<u32> = vec![c.cpu_ctx, env[x], env[y]];
            assert(args@ =~= seq![c.cpu_ctx, env@[x as int], env@[y as int]]);
            lower_call(b, f, &args, c)
        },
        Op::Call3(f, x, y, z) => {
            let args: Vec<u32> = vec![c.cpu_ctx, env[x], env[y], env[z]];
            assert(args@ =~= seq![c.cpu_ctx, env@[x as int], env@[y as int], env@[z as int]]);
            lower_call(b, f, &args, c)
        },
        _ => 0,
    }
}

/// Makes the entry of one operation and returns the value of its temporary.
fn enter_op(
    b: &mut FunctionBuilder<'_>,
    op: Op,
    env: &Vec<u32>,
    c: &Fixed,
    Ghost(kinds): Ghost<Seq<Kind>>,
) -> (r: u32)
    requires
        site(emitted(*old(b))).is_open(),
        c.there(site(emitted(*old(b)))),
        kinds.len() == env@.len(),
        op_ok(op, kinds),
        env_there(env@, kinds, site(emitted(*old(b)))),
    ensures
        carries_on(emitted(*old(b)), emitted(*final(b))),
        emitted(*final(b)) == match op_entry(op, env@, r, *c) {
            Some(e) => emitted(*old(b)).push(e),
            None => emitted(*old(b)),
        },
        !(op is Arg) ==> site(emitted(*final(b))) == grown(
            site(emitted(*old(b))),
            r,
            kind_of(op, kinds),
        ),
        kind_of(op, kinds) != Kind::Nothing && site(emitted(*old(b))).has(r) ==> site(
            emitted(*old(b)),
        ).values[r] == Some(machine_type(kind_of(op, kinds))),
        op is Arg ==> r == c.arg,
{
    broadcast use {lemma_site_push, lemma_carry_push};

    proof {
        lemma_carry_none(emitted(*b));
    }

    match op {
        Op::Const(k) => ins_const(b, Ty::I32, k as u64),
        Op::True => ins_const(b, Ty::I8, 1),
        Op::Arg => c.arg,
        Op::Gpr(x) => ins_load(b, Ty::I32, c.gpr, 4 * (x as u32)),
        Op::SetGpr(x, t) => {
            ins_store(b, env[t], c.gpr, 4 * (x as u32));
            0
        },
        Op::Cpsr => use_var(b, c.cpsr),
        Op::SetCpsr(t) => {
            def_var(b, c.cpsr, env[t]);
            0
        },
        Op::SetPc(t) => {
            ins_store(b, env[t], c.pc_out, 0);
            0
        },
        Op::SetTook(t) => {
            def_var(b, c.took, env[t]);
            0
        },
        Op::Bin(o, x, y) => ins_bin(b, o, env[x], env[y]),
        Op::Imm(o, x, k) => ins_imm(b, o, env[x], k),
        Op::Not(x) => ins_not(b, env[x]),
        Op::Test(cc, x, y) => ins_test(b, cc, env[x], env[y]),
        Op::Widen(x) => ins_widen(b, env[x]),
        _ => enter_call(b, op, env, c, Ghost(kinds)),
    }
}

/// What was there is still there after a new value.
proof fn lemma_grown(c: Fixed, env: Seq<u32>, kinds: Seq<Kind>, s: Site, r: u32, k: Kind)
    requires
        c.there(s),
        env.len() == kinds.len(),
        env_there(env, kinds, s),
        k != Kind::Nothing && s.has(r) ==> s.values[r] == Some(machine_type(k)),
    ensures
        c.there(grown(s, r, k)),
        env_there(env.push(r), kinds.push(k), grown(s, r, k)),
{
    let t = grown(s, r, k);
    assert forall|f: Callee| t.funcs.contains_pair(
        #[trigger] c.funcs@[f.place()],
        given_back(f),
    ) by {
        assert(s.funcs.contains_pair(c.funcs@[f.place()], given_back(f)));
    }
    let env2 = env.push(r);
    let kinds2 = kinds.push(k);
    assert forall|j: int| 0 <= j < env2.len() && kinds2[j] != Kind::Nothing implies t.values.contains_pair(
        #[trigger] env2[j],
        Some(machine_type(kinds2[j])),
    ) by {
        if j < env.len() {
            assert(s.values.contains_pair(env[j], Some(machine_type(kinds[j]))));
        }
    }
}

/// Lowers a fragment and returns the values of its temporaries.
fn lower_code(b: &mut FunctionBuilder<'_>, code: &Code, c: &Fixed) -> (env: Vec<u32>)
    requires
        code.wf(),
        site(emitted(*old(b))).is_open(),
        c.there(site(emitted(*old(b)))),
    ensures
        carries_on(emitted(*old(b)), emitted(*final(b))),
        fit_temps(code@, env@, *c),
        code.kinds@.len() == code@.len(),
        env_there(env@, code.kinds@, site(emitted(*final(b)))),
        c.there(site(emitted(*final(b)))),
        emitted(*final(b)) == lowered_code(emitted(*old(b)), code@, env@, *c),
        same_place(site(emitted(*old(b))), site(emitted(*final(b)))),
{
    let mut env: Vec<u32> = Vec::new();
    let mut i: usize = 0;
    let ghost log = emitted(*b);
    proof {
        code.lemma_sizes();
        lemma_carry_none(log);
    }
    while i < code.ops.len()
        invariant
            i <= code@.len(),
            code.wf(),
            code.kinds@.len() == code@.len(),
            env@.len() == i,
            forall|j: int| 0 <= j < i && (#[trigger] code@[j]) is Arg ==> env@[j] == c.arg,
            env_there(env@, code.kinds@.take(i as int), site(emitted(*b))),
            c.there(site(emitted(*b))),
            site(log).is_open(),
            emitted(*b) == code_entries(log, code@, env@, *c, i as nat),
            carries_on(log, emitted(*b)),
            same_place(site(log), site(emitted(*b))),
        decreases code@.len() - i,
    {
        let op: Op = code.ops[i];
        let ghost kinds = code.kinds@.take(i as int);
        let ghost before = emitted(*b);
        let ghost env0 = env@;
        proof {
            code.lemma_op(i as int);
        }
        let r: u32 = enter_op(b, op, &env, c, Ghost(kinds));
        env.push(r);
        proof {
            lemma_carry_on(log, before, emitted(*b));
            lemma_grown(*c, env0, kinds, site(before), r, kind_of(op, kinds));
            if op is Arg {
                lemma_arg_there(*c, env0, kinds, site(before));
            }
            assert(code.kinds@.take(i + 1) =~= kinds.push(kind_of(op, kinds)));
            lemma_entries_prefix(log, *code, env0, env@, *c, i as nat);
            lemma_entry_prefix(*code, env0, env@, *c, i as int);
        }
        i = i + 1;
    }
    proof {
        assert(code.kinds@.take(i as int) =~= code.kinds@);
    }
    env
}

/// Whether two sites are at the same place: the same current block, and the same blocks.
pub open spec fn same_place(s: Site, t: Site) -> bool {
    &&& t.at == s.at
    &&& t.blocks == s.blocks
    &&& t.filled == s.filled
    &&& t.sealed == s.sealed
}

/// The argument is among the values.
proof fn lemma_arg_there(c: Fixed, env: Seq<u32>, kinds: Seq<Kind>, s: Site)
    requires
        c.there(s),
        env.len() == kinds.len(),
        env_there(env, kinds, s),
    ensures
        env_there(env.push(c.arg), kinds.push(Kind::Word), s),
{
    let env2 = env.push(c.arg);
    let kinds2 = kinds.push(Kind::Word);
    assert forall|j: int| 0 <= j < env2.len() && kinds2[j] != Kind::Nothing implies s.values.contains_pair(
        #[trigger] env2[j],
        Some(machine_type(kinds2[j])),
    ) by {
        if j < env.len() {
            assert(s.values.contains_pair(env[j], Some(machine_type(kinds[j]))));
        }
    }
}

/// The entry of an operation depends on the earlier temporaries only.
pub proof fn lemma_entry_prefix(code: Code, env: Seq<u32>, longer: Seq<u32>, c: Fixed, i: int)
    requires
        code.wf(),
        0 <= i < code@.len(),
        i <= env.len() <= longer.len(),
        forall|j: int| 0 <= j < env.len() ==> env[j] == longer[j],
    ensures
        forall|r: u32| #[trigger] op_entry(code@[i], env, r, c) == op_entry(code@[i], longer, r, c),
{
    code.lemma_op(i);
}

/// The entries of the first operations depend on the first temporaries only.
proof fn lemma_entries_prefix(
    log: Seq<Clif>,
    code: Code,
    env: Seq<u32>,
    longer: Seq<u32>,
    c: Fixed,
    n: nat,
)
    requires
        code.wf(),
        n <= code@.len(),
        n <= env.len() <= longer.len(),
        forall|j: int| 0 <= j < env.len() ==> env[j] == longer[j],
    ensures
        code_entries(log, code@, env, c, n) == code_entries(log, code@, longer, c, n),
    decreases n,
{
    if n > 0 {
        lemma_entries_prefix(log, code, env, longer, c, (n - 1) as nat);
        lemma_entry_prefix(code, env, longer, c, n - 1);
    }
}

/// The numbers that the lowering of a node brought forth: the temporaries of its fragments, its
/// blocks, and other values.
pub ghost struct Names {
    pub first: Seq<u32>,
    pub second: Seq<u32>,
    pub blocks: Seq<u32>,
    pub values: Seq<u32>,
}

/// A list carried on by the write-back of the status word, where the block touches it.
pub open spec fn flushed_cpsr(log: Seq<Clif>, v: u32, c: Fixed) -> Seq<Clif> {
    if c.touches_cpsr {
        log.push(Clif::Use(c.cpsr, v)).push(Clif::Store(v, c.cpsr_ptr, 0))
    } else {
        log
    }
}

/// A list carried on by the start of a new block: instructions go there and no more branches to it
/// will come.
pub open spec fn entered_block(log: Seq<Clif>, block: u32) -> Seq<Clif> {
    log.push(Clif::Switch(block)).push(Clif::Seal(block))
}

/// A list carried on by the attempt to go on in a linked block; otherwise control goes to `merge`.
/// The names are two blocks and seven values.
pub open spec fn tried_chain(
    log: Seq<Clif>,
    slot: u64,
    merge: u32,
    n: Names,
    c: Fixed,
) -> Seq<Clif> {
    let l1 = log.push(Clif::Const(Ty::I64, slot, n.values[0])).push(
        Clif::Load(Ty::I64, n.values[0], 0, n.values[1]),
    ).push(Clif::NewBlock(n.blocks[0])).push(Clif::NewBlock(n.blocks[1])).push(
        Clif::NonZero(n.values[1], n.values[2]),
    ).push(Clif::Brif(n.values[2], n.blocks[0], merge));
    let l2 = entered_block(l1, n.blocks[0]).push(
        call_entry(Callee::ChainAbortCheck, seq![c.cpu_ctx], n.values[3], c),
    ).push(Clif::NonZero(n.values[3], n.values[4])).push(
        Clif::Brif(n.values[4], merge, n.blocks[1]),
    );
    flushed_cpsr(entered_block(l2, n.blocks[1]), n.values[5], c).push(
        Clif::CallIndirect(
            c.own_sig,
            n.values[1],
            seq![c.gpr, c.cpsr_ptr, c.pc_out, c.cpu_ctx, c.arg],
            Some(n.values[6]),
        ),
    ).push(Clif::Return(seq![n.values[6]]))
}

/// A list carried on by the entries that lower a node.
pub open spec fn lowered_node(
    log: Seq<Clif>,
    node: Node,
    n: Names,
    m: Names,
    c: Fixed,
) -> Seq<Clif> {
    match node {
        Node::Do(code) => lowered_code(log, code@, n.first, c),
        Node::When { cond, test, body } => {
            let l1 = lowered_code(log, cond@, n.first, c).push(Clif::NewBlock(n.blocks[0])).push(
                Clif::NewBlock(n.blocks[1]),
            ).push(Clif::Brif(n.first[test as int], n.blocks[0], n.blocks[1]));
            let l2 = lowered_code(entered_block(l1, n.blocks[0]), body@, n.second, c).push(
                Clif::Jump(n.blocks[1]),
            );
            entered_block(l2, n.blocks[1])
        },
        Node::Abort(code) => {
            let l1 = log.push(
                call_entry(Callee::ChainAbortCheck, seq![c.cpu_ctx], n.values[0], c),
            ).push(Clif::NonZero(n.values[0], n.values[1])).push(
                Clif::NewBlock(n.blocks[0]),
            ).push(Clif::NewBlock(n.blocks[1])).push(
                Clif::Brif(n.values[1], n.blocks[0], n.blocks[1]),
            );
            let l2 = lowered_code(entered_block(l1, n.blocks[0]), code@, n.first, c);
            let l3 = flushed_cpsr(l2, n.values[2], c).push(
                Clif::Const(Ty::I32, ABORTED as u64, n.values[3]),
            ).push(Clif::Return(seq![n.values[3]]));
            entered_block(l3, n.blocks[1])
        },
        Node::Chain(k) => {
            let l1 = log.push(Clif::NewBlock(n.blocks[0]));
            entered_block(tried_chain(l1, k, n.blocks[0], m, c), n.blocks[0])
        },
    }
}

/// Whether the temporaries of a node's fragments fit them.
pub open spec fn fit_names(node: Node, n: Names, c: Fixed) -> bool {
    match node {
        Node::Do(code) => fit_temps(code@, n.first, c),
        Node::When { cond, test, body } => fit_temps(cond@, n.first, c) && fit_temps(
            body@,
            n.second,
            c,
        ),
        Node::Abort(code) => fit_temps(code@, n.first, c),
        Node::Chain(_) => true,
    }
}

/// Starts a new block.
fn enter_block(b: &mut FunctionBuilder<'_>, block: u32)
    requires
        site(emitted(*old(b))).is_between(),
        site(emitted(*old(b))).awaits(block),
        !site(emitted(*old(b))).filled.contains(block),
    ensures
        carries_on(emitted(*old(b)), emitted(*final(b))),
        emitted(*final(b)) == entered_block(emitted(*old(b)), block),
        site(emitted(*final(b))) == (Site {
            at: Some(block),
            sealed: site(emitted(*old(b))).sealed.insert(block),
            ..site(emitted(*old(b)))
        }),
{
    broadcast use {lemma_site_push, lemma_carry_further};

    let ghost log = emitted(*b);
    proof {
        lemma_carry_none(log);
    }
    switch_to(b, block);
    seal(b, block);
}

/// Writes the status word back, where the block touches it.
fn flush_cpsr(b: &mut FunctionBuilder<'_>, c: &Fixed) -> (v: u32)
    requires
        site(emitted(*old(b))).is_open(),
        c.there(site(emitted(*old(b)))),
    ensures
        carries_on(emitted(*old(b)), emitted(*final(b))),
        emitted(*final(b)) == flushed_cpsr(emitted(*old(b)), v, *c),
        c.there(site(emitted(*final(b)))),
        same_place(site(emitted(*old(b))), site(emitted(*final(b)))),
        forall|x: u32| site(emitted(*old(b))).has(x) ==> #[trigger] site(emitted(*final(b))).has(x),
        site(emitted(*final(b))).sigs == site(emitted(*old(b))).sigs,
{
    broadcast use {lemma_site_push, lemma_carry_further};

    let ghost log = emitted(*b);
    proof {
        lemma_carry_none(log);
    }
    if !c.touches_cpsr {
        return 0;
    }
    let ghost s = site(emitted(*b));
    let v: u32 = use_var(b, c.cpsr);
    proof {
        lemma_grown(*c, Seq::empty(), Seq::empty(), s, v, Kind::Word);
    }
    ins_store(b, v, c.cpsr_ptr, 0);
    v
}

/// The fixed parts are still there after a new value.
proof fn lemma_more(c: Fixed, s: Site, r: u32, ty: Option<Ty>)
    requires
        c.there(s),
        !s.has(r),
    ensures
        c.there(s.with_value(r, ty)),
{
    assert forall|f: Callee| s.with_value(r, ty).funcs.contains_pair(
        #[trigger] c.funcs@[f.place()],
        given_back(f),
    ) by {
        assert(s.funcs.contains_pair(c.funcs@[f.place()], given_back(f)));
    }
}

/// Lowers the check for control to return to the dispatcher; gives the answer and whether it is
/// nonzero.
fn lower_abort_check(b: &mut FunctionBuilder<'_>, c: &Fixed) -> (r: (u32, u32))
    requires
        site(emitted(*old(b))).is_open(),
        c.there(site(emitted(*old(b)))),
    ensures
        carries_on(emitted(*old(b)), emitted(*final(b))),
        emitted(*final(b)) == emitted(*old(b)).push(
            call_entry(Callee::ChainAbortCheck, seq![c.cpu_ctx], r.0, *c),
        ).push(Clif::NonZero(r.0, r.1)),
        c.there(site(emitted(*final(b)))),
        same_place(site(emitted(*old(b))), site(emitted(*final(b)))),
        site(emitted(*final(b))).has(r.1),
        forall|x: u32| site(emitted(*old(b))).has(x) ==> #[trigger] site(emitted(*final(b))).has(x),
{
    broadcast use {lemma_site_push, lemma_carry_further};

    let ghost log = emitted(*b);
    proof {
        lemma_carry_none(log);
    }
    let ghost s0 = site(emitted(*b));
    let args: Vec<u32> = vec![c.cpu_ctx];
    assert(args@ =~= seq![c.cpu_ctx]);
    proof {
        assert(s0.funcs.contains_pair(
            c.funcs@[Callee::ChainAbortCheck.place()],
            given_back(Callee::ChainAbortCheck),
        ));
    }
    let abort: u32 = lower_call(b, Callee::ChainAbortCheck, &args, c);
    proof {
        lemma_more(*c, s0, abort, Some(Ty::I32));
    }
    let ghost s1 = site(emitted(*b));
    let abort_nz: u32 = ins_nonzero(b, abort);
    proof {
        lemma_more(*c, s1, abort_nz, Some(Ty::I8));
    }
    (abort, abort_nz)
}

/// Lowers the attempt to go on in a linked block; otherwise control goes to `merge`.
fn lower_chain(b: &mut FunctionBuilder<'_>, slot: u64, merge: u32, c: &Fixed) -> (n: Ghost<Names>)
    requires
        site(emitted(*old(b))).is_open(),
        c.there(site(emitted(*old(b)))),
        site(emitted(*old(b))).awaits(merge),
        !site(emitted(*old(b))).filled.contains(merge),
        site(emitted(*old(b))).at != Some(merge),
    ensures
        carries_on(emitted(*old(b)), emitted(*final(b))),
        emitted(*final(b)) == tried_chain(emitted(*old(b)), slot, merge, n@, *c),
        site(emitted(*final(b))).is_between(),
        c.there(site(emitted(*final(b)))),
        site(emitted(*final(b))).awaits(merge),
        !site(emitted(*final(b))).filled.contains(merge),
{
    broadcast use {lemma_site_push, lemma_carry_further};

    let ghost log = emitted(*b);
    proof {
        lemma_carry_none(log);
    }
    let ghost s0 = site(emitted(*b));
    let addr: u32 = ins_const(b, Ty::I64, slot);
    proof {
        lemma_more(*c, s0, addr, Some(Ty::I64));
    }
    let ghost s1 = site(emitted(*b));
    let ptr: u32 = ins_load(b, Ty::I64, addr, 0);
    proof {
        lemma_more(*c, s1, ptr, Some(Ty::I64));
    }
    let try_block: u32 = create_block(b);
    let call_block: u32 = create_block(b);
    let ghost s2 = site(emitted(*b));
    let nonnull: u32 = ins_nonzero(b, ptr);
    proof {
        lemma_more(*c, s2, nonnull, Some(Ty::I8));
    }
    ins_brif(b, nonnull, try_block, merge);
    let ghost l1 = emitted(*b);
    enter_block(b, try_block);
    proof {
        lemma_carry_on(log, l1, emitted(*b));
    }
    let ghost l2 = emitted(*b);
    let (abort, abort_nz): (u32, u32) = lower_abort_check(b, c);
    proof {
        lemma_carry_on(log, l2, emitted(*b));
    }
    ins_brif(b, abort_nz, merge, call_block);
    let ghost l3 = emitted(*b);
    enter_block(b, call_block);
    proof {
        lemma_carry_on(log, l3, emitted(*b));
    }
    let ghost l4 = emitted(*b);
    let cpsr: u32 = flush_cpsr(b, c);
    proof {
        lemma_carry_on(log, l4, emitted(*b));
    }
    let ghost s3 = site(emitted(*b));
    let args: Vec<u32> = vec![c.gpr, c.cpsr_ptr, c.pc_out, c.cpu_ctx, c.arg];
    assert(args@ =~= seq![c.gpr, c.cpsr_ptr, c.pc_out, c.cpu_ctx, c.arg]);
    let ret: u32 = match ins_call_indirect(b, c.own_sig, ptr, &args) {
        Some(v) => v,
        None => 0,
    };
    proof {
        lemma_more(*c, s3, ret, Some(Ty::I32));
    }
    let rets: Vec<u32> = vec![ret];
    assert(rets@ =~= seq![ret]);
    ins_return(b, &rets);
    let ghost n = Names {
        first: Seq::empty(),
        second: Seq::empty(),
        blocks: seq![try_block, call_block],
        values: seq![addr, ptr, nonnull, abort, abort_nz, cpsr, ret],
    };
    Ghost(n)
}

/// Names of nothing.
pub open spec fn no_names() -> Names {
    Names { first: Seq::empty(), second: Seq::empty(), blocks: Seq::empty(), values: Seq::empty() }
}

/// Lowers a node that runs a fragment under a condition.
fn lower_when(b: &mut FunctionBuilder<'_>, cond: &Code, test: usize, body: &Code, c: &Fixed) -> (n:
    Ghost<Names>)
    requires
        cond.wf(),
        is_kind(cond.kinds@, test, Kind::Truth),
        body.wf(),
        site(emitted(*old(b))).is_open(),
        c.there(site(emitted(*old(b)))),
    ensures
        fit_names(Node::When { cond: *cond, test, body: *body }, n@, *c),
        carries_on(emitted(*old(b)), emitted(*final(b))),
        emitted(*final(b)) == lowered_node(
            emitted(*old(b)),
            Node::When { cond: *cond, test, body: *body },
            n@,
            no_names(),
            *c,
        ),
        site(emitted(*final(b))).is_open(),
        c.there(site(emitted(*final(b)))),
{
    broadcast use {lemma_site_push, lemma_carry_further};

    let ghost log = emitted(*b);
    proof {
        lemma_carry_none(log);
    }
    let ghost l1 = emitted(*b);
    let first: Vec<u32> = lower_code(b, cond, c);
    proof {
        lemma_carry_on(log, l1, emitted(*b));
    }
    proof {
        assert(site(emitted(*b)).values.contains_pair(first@[test as int], Some(Ty::I8)));
    }
    let yes: u32 = create_block(b);
    let no: u32 = create_block(b);
    ins_brif(b, first[test], yes, no);
    let ghost l2 = emitted(*b);
    enter_block(b, yes);
    proof {
        lemma_carry_on(log, l2, emitted(*b));
    }
    let ghost l3 = emitted(*b);
    let second: Vec<u32> = lower_code(b, body, c);
    proof {
        lemma_carry_on(log, l3, emitted(*b));
    }
    ins_jump(b, no);
    let ghost l4 = emitted(*b);
    enter_block(b, no);
    proof {
        lemma_carry_on(log, l4, emitted(*b));
    }
    let ghost n = Names {
        first: first@,
        second: second@,
        blocks: seq![yes, no],
        values: Seq::empty(),
    };
    Ghost(n)
}

/// Lowers a node at which the block may be left.
fn lower_abort(b: &mut FunctionBuilder<'_>, code: &Code, c: &Fixed) -> (n: Ghost<Names>)
    requires
        code.wf(),
        site(emitted(*old(b))).is_open(),
        c.there(site(emitted(*old(b)))),
    ensures
        fit_names(Node::Abort(*code), n@, *c),
        carries_on(emitted(*old(b)), emitted(*final(b))),
        emitted(*final(b)) == lowered_node(
            emitted(*old(b)),
            Node::Abort(*code),
            n@,
            no_names(),
            *c,
        ),
        site(emitted(*final(b))).is_open(),
        c.there(site(emitted(*final(b)))),
{
    broadcast use {lemma_site_push, lemma_carry_further};

    let ghost log = emitted(*b);
    proof {
        lemma_carry_none(log);
    }
    let ghost l1 = emitted(*b);
    let (abort, abort_nz): (u32, u32) = lower_abort_check(b, c);
    proof {
        lemma_carry_on(log, l1, emitted(*b));
    }
    let leave: u32 = create_block(b);
    let stay: u32 = create_block(b);
    ins_brif(b, abort_nz, leave, stay);
    let ghost l2 = emitted(*b);
    enter_block(b, leave);
    proof {
        lemma_carry_on(log, l2, emitted(*b));
    }
    let ghost l3 = emitted(*b);
    let first: Vec<u32> = lower_code(b, code, c);
    proof {
        lemma_carry_on(log, l3, emitted(*b));
    }
    let ghost l4 = emitted(*b);
    let cpsr: u32 = flush_cpsr(b, c);
    proof {
        lemma_carry_on(log, l4, emitted(*b));
    }
    let ghost s = site(emitted(*b));
    let two: u32 = ins_const(b, Ty::I32, ABORTED as u64);
    proof {
        lemma_more(*c, s, two, Some(Ty::I32));
    }
    let rets: Vec<u32> = vec![two];
    assert(rets@ =~= seq![two]);
    ins_return(b, &rets);
    let ghost l5 = emitted(*b);
    enter_block(b, stay);
    proof {
        lemma_carry_on(log, l5, emitted(*b));
    }
    let ghost n = Names {
        first: first@,
        second: Seq::empty(),
        blocks: seq![leave, stay],
        values: seq![abort, abort_nz, cpsr, two],
    };
    Ghost(n)
}

/// Lowers a node.
fn lower_node(b: &mut FunctionBuilder<'_>, node: &Node, c: &Fixed) -> (nm: Ghost<(Names, Names)>)
    requires
        node_ok(*node),
        site(emitted(*old(b))).is_open(),
        c.there(site(emitted(*old(b)))),
    ensures
        fit_names(*node, nm@.0, *c),
        carries_on(emitted(*old(b)), emitted(*final(b))),
        emitted(*final(b)) == lowered_node(emitted(*old(b)), *node, nm@.0, nm@.1, *c),
        site(emitted(*final(b))).is_open(),
        c.there(site(emitted(*final(b)))),
{
    broadcast use {lemma_site_push, lemma_carry_further};

    let ghost log = emitted(*b);
    proof {
        lemma_carry_none(log);
    }
    match node {
        Node::Do(code) => {
            let first: Vec<u32> = lower_code(b, code, c);
            let ghost n = Names { first: first@, ..no_names() };
            Ghost((n, no_names()))
        },
        Node::When { cond, test, body } => {
            let n: Ghost<Names> = lower_when(b, cond, *test, body, c);
            Ghost((n@, no_names()))
        },
        Node::Abort(code) => {
            let n: Ghost<Names> = lower_abort(b, code, c);
            Ghost((n@, no_names()))
        },
        Node::Chain(k) => {
            let merge: u32 = create_block(b);
            let ghost l1 = emitted(*b);
            let m: Ghost<Names> = lower_chain(b, *k, merge, c);
            let ghost l2 = emitted(*b);
            enter_block(b, merge);
            proof {
                lemma_carry_on(log, l1, l2);
                lemma_carry_on(log, l2, emitted(*b));
            }
            let ghost n = Names { blocks: seq![merge], ..no_names() };
            Ghost((n, m@))
        },
    }
}

/// A list carried on by the entries that lower the first `n` nodes.
pub open spec fn lowered_nodes(
    log: Seq<Clif>,
    nodes: Seq<Node>,
    names: Seq<(Names, Names)>,
    c: Fixed,
    n: nat,
) -> Seq<Clif>
    decreases n,
{
    if n == 0 {
        log
    } else {
        lowered_node(
            lowered_nodes(log, nodes, names, c, (n - 1) as nat),
            nodes[n - 1],
            names[n - 1].0,
            names[n - 1].1,
            c,
        )
    }
}

/// Whether the temporaries of all fragments fit them.
pub open spec fn fit_all(nodes: Seq<Node>, names: Seq<(Names, Names)>, c: Fixed) -> bool {
    names.len() == nodes.len() && forall|k: int|
        0 <= k < nodes.len() ==> fit_names(#[trigger] nodes[k], names[k].0, c)
}

proof fn lemma_nodes_prefix(
    log: Seq<Clif>,
    nodes: Seq<Node>,
    names: Seq<(Names, Names)>,
    more: (Names, Names),
    c: Fixed,
    n: nat,
)
    requires
        n <= names.len(),
    ensures
        lowered_nodes(log, nodes, names, c, n) == lowered_nodes(log, nodes, names.push(more), c, n),
    decreases n,
{
    if n > 0 {
        lemma_nodes_prefix(log, nodes, names, more, c, (n - 1) as nat);
    }
}

/// Lowers all nodes of a program.
fn lower_nodes(b: &mut FunctionBuilder<'_>, p: &Program, c: &Fixed) -> (names: Ghost<
    Seq<(Names, Names)>,
>)
    requires
        p.wf(),
        site(emitted(*old(b))).is_open(),
        c.there(site(emitted(*old(b)))),
    ensures
        fit_all(p@, names@, *c),
        carries_on(emitted(*old(b)), emitted(*final(b))),
        emitted(*final(b)) == lowered_nodes(emitted(*old(b)), p@, names@, *c, p@.len()),
        site(emitted(*final(b))).is_open(),
        c.there(site(emitted(*final(b)))),
{
    let ghost log = emitted(*b);
    let ghost mut names: Seq<(Names, Names)> = Seq::empty();
    let mut i: usize = 0;
    proof {
        lemma_carry_none(log);
    }
    while i < p.nodes.len()
        invariant
            i <= p@.len(),
            p.wf(),
            names.len() == i,
            forall|k: int| 0 <= k < i ==> fit_names(#[trigger] p@[k], names[k].0, *c),
            emitted(*b) == lowered_nodes(log, p@, names, *c, i as nat),
            carries_on(log, emitted(*b)),
            site(emitted(*b)).is_open(),
            c.there(site(emitted(*b))),
        decreases p@.len() - i,
    {
        let ghost before = emitted(*b);
        proof {
            p.lemma_node(i as int);
        }
        let nm: Ghost<(Names, Names)> = lower_node(b, &p.nodes[i], c);
        proof {
            lemma_carry_on(log, before, emitted(*b));
            lemma_nodes_prefix(log, p@, names, nm@, *c, i as nat);
            names = names.push(nm@);
        }
        i = i + 1;
    }
    Ghost(names)
}

/// A list carried on by the import of the first `n` callees: a signature and a function for each.
/// `ids` are the numbers by which the module knows the functions.
pub open spec fn imported(
    log: Seq<Clif>,
    ids: Seq<u32>,
    sigs: Seq<u32>,
    funcs: Seq<u32>,
    callees: Seq<Callee>,
    n: nat,
) -> Seq<Clif>
    decreases n,
{
    if n == 0 {
        log
    } else {
        let f = callees[n - 1];
        imported(log, ids, sigs, funcs, callees, (n - 1) as nat).push(
            Clif::Sig(1, f.takes() as usize, f.answers(), sigs[n - 1]),
        ).push(Clif::Import(ids[n - 1], sigs[n - 1], funcs[n - 1]))
    }
}

/// All callees in order.
pub open spec fn all_callees() -> Seq<Callee> {
    seq![
        Callee::Load32,
        Callee::Store32,
        Callee::Load8,
        Callee::Store8,
        Callee::Load32Sequential,
        Callee::Store32Sequential,
        Callee::Store16,
        Callee::LoadWithIdle16,
        Callee::LoadWithIdle32,
        Callee::LoadWithIdle8,
        Callee::SetNextFetchNonseq,
        Callee::PayThumbFetchExtraNonseq,
        Callee::IdleCycle,
        Callee::ThumbFetchN,
        Callee::ChainAbortCheck,
        Callee::AbortMidBlock,
    ]
}

proof fn lemma_imported_prefix(
    log: Seq<Clif>,
    ids: Seq<u32>,
    sigs: Seq<u32>,
    funcs: Seq<u32>,
    sig: u32,
    func: u32,
    n: nat,
)
    requires
        n <= sigs.len(),
        n <= funcs.len(),
    ensures
        imported(log, ids, sigs, funcs, all_callees(), n) == imported(
            log,
            ids,
            sigs.push(sig),
            funcs.push(func),
            all_callees(),
            n,
        ),
    decreases n,
{
    if n > 0 {
        lemma_imported_prefix(log, ids, sigs, funcs, sig, func, (n - 1) as nat);
    }
}

/// Whether a site has what another has, in values, variables and signatures, at the same place.
pub open spec fn keeps(s: Site, t: Site) -> bool {
    &&& same_place(s, t)
    &&& s.values == t.values
    &&& s.vars == t.vars
    &&& forall|k: u32| #[trigger] s.sigs.contains_key(k) ==> t.sigs.contains_pair(k, s.sigs[k])
}

/// Imports all callees.
fn lower_imports(b: &mut FunctionBuilder<'_>, ids: &[u32; 16]) -> (r: (Vec<u32>, Ghost<Seq<u32>>))
    ensures
        carries_on(emitted(*old(b)), emitted(*final(b))),
        r.0@.len() == 16,
        emitted(*final(b)) == imported(
            emitted(*old(b)),
            ids@,
            r.1@,
            r.0@,
            all_callees(),
            16,
        ),
        keeps(site(emitted(*old(b))), site(emitted(*final(b)))),
        forall|f: Callee|
            site(emitted(*final(b))).funcs.contains_pair(
                #[trigger] r.0@[f.place()],
                given_back(f),
            ),
{
    let ghost log = emitted(*b);
    let mut funcs: Vec<u32> = Vec::new();
    let ghost mut sigs: Seq<u32> = Seq::empty();
    let mut k: usize = 0;
    proof {
        lemma_carry_none(log);
    }
    while k < 16
        invariant
            k <= 16,
            funcs@.len() == k,
            sigs.len() == k,
            emitted(*b) == imported(log, ids@, sigs, funcs@, all_callees(), k as nat),
            carries_on(log, emitted(*b)),
            keeps(site(log), site(emitted(*b))),
            forall|j: int|
                0 <= j < k ==> site(emitted(*b)).funcs.contains_pair(
                    #[trigger] funcs@[j],
                    given_back(all_callees()[j]),
                ),
        decreases 16 - k,
    {
        let f: Callee = Callee::at(k);
        assert(all_callees()[k as int] == f);
        let ghost l0 = emitted(*b);
        let ghost s0 = site(l0);
        let ghost funcs0 = funcs@;
        let words: usize = f.arity();
        let back: bool = f.returns_word();
        let sig: u32 = import_signature(b, 1, words, back);
        proof {
            lemma_site_push(l0, Clif::Sig(1, words, back, sig));
        }
        let ghost l1 = emitted(*b);
        let func: u32 = import_function(b, ids[k], sig);
        funcs.push(func);
        proof {
            lemma_site_push(l1, Clif::Import(ids@[k as int], sig, func));
            lemma_carry_push(l0, Clif::Sig(1, words, back, sig));
            lemma_carry_push(l1, Clif::Import(ids@[k as int], sig, func));
            lemma_carry_on(l0, l1, emitted(*b));
            lemma_carry_on(log, l0, emitted(*b));
            lemma_imported_prefix(log, ids@, sigs, funcs0, sig, func, k as nat);
            sigs = sigs.push(sig);
            assert forall|j: int| 0 <= j < k + 1 implies site(emitted(*b)).funcs.contains_pair(
                #[trigger] funcs@[j],
                given_back(all_callees()[j]),
            ) by {
                if j < k {
                    assert(s0.funcs.contains_pair(funcs0[j], given_back(all_callees()[j])));
                }
            }
        }
        k = k + 1;
    }
    proof {
        assert forall|f: Callee| site(emitted(*b)).funcs.contains_pair(
            #[trigger] funcs@[f.place()],
            given_back(f),
        ) by {
            assert(all_callees()[f.place()] == f);
        }
    }
    (funcs, Ghost(sigs))
}

/// The numbers that the lowering of a whole block brought forth besides its fixed parts.
pub ghost struct Whole {
    pub entry: u32,
    pub params: Seq<(u32, bool)>,
    pub sigs: Seq<u32>,
    /// The first values of the two variables.
    pub cpsr0: u32,
    pub took0: u32,
    pub nodes: Seq<(Names, Names)>,
    /// The last values of the two variables.
    pub cpsr1: u32,
    pub took1: u32,
}

/// A list carried on by the start of a function: the parameters, the imports, and the variables
/// with their first values.
pub open spec fn prologue(log: Seq<Clif>, ids: Seq<u32>, c: Fixed, w: Whole) -> Seq<Clif> {
    let l1 = log.push(Clif::NewBlock(w.entry)).push(Clif::Params(w.entry, w.params)).push(
        Clif::Sig(4, 1, true, c.own_sig),
    );
    let l2 = entered_block(imported(l1, ids, w.sigs, c.funcs@, all_callees(), 16), w.entry).push(
        Clif::NewVar(Ty::I32, c.cpsr),
    ).push(Clif::NewVar(Ty::I32, c.took));
    l2.push(
        if c.touches_cpsr {
            Clif::Load(Ty::I32, c.cpsr_ptr, 0, w.cpsr0)
        } else {
            Clif::Const(Ty::I32, 0, w.cpsr0)
        },
    ).push(Clif::Def(c.cpsr, w.cpsr0)).push(Clif::Const(Ty::I32, 0, w.took0)).push(
        Clif::Def(c.took, w.took0),
    )
}

/// A list carried on by the entries that lower a whole block: the start, the nodes, and the end
/// that gives the result back.
pub open spec fn lowered_block(
    log: Seq<Clif>,
    block: CompiledBlock,
    ids: Seq<u32>,
    c: Fixed,
    w: Whole,
) -> Seq<Clif> {
    let nodes = block.program@;
    flushed_cpsr(
        lowered_nodes(prologue(log, ids, c, w), nodes, w.nodes, c, nodes.len()),
        w.cpsr1,
        c,
    ).push(Clif::Use(c.took, w.took1)).push(Clif::Return(seq![w.took1]))
}

/// Whether the fixed parts are those of a function with the given parameters.
pub open spec fn takes_params(c: Fixed, block: CompiledBlock, ps: Seq<(u32, bool)>) -> bool {
    &&& ps.len() >= 5
    &&& c.gpr == ps[0].0
    &&& c.cpsr_ptr == ps[1].0
    &&& c.pc_out == ps[2].0
    &&& c.cpu_ctx == ps[3].0
    &&& c.arg == ps[4].0
    &&& ps[4].1
    &&& c.touches_cpsr == block.touches_cpsr
}

/// Whether lowering stopped because the function's parameters do not fit.
pub open spec fn stopped(log: Seq<Clif>, end: Seq<Clif>, entry: u32, ps: Seq<(u32, bool)>) -> bool {
    &&& end == log.push(Clif::NewBlock(entry)).push(Clif::Params(entry, ps))
    &&& ps.len() < 5 || !ps[4].1
}

pub proof fn lemma_params(s: Site, ps: Seq<(u32, bool)>, n: nat, k: int)
    requires
        n <= ps.len(),
        0 <= k < n,
        forall|i: int, j: int| 0 <= i < j < ps.len() ==> ps[i].0 != ps[j].0,
    ensures
        s.with_params(ps, n).values.contains_pair(
            ps[k].0,
            if ps[k].1 {
                Some(Ty::I32)
            } else {
                None
            },
        ),
        s.with_params(ps, n) == (Site { values: s.with_params(ps, n).values, ..s }),
    decreases n,
{
    if k < n - 1 {
        lemma_params(s, ps, (n - 1) as nat, k);
    } else if n > 1 {
        lemma_params(s, ps, (n - 1) as nat, 0);
    }
}

/// Lowers a block into a fresh builder. The builder's function must take four pointers and a word
/// and give a word back; `ids` are the numbers by which the module knows the callees, in order.
/// Tells whether the block was lowered; it is not if the builder is already at a block or if the
/// function has too few parameters.
pub fn lower_block(b: &mut FunctionBuilder<'_>, block: &CompiledBlock, ids: &[u32; 16]) -> (built:
    bool)
    requires
        block.wf(),
    ensures
        carries_on(emitted(*old(b)), emitted(*final(b))),
        site(emitted(*old(b))).at is Some ==> !built && emitted(*final(b)) == emitted(*old(b)),
        site(emitted(*old(b))).at is None && !built ==> exists|entry: u32, ps: Seq<(u32, bool)>|
            #[trigger] stopped(emitted(*old(b)), emitted(*final(b)), entry, ps),
        built ==> exists|c: Fixed, w: Whole|
            emitted(*final(b)) == #[trigger] lowered_block(
                emitted(*old(b)),
                *block,
                ids@,
                c,
                w,
            ) && takes_params(c, *block, w.params) && fit_all(block.program@, w.nodes, c),
{
    broadcast use {lemma_site_push, lemma_carry_further};

    let ghost log = emitted(*b);
    proof {
        lemma_carry_none(log);
    }
    if current_block(b).is_some() {
        return false;
    }
    let entry: u32 = create_block(b);
    let ghost s0 = site(emitted(*b));
    let params: Vec<(u32, bool)> = append_params(b, entry);
    if params.len() < 5 || !params[4].1 {
        assert(stopped(log, emitted(*b), entry, params@));
        return false;
    }
    proof {
        lemma_params(s0, params@, params@.len(), 0);
        lemma_params(s0, params@, params@.len(), 1);
        lemma_params(s0, params@, params@.len(), 2);
        lemma_params(s0, params@, params@.len(), 3);
        lemma_params(s0, params@, params@.len(), 4);
    }
    let own_sig: u32 = import_signature(b, 4, 1, true);
    let ghost s1 = site(emitted(*b));
    let ghost l1 = emitted(*b);
    let (funcs, sigs): (Vec<u32>, Ghost<Seq<u32>>) = lower_imports(b, ids);
    let ghost l2 = emitted(*b);
    assert(s1.sigs.contains_key(own_sig));
    enter_block(b, entry);
    proof {
        lemma_carry_on(log, l1, l2);
        lemma_carry_on(log, l2, emitted(*b));
    }
    let cpsr: u32 = declare_word_var(b);
    let took: u32 = declare_word_var(b);
    let c = Fixed {
        gpr: params[0].0,
        cpsr_ptr: params[1].0,
        pc_out: params[2].0,
        cpu_ctx: params[3].0,
        arg: params[4].0,
        cpsr,
        took,
        own_sig,
        funcs,
        touches_cpsr: block.touches_cpsr,
    };
    assert(c.there(site(emitted(*b))));
    let ghost s2 = site(emitted(*b));
    let cpsr0: u32 = if block.touches_cpsr {
        ins_load(b, Ty::I32, c.cpsr_ptr, 0)
    } else {
        ins_const(b, Ty::I32, 0)
    };
    proof {
        lemma_more(c, s2, cpsr0, Some(Ty::I32));
    }
    def_var(b, cpsr, cpsr0);
    let ghost s3 = site(emitted(*b));
    let took0: u32 = ins_const(b, Ty::I32, 0);
    proof {
        lemma_more(c, s3, took0, Some(Ty::I32));
    }
    def_var(b, took, took0);
    let ghost l3 = emitted(*b);
    let nodes: Ghost<Seq<(Names, Names)>> = lower_nodes(b, &block.program, &c);
    let ghost l4 = emitted(*b);
    let cpsr1: u32 = flush_cpsr(b, &c);
    proof {
        lemma_carry_on(log, l3, l4);
        lemma_carry_on(log, l4, emitted(*b));
    }
    let took1: u32 = use_var(b, took);
    let rets: Vec<u32> = vec![took1];
    assert(rets@ =~= seq![took1]);
    ins_return(b, &rets);
    proof {
        let w = Whole {
            entry,
            params: params@,
            sigs: sigs@,
            cpsr0,
            took0,
            nodes: nodes@,
            cpsr1,
            took1,
        };
        assert(emitted(*b) == lowered_block(log, *block, ids@, c, w));
        assert(takes_params(c, *block, w.params));
    }
    true
}

} // verus!
