//! Compiled blocks: fragments joined by control nodes, and how they run.

use vstd::prelude::*;
use crate::bits::{shift_right_signed, truth};
use crate::dynarec::bus::{Bus, after_calls, dispatch, last_reply};
use crate::dynarec::ir::{
    BinOp, BusCall, Callee, Cc, Code, Cpu, ImmOp, Kind, Mach, Op, bin_value, holds, imm_value,
    is_kind, op_ok, run,
};
use crate::text::{decimal, lemma_decimal_digits, lemma_decimal_injective, push_decimal};
use vstd::string::*;

verus! {

/// One node of a compiled block.
#[derive(Debug)]
pub enum Node {
    /// Runs a fragment.
    Do(Code),
    /// Runs `body` if the temporary `test` of `cond` is nonzero.
    When { cond: Code, test: usize, body: Code },
    /// Asks whether the block must be left here; if so, runs the fragment and leaves with 2.
    Abort(Code),
    /// Tries to go on in the block that a slot links to.
    Chain(u64),
}

/// How a block ends.
#[derive(Clone, Copy, PartialEq, Eq, Structural, Debug)]
pub enum Exit {
    /// Back to the dispatcher with a result.
    Return(u32),
    /// On to the block that the slot links to.
    Chain(u64),
}

/// The state that a block reached, and how it ended if it did.
pub ghost struct Outcome {
    pub cpu: Cpu,
    pub exit: Option<Exit>,
}

/// The result that tells the dispatcher that a block was left in the middle.
pub const ABORTED: u32 = 2;

pub open spec fn node_ok(node: Node) -> bool {
    match node {
        Node::Do(c) | Node::Abort(c) => c.wf(),
        Node::When { cond, test, body } => cond.wf() && is_kind(cond.kinds@, test, Kind::Truth)
            && body.wf(),
        Node::Chain(_) => true,
    }
}

/// The attempt to go on in a linked block: if the slot is linked and no abort is due.
pub open spec fn chained(slot: u64, linked: bool, s: Cpu) -> Outcome {
    let t = s.called(Callee::ChainAbortCheck, 0, 0, 0);
    if !linked {
        Outcome { cpu: s, exit: None }
    } else if t.answer() != 0 {
        Outcome { cpu: t, exit: None }
    } else {
        Outcome { cpu: t, exit: Some(Exit::Chain(slot)) }
    }
}

/// What one node does.
pub open spec fn node_step(node: Node, linked: bool, s: Cpu) -> Outcome {
    match node {
        Node::Do(c) => Outcome { cpu: run(c@, s).cpu, exit: None },
        Node::When { cond, test, body } => {
            let m = run(cond@, s);
            if m.env[test as int] != 0 {
                Outcome { cpu: run(body@, m.cpu).cpu, exit: None }
            } else {
                Outcome { cpu: m.cpu, exit: None }
            }
        },
        Node::Abort(c) => {
            let t = s.called(Callee::ChainAbortCheck, 0, 0, 0);
            if t.answer() != 0 {
                Outcome { cpu: run(c@, t).cpu, exit: Some(Exit::Return(ABORTED)) }
            } else {
                Outcome { cpu: t, exit: None }
            }
        },
        Node::Chain(k) => chained(k, linked, s),
    }
}

/// An outcome carried on through one more node.
pub open spec fn then_node(o: Outcome, node: Node, linked: bool) -> Outcome {
    if o.exit is Some {
        o
    } else {
        node_step(node, linked, o.cpu)
    }
}

/// What a list of nodes does.
pub open spec fn run_nodes(nodes: Seq<Node>, linked: bool, s: Cpu) -> Outcome
    decreases nodes.len(),
{
    if nodes.len() == 0 {
        Outcome { cpu: s, exit: None }
    } else {
        then_node(run_nodes(nodes.drop_last(), linked, s), nodes.last(), linked)
    }
}

/// A list of nodes under construction.
#[derive(Debug)]
pub struct Program {
    pub nodes: Vec<Node>,
}

impl View for Program {
    type V = Seq<Node>;

    open spec fn view(&self) -> Seq<Node> {
        self.nodes@
    }
}

impl Program {
    pub closed spec fn wf(&self) -> bool {
        forall|i: int| 0 <= i < self@.len() ==> node_ok(#[trigger] self@[i])
    }

    pub proof fn lemma_node(&self, i: int)
        requires
            self.wf(),
            0 <= i < self@.len(),
        ensures
            node_ok(self@[i]),
    {
    }

    pub fn new() -> (p: Program)
        ensures
            p.wf(),
            forall|linked: bool, s: Cpu| #[trigger]
                run_nodes(p@, linked, s) == (Outcome { cpu: s, exit: None }),
    {
        Program { nodes: Vec::new() }
    }

    /// Appends a node.
    pub fn push(&mut self, node: Node)
        requires
            old(self).wf(),
            node_ok(node),
        ensures
            final(self).wf(),
            forall|linked: bool, s: Cpu| #[trigger]
                run_nodes(final(self)@, linked, s) == then_node(
                    run_nodes(old(self)@, linked, s),
                    node,
                    linked,
                ),
    {
        self.nodes.push(node);
        proof {
            assert(self@.drop_last() =~= old(self)@);
        }
    }
}

/// The registers that compiled code works on.
#[derive(Debug)]
pub struct Frame {
    pub gpr: [u32; 15],
    pub cpsr: u32,
    pub pc_out: u32,
    pub took: u32,
    pub arg: u32,
}

/// Whether a frame and a bus stand for a guest state that began on the bus `start`.
pub open spec fn stands_for<B: Bus>(f: Frame, bus: B::State, start: B::State, s: Cpu) -> bool {
    &&& s.gpr == f.gpr@
    &&& s.cpsr == f.cpsr
    &&& s.pc_out == f.pc_out
    &&& s.took == f.took
    &&& s.arg == f.arg
    &&& bus == after_calls::<B>(start, s.calls)
    &&& s.bus == (|calls: Seq<BusCall>| last_reply::<B>(start, calls))
}

/// One more call on a bus that stands where a state does.
proof fn lemma_called<B: Bus>(f: Frame, bus: B::State, start: B::State, s: Cpu, call: BusCall)
    requires
        stands_for::<B>(f, bus, start, s),
    ensures
        stands_for::<B>(f, B::next(bus, call), start, s.called(call.to, call.a, call.b, call.c)),
        s.called(call.to, call.a, call.b, call.c).answer() == B::reply(bus, call),
{
    assert(s.calls.push(call).drop_last() =~= s.calls);
}

fn exec_bin(op: BinOp, x: u32, y: u32) -> (r: u32)
    ensures
        r == bin_value(op, x, y),
{
    match op {
        BinOp::Add => x.wrapping_add(y),
        BinOp::Sub => x.wrapping_sub(y),
        BinOp::And => x & y,
        BinOp::Or => x | y,
        BinOp::Xor => x ^ y,
    }
}

fn exec_imm(op: ImmOp, x: u32, n: u32) -> (r: u32)
    requires
        (op == ImmOp::Shl || op == ImmOp::Ushr || op == ImmOp::Sshr) ==> n < 32,
    ensures
        r == imm_value(op, x, n),
{
    match op {
        ImmOp::Add => x.wrapping_add(n),
        ImmOp::And => x & n,
        ImmOp::Or => x | n,
        ImmOp::Shl => x << n,
        ImmOp::Ushr => x >> n,
        ImmOp::Sshr => shift_right_signed(x, n),
    }
}

fn exec_test(cc: Cc, x: u32, y: u32) -> (r: u32)
    ensures
        r == truth(holds(cc, x, y)),
{
    let b: bool = match cc {
        Cc::Equal => x == y,
        Cc::NotEqual => x != y,
        Cc::UnsignedLessThan => x < y,
        Cc::UnsignedGreaterThanOrEqual => x >= y,
    };
    if b {
        1
    } else {
        0
    }
}

/// Runs one operation: updates the frame and the bus, and returns the temporary it defines.
fn exec_op<B: Bus>(
    op: Op,
    f: &mut Frame,
    bus: &mut B,
    env: &Vec<u32>,
    Ghost(start): Ghost<B::State>,
    Ghost(m): Ghost<Mach>,
    Ghost(kinds): Ghost<Seq<Kind>>,
) -> (v: u32)
    requires
        op_ok(op, kinds),
        kinds.len() == env@.len(),
        m.env == env@,
        stands_for::<B>(*old(f), old(bus).state(), start, m.cpu),
    ensures
        stands_for::<B>(*final(f), final(bus).state(), start, m.acted(op)),
        v == m.val(op),
{
    match op {
        Op::Const(k) => k,
        Op::True => 1,
        Op::Arg => f.arg,
        Op::Gpr(r) => f.gpr[r],
        Op::SetGpr(r, t) => {
            f.gpr[r] = env[t];
            0
        },
        Op::Cpsr => f.cpsr,
        Op::SetCpsr(t) => {
            f.cpsr = env[t];
            0
        },
        Op::SetPc(t) => {
            f.pc_out = env[t];
            0
        },
        Op::SetTook(t) => {
            f.took = env[t];
            0
        },
        Op::Bin(o, x, y) => exec_bin(o, env[x], env[y]),
        Op::Imm(o, x, k) => exec_imm(o, env[x], k),
        Op::Not(x) => !env[x],
        Op::Test(cc, x, y) => exec_test(cc, env[x], env[y]),
        Op::Widen(x) => env[x],
        Op::Call0(_) | Op::Call1(..) | Op::Call2(..) | Op::Call3(..) => {
            let call: BusCall = match op {
                Op::Call1(to, x) => BusCall { to, a: env[x], b: 0, c: 0 },
                Op::Call2(to, x, y) => BusCall { to, a: env[x], b: env[y], c: 0 },
                Op::Call3(to, x, y, z) => BusCall { to, a: env[x], b: env[y], c: env[z] },
                Op::Call0(to) => BusCall { to, a: 0, b: 0, c: 0 },
                _ => BusCall { to: Callee::IdleCycle, a: 0, b: 0, c: 0 },
            };
            proof {
                lemma_called::<B>(*f, bus.state(), start, m.cpu, call);
            }
            dispatch(bus, call)
        },
    }
}

/// Runs a fragment and returns its temporaries.
fn exec_code<B: Bus>(
    code: &Code,
    f: &mut Frame,
    bus: &mut B,
    Ghost(start): Ghost<B::State>,
    Ghost(s): Ghost<Cpu>,
) -> (env: Vec<u32>)
    requires
        code.wf(),
        stands_for::<B>(*old(f), old(bus).state(), start, s),
    ensures
        stands_for::<B>(*final(f), final(bus).state(), start, run(code@, s).cpu),
        env@ == run(code@, s).env,
        env@.len() == code@.len(),
{
    let mut env: Vec<u32> = Vec::new();
    let mut i: usize = 0;
    proof {
        assert(code@.subrange(0, 0) =~= Seq::<Op>::empty());
    }
    while i < code.ops.len()
        invariant
            code.wf(),
            i <= code@.len(),
            env@ == run(code@.subrange(0, i as int), s).env,
            env@.len() == i,
            stands_for::<B>(*f, bus.state(), start, run(code@.subrange(0, i as int), s).cpu),
        decreases code@.len() - i,
    {
        let ghost prefix = code@.subrange(0, i as int);
        let ghost m = run(prefix, s);
        proof {
            code.lemma_op(i as int);
            let next = code@.subrange(0, i + 1);
            assert(next.drop_last() =~= prefix);
            assert(next.last() == code@[i as int]);
            assert(run(next, s) == m.step(code@[i as int]));
        }
        let v: u32 = exec_op(
            code.ops[i],
            f,
            bus,
            &env,
            Ghost(start),
            Ghost(m),
            Ghost(code.kinds@.take(i as int)),
        );
        env.push(v);
        i = i + 1;
    }
    proof {
        assert(code@.subrange(0, code@.len() as int) =~= code@);
    }
    env
}

/// Asks whether control must return to the dispatcher.
fn exec_abort_check<B: Bus>(
    f: &Frame,
    bus: &mut B,
    Ghost(start): Ghost<B::State>,
    Ghost(s): Ghost<Cpu>,
) -> (r: bool)
    requires
        stands_for::<B>(*f, old(bus).state(), start, s),
    ensures
        stands_for::<B>(*f, final(bus).state(), start, s.called(Callee::ChainAbortCheck, 0, 0, 0)),
        r == (s.called(Callee::ChainAbortCheck, 0, 0, 0).answer() != 0),
{
    let call = BusCall { to: Callee::ChainAbortCheck, a: 0, b: 0, c: 0 };
    proof {
        lemma_called::<B>(*f, bus.state(), start, s, call);
    }
    dispatch(bus, call) != 0
}

/// Tries to go on in a linked block.
fn exec_chain<B: Bus>(
    slot: u64,
    linked: bool,
    f: &Frame,
    bus: &mut B,
    Ghost(start): Ghost<B::State>,
    Ghost(s): Ghost<Cpu>,
) -> (exit: Option<Exit>)
    requires
        stands_for::<B>(*f, old(bus).state(), start, s),
    ensures
        stands_for::<B>(*f, final(bus).state(), start, chained(slot, linked, s).cpu),
        exit == chained(slot, linked, s).exit,
{
    if !linked {
        return None;
    }
    if exec_abort_check(f, bus, Ghost(start), Ghost(s)) {
        None
    } else {
        Some(Exit::Chain(slot))
    }
}

/// The temporary that a node tests exists.
proof fn lemma_test_in_range(node: Node)
    requires
        node_ok(node),
    ensures
        node matches Node::When { cond, test, body } ==> test < cond@.len(),
{
    match node {
        Node::When { cond, test, body } => {
            cond.lemma_sizes();
        },
        _ => {},
    }
}

/// Runs one node.
fn exec_node<B: Bus>(
    node: &Node,
    linked: bool,
    f: &mut Frame,
    bus: &mut B,
    Ghost(start): Ghost<B::State>,
    Ghost(s): Ghost<Cpu>,
) -> (exit: Option<Exit>)
    requires
        node_ok(*node),
        stands_for::<B>(*old(f), old(bus).state(), start, s),
    ensures
        stands_for::<B>(*final(f), final(bus).state(), start, node_step(*node, linked, s).cpu),
        exit == node_step(*node, linked, s).exit,
{
    proof {
        lemma_test_in_range(*node);
    }
    match node {
        Node::Do(c) => {
            exec_code(c, f, bus, Ghost(start), Ghost(s));
            None
        },
        Node::When { cond, test, body } => {
            let env = exec_code(cond, f, bus, Ghost(start), Ghost(s));
            if env[*test] != 0 {
                exec_code(body, f, bus, Ghost(start), Ghost(run(cond@, s).cpu));
            }
            None
        },
        Node::Abort(c) => {
            if exec_abort_check(f, bus, Ghost(start), Ghost(s)) {
                exec_code(
                    c,
                    f,
                    bus,
                    Ghost(start),
                    Ghost(s.called(Callee::ChainAbortCheck, 0, 0, 0)),
                );
                Some(Exit::Return(ABORTED))
            } else {
                None
            }
        },
        Node::Chain(k) => exec_chain(*k, linked, f, bus, Ghost(start), Ghost(s)),
    }
}

/// Runs a list of nodes to the first exit.
pub fn exec_nodes<B: Bus>(
    p: &Program,
    linked: bool,
    f: &mut Frame,
    bus: &mut B,
    Ghost(s): Ghost<Cpu>,
) -> (exit: Option<Exit>)
    requires
        p.wf(),
        stands_for::<B>(*old(f), old(bus).state(), old(bus).state(), s),
    ensures
        stands_for::<B>(
            *final(f),
            final(bus).state(),
            old(bus).state(),
            run_nodes(p@, linked, s).cpu,
        ),
        exit == run_nodes(p@, linked, s).exit,
{
    let ghost start = bus.state();
    let mut exit: Option<Exit> = None;
    let mut i: usize = 0;
    proof {
        assert(p@.subrange(0, 0) =~= Seq::<Node>::empty());
    }
    while i < p.nodes.len()
        invariant
            p.wf(),
            i <= p@.len(),
            start == old(bus).state(),
            stands_for::<B>(
                *f,
                bus.state(),
                start,
                run_nodes(p@.subrange(0, i as int), linked, s).cpu,
            ),
            exit == run_nodes(p@.subrange(0, i as int), linked, s).exit,
        decreases p@.len() - i,
    {
        let ghost prefix = p@.subrange(0, i as int);
        let ghost o = run_nodes(prefix, linked, s);
        proof {
            p.lemma_node(i as int);
            let next = p@.subrange(0, i + 1);
            assert(next.drop_last() =~= prefix);
            assert(next.last() == p@[i as int]);
            assert(run_nodes(next, linked, s) == then_node(o, p@[i as int], linked));
        }
        if exit.is_none() {
            exit = exec_node(&p.nodes[i], linked, f, bus, Ghost(start), Ghost(o.cpu));
        }
        i = i + 1;
    }
    proof {
        assert(p@.subrange(0, p@.len() as int) =~= p@);
    }
    exit
}

/// What a block was compiled from.
#[derive(Clone, Copy, PartialEq, Eq, Structural, Debug)]
pub enum BlockKind {
    /// A copy of R1 into R0.
    MovStub,
    /// One word load into R0.
    BusStub,
    /// ARM data processing.
    ImmBlock,
    /// ARM data processing with an optional branch at the end.
    BranchBlock,
    /// ARM data processing, loads and stores.
    MemBlock,
    /// Thumb data processing.
    ThumbBlock,
    /// Thumb data processing, loads and stores.
    ThumbMemBlock,
    /// Thumb data processing with an optional branch at the end.
    ThumbBranchBlock,
    /// Any supported Thumb block.
    ThumbUnified,
    /// A single Thumb pop of the program counter.
    ThumbPopPc,
}

/// A compiled block.
#[derive(Debug)]
pub struct CompiledBlock {
    pub kind: BlockKind,
    /// The block's number within its compiler, counted from one.
    pub id: u64,
    /// Whether the status word is read on entry and written on exit.
    pub touches_cpsr: bool,
    pub program: Program,
}

/// How a block whose nodes had an outcome ends: where no node left it, with the result it set.
pub open spec fn finished(o: Outcome) -> Exit {
    match o.exit {
        Some(e) => e,
        None => Exit::Return(o.cpu.took),
    }
}

/// The guest state in which a block starts.
pub open spec fn entered<B: Bus>(
    gpr: Seq<u32>,
    cpsr: u32,
    pc_out: u32,
    arg: u32,
    bus: B::State,
) -> Cpu {
    Cpu {
        gpr,
        cpsr,
        pc_out,
        took: 0,
        arg,
        calls: Seq::empty(),
        bus: |calls: Seq<BusCall>| last_reply::<B>(bus, calls),
    }
}

impl BlockKind {
    /// What the names of compiled blocks of this kind begin with.
    pub open spec fn name_prefix(self) -> Seq<char> {
        match self {
            BlockKind::MovStub => "dynarec_stub_"@,
            BlockKind::BusStub => "dynarec_bus_stub_"@,
            BlockKind::ImmBlock => "dynarec_imm_block_"@,
            BlockKind::BranchBlock => "dynarec_branch_block_"@,
            BlockKind::MemBlock => "dynarec_mem_block_"@,
            BlockKind::ThumbBlock => "dynarec_thumb_block_"@,
            BlockKind::ThumbMemBlock => "dynarec_thumb_mem_block_"@,
            BlockKind::ThumbBranchBlock => "dynarec_thumb_branch_block_"@,
            BlockKind::ThumbUnified => "dynarec_thumb_unified_"@,
            BlockKind::ThumbPopPc => "dynarec_thumb_pop_pc_"@,
        }
    }

    fn prefix(self) -> (s: &'static str)
        ensures
            s@ == self.name_prefix(),
    {
        match self {
            BlockKind::MovStub => "dynarec_stub_",
            BlockKind::BusStub => "dynarec_bus_stub_",
            BlockKind::ImmBlock => "dynarec_imm_block_",
            BlockKind::BranchBlock => "dynarec_branch_block_",
            BlockKind::MemBlock => "dynarec_mem_block_",
            BlockKind::ThumbBlock => "dynarec_thumb_block_",
            BlockKind::ThumbMemBlock => "dynarec_thumb_mem_block_",
            BlockKind::ThumbBranchBlock => "dynarec_thumb_branch_block_",
            BlockKind::ThumbUnified => "dynarec_thumb_unified_",
            BlockKind::ThumbPopPc => "dynarec_thumb_pop_pc_",
        }
    }
}

/// The name of a compiled block: what its kind begins with, and its number.
pub open spec fn block_name(kind: BlockKind, id: u64) -> Seq<char> {
    kind.name_prefix() + decimal(id as nat)
}

proof fn lemma_prefix_ends(kind: BlockKind)
    ensures
        kind.name_prefix().len() > 0,
        kind.name_prefix().last() == '_',
{
    reveal_strlit("dynarec_stub_");
    reveal_strlit("dynarec_bus_stub_");
    reveal_strlit("dynarec_imm_block_");
    reveal_strlit("dynarec_branch_block_");
    reveal_strlit("dynarec_mem_block_");
    reveal_strlit("dynarec_thumb_block_");
    reveal_strlit("dynarec_thumb_mem_block_");
    reveal_strlit("dynarec_thumb_branch_block_");
    reveal_strlit("dynarec_thumb_unified_");
    reveal_strlit("dynarec_thumb_pop_pc_");
}

/// Blocks with different numbers have different names, whatever their kinds.
pub proof fn law_names_are_distinct(kind1: BlockKind, id1: u64, kind2: BlockKind, id2: u64)
    requires
        id1 != id2,
    ensures
        block_name(kind1, id1) != block_name(kind2, id2),
{
    let p1 = kind1.name_prefix();
    let p2 = kind2.name_prefix();
    let d1 = decimal(id1 as nat);
    let d2 = decimal(id2 as nat);
    lemma_prefix_ends(kind1);
    lemma_prefix_ends(kind2);
    lemma_decimal_digits(id1 as nat);
    lemma_decimal_digits(id2 as nat);
    if p1 + d1 == p2 + d2 {
        assert((p1 + d1).len() == p1.len() + d1.len());
        assert((p2 + d2).len() == p2.len() + d2.len());
        if p1.len() < p2.len() {
            let i = p2.len() - 1;
            assert((p1 + d1)[i] == d1[i - p1.len()]);
            assert((p2 + d2)[i] == '_');
        } else if p2.len() < p1.len() {
            let i = p1.len() - 1;
            assert((p2 + d2)[i] == d2[i - p2.len()]);
            assert((p1 + d1)[i] == '_');
        }
        assert(d1 =~= (p1 + d1).skip(p1.len() as int));
        assert(d2 =~= (p2 + d2).skip(p2.len() as int));
        lemma_decimal_injective(id1 as nat, id2 as nat);
    }
}

impl CompiledBlock {
    /// The name under which the block's function is declared.
    pub fn symbol_name(&self) -> (s: String)
        ensures
            s@ == block_name(self.kind, self.id),
    {
        let mut s = String::new();
        s.append(self.kind.prefix());
        push_decimal(&mut s, self.id);
        assert(s@ =~= block_name(self.kind, self.id));
        s
    }

    pub open spec fn wf(&self) -> bool {
        self.program.wf()
    }

    /// What the block does from a guest state.
    pub open spec fn outcome(&self, linked: bool, s: Cpu) -> Outcome {
        run_nodes(self.program@, linked, s)
    }

    /// Runs the block on a register file, a status word, a branch target and a bus. `linked` says
    /// whether the block's chain slot holds a successor.
    pub fn call<B: Bus>(
        &self,
        gpr: &mut [u32; 15],
        cpsr: &mut u32,
        pc_out: &mut u32,
        linked: bool,
        bus: &mut B,
    ) -> (exit: Exit)
        requires
            self.wf(),
        ensures
            ({
                let o = self.outcome(
                    linked,
                    entered::<B>(old(gpr)@, *old(cpsr), *old(pc_out), 0, old(bus).state()),
                );
                &&& final(gpr)@ == o.cpu.gpr
                &&& *final(cpsr) == o.cpu.cpsr
                &&& *final(pc_out) == o.cpu.pc_out
                &&& final(bus).state() == after_calls::<B>(old(bus).state(), o.cpu.calls)
                &&& exit == finished(o)
            }),
    {
        let mut f = Frame { gpr: *gpr, cpsr: *cpsr, pc_out: *pc_out, took: 0, arg: 0 };
        let ghost s = entered::<B>(gpr@, *cpsr, *pc_out, 0, bus.state());
        let exit: Option<Exit> = exec_nodes(&self.program, linked, &mut f, bus, Ghost(s));
        *gpr = f.gpr;
        *cpsr = f.cpsr;
        *pc_out = f.pc_out;
        match exit {
            Some(e) => e,
            None => Exit::Return(f.took),
        }
    }

    /// Runs a stub on a register file and a bus, with one extra argument.
    pub fn call_stub<B: Bus>(&self, gpr: &mut [u32; 15], bus: &mut B, arg: u32)
        requires
            self.wf(),
        ensures
            ({
                let o = self.outcome(false, entered::<B>(old(gpr)@, 0, 0, arg, old(bus).state()));
                &&& final(gpr)@ == o.cpu.gpr
                &&& final(bus).state() == after_calls::<B>(old(bus).state(), o.cpu.calls)
            }),
    {
        let mut f = Frame { gpr: *gpr, cpsr: 0, pc_out: 0, took: 0, arg };
        let ghost s = entered::<B>(gpr@, 0, 0, arg, bus.state());
        exec_nodes(&self.program, false, &mut f, bus, Ghost(s));
        *gpr = f.gpr;
    }
}

} // verus!
