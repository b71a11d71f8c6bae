//! The Cranelift function builder, as the list of what was done with it.
//!
//! Blocks, values, variables, functions and signatures are held by their numbers.

use vstd::prelude::*;
use crate::dynarec::ir::{BinOp, Cc, ImmOp};
use crate::dynarec::meaning::{reads_right, set_here};
use cranelift::codegen::ir::{self, FuncRef, SigRef, UserExternalName};
use cranelift::frontend::FunctionBuilder;
use cranelift::prelude::{types, AbiParam, InstBuilder, IntCC, MemFlags, Signature, Value, Variable};

verus! {

/// `cranelift::frontend::FunctionBuilder`: a function under construction.
#[verifier::external_type_specification]
#[verifier::external_body]
pub struct ExFunctionBuilder<'a>(cranelift::frontend::FunctionBuilder<'a>);

/// The machine types in use.
#[derive(Clone, Copy, PartialEq, Eq, Structural, Debug)]
pub enum Ty {
    I8,
    I32,
    I64,
}

/// One thing done with a function builder. The last number of an entry is what it brought forth.
pub ghost enum Clif {
    /// A new block.
    NewBlock(u32),
    /// The function's parameters added to a block, each with whether it is a 32-bit word.
    Params(u32, Seq<(u32, bool)>),
    /// The block that instructions go to from now on.
    Switch(u32),
    /// A block whose predecessors are all known.
    Seal(u32),
    /// A new variable.
    NewVar(Ty, u32),
    /// A variable set to a value.
    Def(u32, u32),
    /// A variable read.
    Use(u32, u32),
    Const(Ty, u64, u32),
    /// A load of a type from a pointer and an offset.
    Load(Ty, u32, u32, u32),
    /// A store of a value to a pointer and an offset.
    Store(u32, u32, u32),
    Bin(BinOp, u32, u32, u32),
    Imm(ImmOp, u32, u32, u32),
    Not(u32, u32),
    Test(Cc, u32, u32, u32),
    /// A test whether a value is not zero.
    NonZero(u32, u32),
    Widen(u32, u32),
    Call(u32, Seq<u32>, Option<u32>),
    /// A call through a pointer to a function of a signature.
    CallIndirect(u32, u32, Seq<u32>, Option<u32>),
    /// A branch to the first block if the value is not zero, and to the second otherwise.
    Brif(u32, u32, u32),
    Jump(u32),
    Return(Seq<u32>),
    /// A signature: how many pointers and words it takes, and whether it gives a word back.
    Sig(usize, usize, bool, u32),
    /// A function, known by a number to the module, of a signature.
    Import(u32, u32, u32),
}

/// Where a function under construction stands.
pub ghost struct Site {
    /// The block that instructions go to.
    pub at: Option<u32>,
    pub blocks: Set<u32>,
    /// The blocks that ended in a branch, jump or return.
    pub filled: Set<u32>,
    pub sealed: Set<u32>,
    /// The values and the types that are known of them.
    pub values: Map<u32, Option<Ty>>,
    pub vars: Map<u32, Ty>,
    /// The signatures and the types that they give back, if any.
    pub sigs: Map<u32, Option<Ty>>,
    /// The imported functions and the types that they give back, if any.
    pub funcs: Map<u32, Option<Ty>>,
}

impl Site {
    pub open spec fn start() -> Site {
        Site {
            at: None,
            blocks: Set::empty(),
            filled: Set::empty(),
            sealed: Set::empty(),
            values: Map::empty(),
            vars: Map::empty(),
            sigs: Map::empty(),
            funcs: Map::empty(),
        }
    }

    /// Whether an instruction may be added.
    pub open spec fn is_open(self) -> bool {
        self.at is Some && self.blocks.contains(self.at->0) && !self.filled.contains(self.at->0)
    }

    /// Whether a new block may be started.
    pub open spec fn is_between(self) -> bool {
        self.at is None || self.filled.contains(self.at->0)
    }

    /// Whether a number is a value.
    pub open spec fn has(self, v: u32) -> bool {
        self.values.contains_key(v)
    }

    /// Whether all numbers are values.
    pub open spec fn has_all(self, vs: Seq<u32>) -> bool {
        forall|i: int| 0 <= i < vs.len() ==> self.has(#[trigger] vs[i])
    }

    /// Whether a block can still be branched to.
    pub open spec fn awaits(self, block: u32) -> bool {
        self.blocks.contains(block) && !self.sealed.contains(block)
    }

    pub open spec fn with_value(self, v: u32, ty: Option<Ty>) -> Site {
        Site { values: self.values.insert(v, ty), ..self }
    }

    /// The site with the first `n` parameters known.
    pub open spec fn with_params(self, ps: Seq<(u32, bool)>, n: nat) -> Site
        decreases n,
    {
        if n == 0 {
            self
        } else {
            self.with_params(ps, (n - 1) as nat).with_value(
                ps[n - 1].0,
                if ps[n - 1].1 {
                    Some(Ty::I32)
                } else {
                    None
                },
            )
        }
    }

    pub open spec fn with_result(self, r: Option<u32>, ty: Option<Ty>) -> Site {
        match r {
            Some(v) => self.with_value(v, ty),
            None => self,
        }
    }

    pub open spec fn ended(self) -> Site {
        Site { filled: self.filled.insert(self.at->0), ..self }
    }

    pub open spec fn after(self, e: Clif) -> Site {
        match e {
            Clif::NewBlock(r) => Site { blocks: self.blocks.insert(r), ..self },
            Clif::Params(_, ps) => self.with_params(ps, ps.len()),
            Clif::Switch(block) => Site { at: Some(block), ..self },
            Clif::Seal(block) => Site { sealed: self.sealed.insert(block), ..self },
            Clif::NewVar(ty, r) => Site { vars: self.vars.insert(r, ty), ..self },
            Clif::Def(_, _) => self,
            Clif::Use(var, r) => self.with_value(r, Some(self.vars[var])),
            Clif::Const(ty, _, r) => self.with_value(r, Some(ty)),
            Clif::Load(ty, _, _, r) => self.with_value(r, Some(ty)),
            Clif::Store(_, _, _) => self,
            Clif::Bin(_, x, _, r) => self.with_value(r, self.values[x]),
            Clif::Imm(_, x, _, r) => self.with_value(r, self.values[x]),
            Clif::Not(x, r) => self.with_value(r, self.values[x]),
            Clif::Test(_, _, _, r) => self.with_value(r, Some(Ty::I8)),
            Clif::NonZero(_, r) => self.with_value(r, Some(Ty::I8)),
            Clif::Widen(_, r) => self.with_value(r, Some(Ty::I32)),
            Clif::Call(f, _, r) => self.with_result(r, self.funcs[f]),
            Clif::CallIndirect(sig, _, _, r) => self.with_result(r, self.sigs[sig]),
            Clif::Brif(_, _, _) | Clif::Jump(_) | Clif::Return(_) => self.ended(),
            Clif::Sig(_, _, back, r) => Site {
                sigs: self.sigs.insert(
                    r,
                    if back {
                        Some(Ty::I32)
                    } else {
                        None
                    },
                ),
                ..self
            },
            Clif::Import(_, sig, r) => Site { funcs: self.funcs.insert(r, self.sigs[sig]), ..self },
        }
    }
}

/// Where a function stands after a list of things done.
pub open spec fn site(log: Seq<Clif>) -> Site
    decreases log.len(),
{
    if log.len() == 0 {
        Site::start()
    } else {
        site(log.drop_last()).after(log.last())
    }
}

/// What was done with a builder so far.
pub uninterp spec fn emitted(b: FunctionBuilder<'_>) -> Seq<Clif>;

/// `FunctionBuilder::current_block`: the block that instructions go to.
#[verifier::external_body]
pub(crate) fn current_block(b: &FunctionBuilder<'_>) -> (r: Option<u32>)
    ensures
        r == site(emitted(*b)).at,
{
    b.current_block().map(|block| block.as_u32())
}

/// `FunctionBuilder::create_block`: a block that was not there before.
#[verifier::external_body]
pub(crate) fn create_block(b: &mut FunctionBuilder<'_>) -> (r: u32)
    ensures
        emitted(*final(b)) == emitted(*old(b)).push(Clif::NewBlock(r)),
        !site(emitted(*old(b))).blocks.contains(r) && !site(emitted(*old(b))).sealed.contains(
            r,
        ) && !site(emitted(*old(b))).filled.contains(r),
{
    b.create_block().as_u32()
}

/// `FunctionBuilder::append_block_params_for_function_params` and `FunctionBuilder::block_params`:
/// the function's parameters become the parameters of a block that is still empty; gives their
/// values, all different, and whether each is a 32-bit word.
#[verifier::external_body]
pub(crate) fn append_params(b: &mut FunctionBuilder<'_>, block: u32) -> (r: Vec<(u32, bool)>)
    requires
        site(emitted(*old(b))).awaits(block),
        site(emitted(*old(b))).at is None,
    ensures
        emitted(*final(b)) == emitted(*old(b)).push(Clif::Params(block, r@)),
        forall|i: int, j: int| 0 <= i < j < r@.len() ==> r@[i].0 != r@[j].0,
{
    let block = ir::Block::from_u32(block);
    b.append_block_params_for_function_params(block);
    let dfg = &b.func.dfg;
    let params = dfg.block_params(block).iter();
    params.map(|v| (v.as_u32(), dfg.value_type(*v) == types::I32)).collect()
}

/// `FunctionBuilder::switch_to_block`: instructions go to a block from now on.
#[verifier::external_body]
pub(crate) fn switch_to(b: &mut FunctionBuilder<'_>, block: u32)
    requires
        site(emitted(*old(b))).is_between(),
        site(emitted(*old(b))).blocks.contains(block),
        !site(emitted(*old(b))).filled.contains(block),
    ensures
        emitted(*final(b)) == emitted(*old(b)).push(Clif::Switch(block)),
{
    b.switch_to_block(ir::Block::from_u32(block));
}

/// `FunctionBuilder::seal_block`: no more branches to a block will come.
#[verifier::external_body]
pub(crate) fn seal(b: &mut FunctionBuilder<'_>, block: u32)
    requires
        site(emitted(*old(b))).awaits(block),
    ensures
        emitted(*final(b)) == emitted(*old(b)).push(Clif::Seal(block)),
{
    b.seal_block(ir::Block::from_u32(block));
}

/// `FunctionBuilder::declare_var`: a new 32-bit variable.
#[verifier::external_body]
pub(crate) fn declare_word_var(b: &mut FunctionBuilder<'_>) -> (r: u32)
    ensures
        emitted(*final(b)) == emitted(*old(b)).push(Clif::NewVar(Ty::I32, r)),
        !site(emitted(*old(b))).vars.contains_key(r),
{
    b.declare_var(types::I32).as_u32()
}

/// `FunctionBuilder::def_var`: sets a variable to a value of its type.
#[verifier::external_body]
pub(crate) fn def_var(b: &mut FunctionBuilder<'_>, var: u32, v: u32)
    requires
        site(emitted(*old(b))).is_open(),
        site(emitted(*old(b))).vars.contains_key(var),
        site(emitted(*old(b))).has(v),
        site(emitted(*old(b))).values[v] == Some(site(emitted(*old(b))).vars[var]),
    ensures
        emitted(*final(b)) == emitted(*old(b)).push(Clif::Def(var, v)),
{
    b.def_var(Variable::from_u32(var), Value::from_u32(v));
}

/// `FunctionBuilder::use_var`: the value of a variable at this place. In the block that set the
/// variable this is the value that it was set to. Elsewhere the builder looks for the value in the
/// blocks that lead here, or makes a block parameter; whatever it hands back holds, in each run that
/// comes here, what the variable was last set to in that run.
#[verifier::external_body]
pub(crate) fn use_var(b: &mut FunctionBuilder<'_>, var: u32) -> (r: u32)
    requires
        site(emitted(*old(b))).is_open(),
        site(emitted(*old(b))).vars.contains_key(var),
    ensures
        emitted(*final(b)) == emitted(*old(b)).push(Clif::Use(var, r)),
        site(emitted(*old(b))).has(r) ==> site(emitted(*old(b))).values[r] == Some(
            site(emitted(*old(b))).vars[var],
        ),
        set_here(emitted(*old(b)), var) matches Some(v) ==> r == v,
        reads_right(emitted(*old(b)), var, r),
{
    b.use_var(Variable::from_u32(var)).as_u32()
}

/// `InstBuilder::iconst`: a constant.
#[verifier::external_body]
pub(crate) fn ins_const(b: &mut FunctionBuilder<'_>, ty: Ty, k: u64) -> (r: u32)
    requires
        site(emitted(*old(b))).is_open(),
    ensures
        emitted(*final(b)) == emitted(*old(b)).push(Clif::Const(ty, k, r)),
        !site(emitted(*old(b))).has(r),
{
    let ty = match ty {
        Ty::I8 => types::I8,
        Ty::I32 => types::I32,
        Ty::I64 => types::I64,
    };
    b.ins().iconst(ty, k as i64).as_u32()
}

/// `InstBuilder::load` with trusted memory flags.
#[verifier::external_body]
pub(crate) fn ins_load(b: &mut FunctionBuilder<'_>, ty: Ty, ptr: u32, offset: u32) -> (r: u32)
    requires
        site(emitted(*old(b))).is_open(),
        site(emitted(*old(b))).has(ptr),
        offset < 0x1000,
    ensures
        emitted(*final(b)) == emitted(*old(b)).push(Clif::Load(ty, ptr, offset, r)),
        !site(emitted(*old(b))).has(r),
{
    let ty = match ty {
        Ty::I8 => types::I8,
        Ty::I32 => types::I32,
        Ty::I64 => types::I64,
    };
    b.ins().load(ty, MemFlags::trusted(), Value::from_u32(ptr), offset as i32).as_u32()
}

/// `InstBuilder::store` with trusted memory flags.
#[verifier::external_body]
pub(crate) fn ins_store(b: &mut FunctionBuilder<'_>, v: u32, ptr: u32, offset: u32)
    requires
        site(emitted(*old(b))).is_open(),
        site(emitted(*old(b))).has(v),
        site(emitted(*old(b))).has(ptr),
        offset < 0x1000,
    ensures
        emitted(*final(b)) == emitted(*old(b)).push(Clif::Store(v, ptr, offset)),
{
    let (v, ptr) = (Value::from_u32(v), Value::from_u32(ptr));
    b.ins().store(MemFlags::trusted(), v, ptr, offset as i32);
}

/// `InstBuilder::iadd`, `isub`, `band`, `bor` and `bxor`.
#[verifier::external_body]
pub(crate) fn ins_bin(b: &mut FunctionBuilder<'_>, op: BinOp, x: u32, y: u32) -> (r: u32)
    requires
        site(emitted(*old(b))).is_open(),
        site(emitted(*old(b))).has(x),
        site(emitted(*old(b))).has(y),
    ensures
        emitted(*final(b)) == emitted(*old(b)).push(Clif::Bin(op, x, y, r)),
        !site(emitted(*old(b))).has(r),
{
    let (x, y) = (Value::from_u32(x), Value::from_u32(y));
    let r = match op {
        BinOp::Add => b.ins().iadd(x, y),
        BinOp::Sub => b.ins().isub(x, y),
        BinOp::And => b.ins().band(x, y),
        BinOp::Or => b.ins().bor(x, y),
        BinOp::Xor => b.ins().bxor(x, y),
    };
    r.as_u32()
}

/// `InstBuilder::iadd_imm`, `band_imm`, `bor_imm`, `ishl_imm`, `ushr_imm` and `sshr_imm`.
#[verifier::external_body]
pub(crate) fn ins_imm(b: &mut FunctionBuilder<'_>, op: ImmOp, x: u32, k: u32) -> (r: u32)
    requires
        site(emitted(*old(b))).is_open(),
        site(emitted(*old(b))).has(x),
    ensures
        emitted(*final(b)) == emitted(*old(b)).push(Clif::Imm(op, x, k, r)),
        !site(emitted(*old(b))).has(r),
{
    let (x, k) = (Value::from_u32(x), i64::from(k));
    let r = match op {
        ImmOp::Add => b.ins().iadd_imm(x, k),
        ImmOp::And => b.ins().band_imm(x, k),
        ImmOp::Or => b.ins().bor_imm(x, k),
        ImmOp::Shl => b.ins().ishl_imm(x, k),
        ImmOp::Ushr => b.ins().ushr_imm(x, k),
        ImmOp::Sshr => b.ins().sshr_imm(x, k),
    };
    r.as_u32()
}

/// `InstBuilder::bnot`.
#[verifier::external_body]
pub(crate) fn ins_not(b: &mut FunctionBuilder<'_>, x: u32) -> (r: u32)
    requires
        site(emitted(*old(b))).is_open(),
        site(emitted(*old(b))).has(x),
    ensures
        emitted(*final(b)) == emitted(*old(b)).push(Clif::Not(x, r)),
        !site(emitted(*old(b))).has(r),
{
    b.ins().bnot(Value::from_u32(x)).as_u32()
}

/// `InstBuilder::icmp`.
#[verifier::external_body]
pub(crate) fn ins_test(b: &mut FunctionBuilder<'_>, cc: Cc, x: u32, y: u32) -> (r: u32)
    requires
        site(emitted(*old(b))).is_open(),
        site(emitted(*old(b))).has(x),
        site(emitted(*old(b))).has(y),
    ensures
        emitted(*final(b)) == emitted(*old(b)).push(Clif::Test(cc, x, y, r)),
        !site(emitted(*old(b))).has(r),
{
    let cc = match cc {
        Cc::Equal => IntCC::Equal,
        Cc::NotEqual => IntCC::NotEqual,
        Cc::UnsignedLessThan => IntCC::UnsignedLessThan,
        Cc::UnsignedGreaterThanOrEqual => IntCC::UnsignedGreaterThanOrEqual,
    };
    b.ins().icmp(cc, Value::from_u32(x), Value::from_u32(y)).as_u32()
}

/// `InstBuilder::icmp_imm` against zero.
#[verifier::external_body]
pub(crate) fn ins_nonzero(b: &mut FunctionBuilder<'_>, x: u32) -> (r: u32)
    requires
        site(emitted(*old(b))).is_open(),
        site(emitted(*old(b))).has(x),
    ensures
        emitted(*final(b)) == emitted(*old(b)).push(Clif::NonZero(x, r)),
        !site(emitted(*old(b))).has(r),
{
    b.ins().icmp_imm(IntCC::NotEqual, Value::from_u32(x), 0).as_u32()
}

/// `InstBuilder::uextend` to 32 bits.
#[verifier::external_body]
pub(crate) fn ins_widen(b: &mut FunctionBuilder<'_>, x: u32) -> (r: u32)
    requires
        site(emitted(*old(b))).is_open(),
        site(emitted(*old(b))).has(x),
    ensures
        emitted(*final(b)) == emitted(*old(b)).push(Clif::Widen(x, r)),
        !site(emitted(*old(b))).has(r),
{
    b.ins().uextend(types::I32, Value::from_u32(x)).as_u32()
}

/// `InstBuilder::call` and `FunctionBuilder::inst_results`: a call of an imported function, and the
/// value that it gives back, if its signature has one.
#[verifier::external_body]
pub(crate) fn ins_call(b: &mut FunctionBuilder<'_>, f: u32, args: &Vec<u32>) -> (r: Option<u32>)
    requires
        site(emitted(*old(b))).is_open(),
        site(emitted(*old(b))).funcs.contains_key(f),
        site(emitted(*old(b))).has_all(args@),
    ensures
        emitted(*final(b)) == emitted(*old(b)).push(Clif::Call(f, args@, r)),
        r is Some == (site(emitted(*old(b))).funcs[f] is Some),
        r matches Some(v) ==> !site(emitted(*old(b))).has(v),
{
    let args: Vec<Value> = args.iter().map(|v| Value::from_u32(*v)).collect();
    let inst = b.ins().call(FuncRef::from_u32(f), &args);
    b.inst_results(inst).first().map(|v| v.as_u32())
}

/// `InstBuilder::call_indirect` and `FunctionBuilder::inst_results`: a call through a pointer, and
/// the value that it gives back, if its signature has one.
#[verifier::external_body]
pub(crate) fn ins_call_indirect(
    b: &mut FunctionBuilder<'_>,
    sig: u32,
    ptr: u32,
    args: &Vec<u32>,
) -> (r: Option<u32>)
    requires
        site(emitted(*old(b))).is_open(),
        site(emitted(*old(b))).sigs.contains_key(sig),
        site(emitted(*old(b))).has(ptr),
        site(emitted(*old(b))).has_all(args@),
    ensures
        emitted(*final(b)) == emitted(*old(b)).push(Clif::CallIndirect(sig, ptr, args@, r)),
        r is Some == (site(emitted(*old(b))).sigs[sig] is Some),
        r matches Some(v) ==> !site(emitted(*old(b))).has(v),
{
    let args: Vec<Value> = args.iter().map(|v| Value::from_u32(*v)).collect();
    let inst = b.ins().call_indirect(SigRef::from_u32(sig), Value::from_u32(ptr), &args);
    b.inst_results(inst).first().map(|v| v.as_u32())
}

/// `InstBuilder::brif` without block arguments.
#[verifier::external_body]
pub(crate) fn ins_brif(b: &mut FunctionBuilder<'_>, v: u32, yes: u32, no: u32)
    requires
        site(emitted(*old(b))).is_open(),
        site(emitted(*old(b))).has(v),
        site(emitted(*old(b))).awaits(yes),
        site(emitted(*old(b))).awaits(no),
    ensures
        emitted(*final(b)) == emitted(*old(b)).push(Clif::Brif(v, yes, no)),
{
    let (yes, no) = (ir::Block::from_u32(yes), ir::Block::from_u32(no));
    b.ins().brif(Value::from_u32(v), yes, &[], no, &[]);
}

/// `InstBuilder::jump` without block arguments.
#[verifier::external_body]
pub(crate) fn ins_jump(b: &mut FunctionBuilder<'_>, block: u32)
    requires
        site(emitted(*old(b))).is_open(),
        site(emitted(*old(b))).awaits(block),
    ensures
        emitted(*final(b)) == emitted(*old(b)).push(Clif::Jump(block)),
{
    b.ins().jump(ir::Block::from_u32(block), &[]);
}

/// `InstBuilder::return_`.
#[verifier::external_body]
pub(crate) fn ins_return(b: &mut FunctionBuilder<'_>, vs: &Vec<u32>)
    requires
        site(emitted(*old(b))).is_open(),
        site(emitted(*old(b))).has_all(vs@),
    ensures
        emitted(*final(b)) == emitted(*old(b)).push(Clif::Return(vs@)),
{
    let vs: Vec<Value> = vs.iter().map(|v| Value::from_u32(*v)).collect();
    b.ins().return_(&vs);
}

/// `FunctionBuilder::import_signature`: a new signature in the calling convention of the function,
/// with 64-bit pointers before 32-bit words, and a word given back where `back` says so.
#[verifier::external_body]
pub(crate) fn import_signature(
    b: &mut FunctionBuilder<'_>,
    pointers: usize,
    words: usize,
    back: bool,
) -> (r: u32)
    ensures
        emitted(*final(b)) == emitted(*old(b)).push(Clif::Sig(pointers, words, back, r)),
        !site(emitted(*old(b))).sigs.contains_key(r),
{
    let mut sig = Signature::new(b.func.signature.call_conv);
    sig.params.extend(vec![AbiParam::new(types::I64); pointers]);
    sig.params.extend(vec![AbiParam::new(types::I32); words]);
    sig.returns.extend(vec![AbiParam::new(types::I32); usize::from(back)]);
    b.import_signature(sig).as_u32()
}

/// `Function::declare_imported_user_function` and `FunctionBuilder::import_function`: the function
/// that the module knows by a number becomes callable under a new number.
#[verifier::external_body]
pub(crate) fn import_function(b: &mut FunctionBuilder<'_>, id: u32, sig: u32) -> (r: u32)
    requires
        site(emitted(*old(b))).sigs.contains_key(sig),
    ensures
        emitted(*final(b)) == emitted(*old(b)).push(Clif::Import(id, sig, r)),
        !site(emitted(*old(b))).funcs.contains_key(r),
{
    let name = b.func.declare_imported_user_function(UserExternalName::new(0, id));
    let data = ir::ExtFuncData {
        name: ir::ExternalName::user(name),
        signature: SigRef::from_u32(sig),
        colocated: false,
        patchable: false,
    };
    b.import_function(data).as_u32()
}

/// Whether an entry follows at a site: what it brings forth is new there, and a block is started
/// after the one before it has ended, and only once.
pub open spec fn follows(s: Site, e: Clif) -> bool {
    match e {
        Clif::NewBlock(r) => !s.blocks.contains(r) && !s.filled.contains(r),
        Clif::Params(_, ps) => forall|i: int, j: int|
            0 <= i < j < ps.len() ==> #[trigger] ps[i].0 != #[trigger] ps[j].0,
        Clif::Switch(block) => s.is_between() && s.blocks.contains(block) && !s.filled.contains(
            block,
        ),
        Clif::NewVar(_, r) => !s.vars.contains_key(r),
        Clif::Const(_, _, r) | Clif::Load(_, _, _, r) | Clif::Bin(_, _, _, r) => !s.has(r),
        Clif::Imm(_, _, _, r) | Clif::Not(_, r) | Clif::Test(_, _, _, r) => !s.has(r),
        Clif::NonZero(_, r) | Clif::Widen(_, r) => !s.has(r),
        Clif::Call(_, _, r) | Clif::CallIndirect(_, _, _, r) => r matches Some(v) ==> !s.has(v),
        Clif::Sig(_, _, _, r) => !s.sigs.contains_key(r),
        Clif::Import(_, _, r) => !s.funcs.contains_key(r),
        _ => true,
    }
}

/// Whether all entries from the `n`-th on follow.
pub open spec fn orderly(log: Seq<Clif>, n: nat) -> bool
    decreases log.len(),
{
    log.len() <= n || (orderly(log.drop_last(), n) && follows(
        site(log.drop_last()),
        log.last(),
    ))
}

/// Whether an entry fits a list: it follows, and a variable is read through a value that holds it.
pub open spec fn fits(log: Seq<Clif>, e: Clif) -> bool {
    &&& follows(site(log), e)
    &&& e matches Clif::Use(var, r) ==> reads_right(log, var, r)
}

/// Whether all entries from the `n`-th on fit.
pub open spec fn proper(log: Seq<Clif>, n: nat) -> bool
    decreases log.len(),
{
    log.len() <= n || (proper(log.drop_last(), n) && fits(log.drop_last(), log.last()))
}

/// Whether a list is another one carried on by entries that fit.
#[verifier::opaque]
pub open spec fn carries_on(log: Seq<Clif>, longer: Seq<Clif>) -> bool {
    log.len() <= longer.len() && forall|n: nat|
        n <= log.len() && proper(log, n) ==> #[trigger] proper(longer, n)
}

/// One more entry that fits carries a list on.
pub broadcast proof fn lemma_carry_push(log: Seq<Clif>, e: Clif)
    requires
        fits(log, e),
    ensures
        #[trigger] carries_on(log, log.push(e)),
{
    lemma_carry_none(log);
    lemma_carry_further(log, log, e);
}

/// One more entry that fits carries a list on further.
pub broadcast proof fn lemma_carry_further(log: Seq<Clif>, longer: Seq<Clif>, e: Clif)
    requires
        #[trigger] carries_on(log, longer),
        fits(longer, e),
    ensures
        carries_on(log, #[trigger] longer.push(e)),
{
    reveal(carries_on);
    let longest = longer.push(e);
    assert(longest.drop_last() =~= longer);
    assert forall|n: nat| n <= log.len() && proper(log, n) implies #[trigger] proper(
        longest,
        n,
    ) by {
        assert(proper(longer, n));
        assert(longest.last() == e);
    }
}

pub proof fn lemma_carry_on(a: Seq<Clif>, b: Seq<Clif>, c: Seq<Clif>)
    requires
        carries_on(a, b),
        carries_on(b, c),
    ensures
        carries_on(a, c),
{
    reveal(carries_on);
}

pub proof fn lemma_carry_none(log: Seq<Clif>)
    ensures
        carries_on(log, log),
{
    reveal(carries_on);
}

/// One more entry moves the site on by that entry.
pub broadcast proof fn lemma_site_push(log: Seq<Clif>, e: Clif)
    ensures
        #[trigger] site(log.push(e)) == site(log).after(e),
{
    assert(log.push(e).drop_last() =~= log);
}

} // verus!
