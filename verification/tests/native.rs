//! Lowered blocks, run by Cranelift's interpreter and compiled for the host.

use cranelift::codegen::control::ControlPlane;
use cranelift::codegen::data_value::DataValue;
use cranelift::codegen::ir::{Function, UserFuncName};
use cranelift::codegen::{verify_function, Context};
use cranelift::prelude::{
    settings, types, AbiParam, FunctionBuilder, FunctionBuilderContext, InstBuilder, MemFlags,
    Signature,
};
use cranelift_interpreter::environment::FunctionStore;
use cranelift_interpreter::interpreter::{Interpreter, InterpreterState};
use cranelift_interpreter::step::ControlFlow;
use cranelift_jit::{JITBuilder, JITModule};
use cranelift_module::{FuncId, Linkage, Module};
use rustboyadvance::dynarec::block::{CompiledBlock, Exit};
use rustboyadvance::dynarec::bus::{Bus, NoBus};
use rustboyadvance::dynarec::dump::{
    list_code, list_disassembly, DisasmFault, DisasmLine, HostArch,
};
use rustboyadvance::dynarec::ir::{BusCall, Callee};
use rustboyadvance::dynarec::lower::lower_block;
use rustboyadvance::dynarec::native::{declare_block, declare_imports};
use rustboyadvance::dynarec::DynarecCompiler;

/// The numbers by which the callees are known here.
const IDS: [u32; 16] = [0, 1, 2, 3, 4, 5, 6, 7, 8, 9, 10, 11, 12, 13, 14, 15];

/// Where the interpreter's memory holds the registers, the status word, the branch target, the
/// context of the callees and a chain slot.
const GPR: i64 = 0;
const CPSR: i64 = 64;
const PC_OUT: i64 = 68;
const CTX: i64 = 72;
const SLOT: i64 = 80;

/// The signature of a function of pointers and words.
fn signature(pointers: usize, words: usize, back: bool) -> Signature {
    let isa = cranelift_native::builder().unwrap().finish(settings::Flags::new(settings::builder()));
    let mut sig = Signature::new(isa.unwrap().default_call_conv());
    for _ in 0..pointers {
        sig.params.push(AbiParam::new(types::I64));
    }
    for _ in 0..words {
        sig.params.push(AbiParam::new(types::I32));
    }
    if back {
        sig.returns.push(AbiParam::new(types::I32));
    }
    sig
}

/// A block as a Cranelift function.
fn lower(block: &CompiledBlock) -> Function {
    let mut func = Function::with_name_signature(UserFuncName::user(0, 100), signature(4, 1, true));
    let mut ctx = FunctionBuilderContext::new();
    let mut b = FunctionBuilder::new(&mut func, &mut ctx);
    assert!(lower_block(&mut b, block, &IDS));
    b.finalize();
    let flags = settings::Flags::new(settings::builder());
    verify_function(&func, &flags).unwrap();
    func
}

/// A callee that mixes its number and its arguments into the first word of its context and gives
/// that back. The check for aborts gives back the second word.
fn stub(k: usize) -> Function {
    let f = Callee::at(k);
    let sig = signature(1, f.arity(), f.returns_word());
    let mut func = Function::with_name_signature(UserFuncName::user(0, k as u32), sig);
    let mut ctx = FunctionBuilderContext::new();
    let mut b = FunctionBuilder::new(&mut func, &mut ctx);
    let entry = b.create_block();
    b.append_block_params_for_function_params(entry);
    b.switch_to_block(entry);
    b.seal_block(entry);
    let params = b.block_params(entry).to_vec();
    let acc = b.ins().load(types::I32, MemFlags::new(), params[0], 0);
    let thirty_one = b.ins().iconst(types::I32, 31);
    let mut acc = b.ins().imul(acc, thirty_one);
    let number = b.ins().iconst(types::I32, k as i64);
    acc = b.ins().iadd(acc, number);
    for (i, p) in params[1..].iter().enumerate() {
        let factor = b.ins().iconst(types::I32, 3 + 2 * i as i64);
        let product = b.ins().imul(*p, factor);
        acc = b.ins().iadd(acc, product);
    }
    b.ins().store(MemFlags::new(), acc, params[0], 0);
    if f == Callee::ChainAbortCheck {
        let abort = b.ins().load(types::I32, MemFlags::new(), params[0], 4);
        b.ins().return_(&[abort]);
    } else if f.returns_word() {
        b.ins().return_(&[acc]);
    } else {
        b.ins().return_(&[]);
    }
    b.finalize();
    func
}

/// A function that loads a word, to look into the interpreter's memory.
fn peek() -> Function {
    let mut func = Function::with_name_signature(UserFuncName::user(0, 101), signature(1, 0, true));
    let mut ctx = FunctionBuilderContext::new();
    let mut b = FunctionBuilder::new(&mut func, &mut ctx);
    let entry = b.create_block();
    b.append_block_params_for_function_params(entry);
    b.switch_to_block(entry);
    b.seal_block(entry);
    let p = b.block_params(entry)[0];
    let v = b.ins().load(types::I32, MemFlags::new(), p, 0);
    b.ins().return_(&[v]);
    b.finalize();
    func
}

/// A function like a block that gives back a constant.
fn linked_block() -> Function {
    let mut func = Function::with_name_signature(UserFuncName::user(0, 102), signature(4, 1, true));
    let mut ctx = FunctionBuilderContext::new();
    let mut b = FunctionBuilder::new(&mut func, &mut ctx);
    let entry = b.create_block();
    b.append_block_params_for_function_params(entry);
    b.switch_to_block(entry);
    b.seal_block(entry);
    let v = b.ins().iconst(types::I32, 77);
    b.ins().return_(&[v]);
    b.finalize();
    func
}

/// The same mixing as a bus.
struct Mix {
    acc: u32,
    abort: u32,
}

impl Mix {
    fn mix(&mut self, k: u32, args: &[u32]) -> u32 {
        self.acc = self.acc.wrapping_mul(31).wrapping_add(k);
        for (i, a) in args.iter().enumerate() {
            self.acc = self.acc.wrapping_add(a.wrapping_mul(3 + 2 * i as u32));
        }
        self.acc
    }
}

impl Bus for Mix {
    type State = ();
    fn state(&self) {}
    fn reply(_: (), _: BusCall) -> u32 {
        0
    }
    fn next(_: (), _: BusCall) {}
    fn load_32(&mut self, addr: u32) -> u32 {
        self.mix(0, &[addr])
    }
    fn store_32(&mut self, addr: u32, value: u32) {
        self.mix(1, &[addr, value]);
    }
    fn load_8(&mut self, addr: u32) -> u32 {
        self.mix(2, &[addr])
    }
    fn store_8(&mut self, addr: u32, value: u32) {
        self.mix(3, &[addr, value]);
    }
    fn load_32_seq(&mut self, addr: u32) -> u32 {
        self.mix(4, &[addr])
    }
    fn store_32_seq(&mut self, addr: u32, value: u32) {
        self.mix(5, &[addr, value]);
    }
    fn store_16(&mut self, addr: u32, value: u32) {
        self.mix(6, &[addr, value]);
    }
    fn load_with_idle_16(&mut self, addr: u32) -> u32 {
        self.mix(7, &[addr])
    }
    fn load_with_idle_32(&mut self, addr: u32) -> u32 {
        self.mix(8, &[addr])
    }
    fn load_with_idle_8(&mut self, addr: u32) -> u32 {
        self.mix(9, &[addr])
    }
    fn set_next_fetch_nonseq(&mut self) {
        self.mix(10, &[]);
    }
    fn pay_thumb_fetch_extra_nonseq(&mut self, pc: u32) {
        self.mix(11, &[pc]);
    }
    fn idle_cycle(&mut self) {
        self.mix(12, &[]);
    }
    fn thumb_fetch_n(&mut self, pc: u32, count: u32) {
        self.mix(13, &[pc, count]);
    }
    fn chain_abort_check(&mut self) -> u32 {
        self.mix(14, &[]);
        self.abort
    }
    fn abort_mid_block(&mut self, pc: u32, p0: u32, p1: u32) {
        self.mix(15, &[pc, p0, p1]);
    }
}

/// What a block leaves behind: its result, the registers, the status word, the branch target and
/// the mixed calls.
type Left = (u32, [u32; 15], u32, u32, u32);

fn word(flow: ControlFlow) -> u32 {
    match flow {
        ControlFlow::Return(values) => match values[0] {
            DataValue::I32(v) => v as u32,
            _ => unreachable!(),
        },
        _ => unreachable!(),
    }
}

/// Runs a lowered block in Cranelift's interpreter.
fn run_lowered(block: &CompiledBlock, gpr: [u32; 15], cpsr: u32, linked: bool, abort: u32) -> Left {
    let func = lower(block);
    let stubs: Vec<Function> = (0..16).map(stub).collect();
    let peek = peek();
    let successor = linked_block();
    let mut store = FunctionStore::default();
    store.add("successor".to_string(), &successor);
    store.add("block".to_string(), &func);
    store.add("peek".to_string(), &peek);
    for (k, s) in stubs.iter().enumerate() {
        store.add(format!("u0:{k}"), s);
    }
    let mut state = InterpreterState::default().with_function_store(store);
    let mut memory = vec![0u8; 96];
    for r in 0..15 {
        memory[4 * r..4 * r + 4].copy_from_slice(&gpr[r].to_le_bytes());
    }
    memory[64..68].copy_from_slice(&cpsr.to_le_bytes());
    memory[76..80].copy_from_slice(&abort.to_le_bytes());
    if linked {
        // The address of the first function of the store.
        memory[80..88].copy_from_slice(&0x4000_0000_0000_0000u64.to_le_bytes());
    }
    state.stack = memory;
    let mut i = Interpreter::new(state);
    let args = [
        DataValue::I64(GPR),
        DataValue::I64(CPSR),
        DataValue::I64(PC_OUT),
        DataValue::I64(CTX),
        DataValue::I32(0),
    ];
    let result = word(i.call_by_name("block", &args).unwrap());
    let mut at = |a: i64| word(i.call_by_name("peek", &[DataValue::I64(a)]).unwrap());
    let mut after = [0u32; 15];
    for (r, v) in after.iter_mut().enumerate() {
        *v = at(4 * r as i64);
    }
    (result, after, at(CPSR), at(PC_OUT), at(CTX))
}

/// Runs the block itself.
fn run_block(block: &CompiledBlock, gpr: [u32; 15], cpsr: u32, linked: bool, abort: u32) -> Left {
    let mut gpr = gpr;
    let mut cpsr = cpsr;
    let mut pc_out = 0;
    let mut bus = Mix { acc: 0, abort };
    let exit = block.call(&mut gpr, &mut cpsr, &mut pc_out, linked, &mut bus);
    let result = match exit {
        Exit::Return(v) => v,
        Exit::Chain(_) => 77,
    };
    (result, gpr, cpsr, pc_out, bus.acc)
}

fn registers() -> [u32; 15] {
    let mut gpr = [0u32; 15];
    for (r, v) in gpr.iter_mut().enumerate() {
        *v = 0x1111_1111u32.wrapping_mul(r as u32 + 7);
    }
    gpr
}

/// Holds a block to its lowered form on several states.
fn agrees(block: &CompiledBlock) {
    for cpsr in [0x0000_001F, 0x4000_001F, 0x2000_0013, 0x9000_0010, 0xF000_0012] {
        for linked in [false, true] {
            for abort in [0, 1] {
                let a = run_lowered(block, registers(), cpsr, linked, abort);
                let b = run_block(block, registers(), cpsr, linked, abort);
                assert_eq!(a, b);
            }
        }
    }
}

#[test]
fn lowered_arm_blocks_run_alike() {
    let mut c = DynarecCompiler::new();
    let blocks: [&[u32]; 6] = [
        &[0xE3A0_0001, 0xE3A0_1002, 0xE3A0_20FF],
        &[0xE290_0001, 0xE250_1001, 0xE350_0005],
        &[0xE090_2001, 0xE051_3000, 0xE173_0002],
        &[0xE1B0_2001, 0xE1F0_3000, 0xE113_0002, 0xE134_0001],
        &[0xE280_1005, 0x0281_1001, 0x1281_1002, 0xC241_2003],
        &[0xE310_00FF, 0x0280_0001, 0xE330_00FF, 0x9240_0001, 0xE3E0_3000],
    ];
    for ops in blocks {
        agrees(&c.try_compile_imm_block(ops).unwrap());
    }
    agrees(&c.try_compile_block_with_branch(&[0xE3A0_0001, 0x0A00_0010], 0x100).unwrap());
    agrees(&c.try_compile_block_with_branch(&[0xE350_0001, 0xEBFF_FFF0], 0x100).unwrap());
    let mut m = DynarecCompiler::new_with_bus();
    agrees(&m.try_compile_mem_block(&[0xE590_1004, 0xE581_0008, 0xE5D2_3001, 0xE5C3_2000]).unwrap());
}

#[test]
fn lowered_thumb_blocks_run_alike() {
    let mut c = DynarecCompiler::new();
    let blocks: [&[u16]; 5] = [
        &[0x212A, 0x3101, 0x2905],
        &[0x0048, 0x0889, 0x1052, 0x0840, 0x0000],
        &[0x1840, 0x1A51, 0x1C9A, 0x1EDB],
        &[0x4008, 0x4051, 0x4308, 0x4391, 0x43CA, 0x4211, 0x4288, 0x42D1],
        &[0x4680, 0x4488, 0x4545, 0x4640],
    ];
    for ops in blocks {
        agrees(&c.try_compile_thumb_block(ops).unwrap());
    }
    agrees(&c.try_compile_thumb_block_with_branch(&[0x2905, 0xD1FC], 0x0800_0100).unwrap());
    agrees(&c.try_compile_thumb_block_with_branch(&[0x2905, 0xE010], 0x0800_0100).unwrap());
}

#[test]
fn lowered_memory_blocks_run_alike() {
    let mut c = DynarecCompiler::new_with_bus();
    let blocks: [&[u16]; 6] = [
        &[0x2005, 0x1C40, 0x6800, 0x1832],
        &[0x2005, 0x6801, 0x6041, 0x7802, 0x7042, 0xD0FA],
        &[0x5652, 0x4801, 0x50D1, 0x54D1, 0xE7F0],
        &[0xB403, 0xBC0C, 0xC006, 0xC80C, 0x4770],
        &[0x2001, 0x2102, 0x2203, 0x2304, 0xBD00],
        &[0x9001, 0x9902, 0xA001, 0xB082],
    ];
    for ops in blocks {
        for slot in [None, Some(SLOT as u64)] {
            let b = c.try_compile_thumb_mem_block_with_branch(ops, 0x0800_0100, slot);
            agrees(&b.unwrap());
        }
    }
}

#[test]
fn a_builder_in_use_is_left_alone() {
    let mut c = DynarecCompiler::new();
    let block = c.try_compile_thumb_block(&[0x212A]).unwrap();
    let mut func = Function::with_name_signature(UserFuncName::user(0, 1), signature(4, 1, true));
    let mut ctx = FunctionBuilderContext::new();
    let mut b = FunctionBuilder::new(&mut func, &mut ctx);
    let entry = b.create_block();
    b.switch_to_block(entry);
    assert!(!lower_block(&mut b, &block, &IDS));
    // A function with too few parameters is refused too.
    let mut func = Function::with_name_signature(UserFuncName::user(0, 1), signature(4, 0, true));
    let mut ctx = FunctionBuilderContext::new();
    let mut b = FunctionBuilder::new(&mut func, &mut ctx);
    assert!(!lower_block(&mut b, &block, &IDS));
}

fn jit_module() -> JITModule {
    JITModule::new(JITBuilder::new(cranelift_module::default_libcall_names()).unwrap())
}

#[test]
fn callees_and_blocks_are_declared_once() {
    let mut m = jit_module();
    let ids = declare_imports(&mut m).unwrap();
    for k in 0..16 {
        let f = Callee::at(k);
        let decl = m.declarations().get_function_decl(FuncId::from_u32(ids[k]));
        assert_eq!(decl.name.as_deref(), Some(f.symbol()));
        assert_eq!(decl.linkage, Linkage::Import);
        assert_eq!(decl.signature.params.len(), 1 + f.arity());
        assert_eq!(decl.signature.returns.len(), usize::from(f.returns_word()));
    }
    assert_eq!(declare_imports(&mut m), Some(ids));
    let mut c = DynarecCompiler::new();
    let a = c.try_compile_thumb_block(&[0x212A]).unwrap();
    let b = c.try_compile_thumb_block(&[0x212A]).unwrap();
    let ia = declare_block(&mut m, &a).unwrap();
    let ib = declare_block(&mut m, &b).unwrap();
    assert_ne!(ia, ib);
    let decl = m.declarations().get_function_decl(FuncId::from_u32(ia));
    assert_eq!(decl.linkage, Linkage::Local);
    assert_eq!(decl.signature.params.len(), 5);
    assert_eq!(declare_block(&mut m, &a), Some(ia));
}

#[test]
fn a_taken_name_is_refused() {
    let mut m = jit_module();
    let sig = m.make_signature();
    m.declare_function("rba_idle_cycle", Linkage::Import, &sig).unwrap();
    assert_eq!(declare_imports(&mut m), None);
}

/// The listing of a block compiled for this machine.
fn host_listing(block: &CompiledBlock) -> Result<String, String> {
    let flags = settings::Flags::new(settings::builder());
    let isa = cranelift_native::builder().unwrap().finish(flags).unwrap();
    let mut ctx = Context::for_function(lower(block));
    let code = ctx.compile(&*isa, &mut ControlPlane::default()).unwrap();
    let arch = isa.triple().architecture.to_string();
    let host = match arch.as_str() {
        "x86_64" => HostArch::X86_64,
        "aarch64" => HostArch::Aarch64,
        _ => HostArch::Other,
    };
    list_code(host, code.code_buffer(), 0x1000)
}

fn print_shape(name: &str, disasm: Result<String, String>) {
    println!("=== SHAPE={name} ===");
    match disasm {
        Ok(s) => println!("{s}"),
        Err(e) => println!("<disasm error: {e}>"),
    }
    println!("=== END ===");
}

fn dump_thumb_block(opcodes: &[u16]) -> Result<String, String> {
    let mut c = DynarecCompiler::new();
    let block = c.try_compile_thumb_block(opcodes);
    host_listing(&block.ok_or("try_compile_thumb_block returned None")?)
}

fn dump_arm_imm_block(opcodes: &[u32]) -> Result<String, String> {
    let mut c = DynarecCompiler::new();
    let block = c.try_compile_imm_block(opcodes);
    host_listing(&block.ok_or("try_compile_imm_block returned None")?)
}

#[test]
fn shape_thumb_mov_imm() {
    // MOV R1, #42: Thumb format 3, op=MOV.
    print_shape("thumb_mov_imm", dump_thumb_block(&[0x212a]));
}

#[test]
fn shape_thumb_add_imm() {
    // ADD R1, R1, #1: Thumb format 3, op=ADD.
    print_shape("thumb_add_imm", dump_thumb_block(&[0x3101]));
}

#[test]
fn shape_thumb_cmp_imm() {
    // CMP R1, #5: Thumb format 3, op=CMP.
    print_shape("thumb_cmp_imm", dump_thumb_block(&[0x2905]));
}

#[test]
fn shape_thumb_mov_chain() {
    // MOV R0,#1 ; MOV R1,#2 ; ADD R0,R0,R1
    print_shape("thumb_mov_chain", dump_thumb_block(&[0x2001, 0x2102, 0x1840]));
}

#[test]
fn shape_arm_mov_imm() {
    // MOV R1, #42
    print_shape("arm_mov_imm", dump_arm_imm_block(&[0xE3A0_102Au32]));
}

#[test]
fn shape_arm_cmp_imm() {
    // CMP R0, #5: sets NZCV, no gpr write.
    print_shape("arm_cmp_imm", dump_arm_imm_block(&[0xE350_0005u32]));
}

#[test]
fn listings_end_at_the_first_return() {
    // mov eax, 1; ret; nop
    let x86 = [0xB8, 1, 0, 0, 0, 0xC3, 0x90];
    assert_eq!(
        list_code(HostArch::X86_64, &x86, 0x10).unwrap(),
        "  0x0000000000000010  mov       eax, 1\n  0x0000000000000015  ret       \n"
    );
    // mov w0, #1; ret; nop
    let arm = [0x20, 0, 0x80, 0x52, 0xC0, 0x03, 0x5F, 0xD6, 0x1F, 0x20, 0x03, 0xD5];
    let text = list_code(HostArch::Aarch64, &arm, 0x1000).unwrap();
    let lines: Vec<&str> = text.lines().collect();
    assert_eq!(lines.len(), 2);
    assert_eq!(lines[0], "  0x0000000000001000  mov       w0, #1");
    assert_eq!(lines[1].trim_end(), "  0x0000000000001004  ret");
    assert_eq!(
        list_code(HostArch::Other, &x86, 0),
        Err("unsupported host arch for capstone dump".to_string())
    );
    let line = |m: &str| DisasmLine {
        address: 7,
        mnemonic: m.to_string(),
        operands: "x".to_string(),
    };
    assert_eq!(
        list_disassembly(HostArch::X86_64, Ok(vec![line("retq"), line("nop")])).unwrap(),
        "  0x0000000000000007  retq      x\n"
    );
    assert_eq!(
        list_disassembly(HostArch::Aarch64, Err(DisasmFault::Init("no".to_string()))),
        Err("capstone arm64 init: no".to_string())
    );
    assert_eq!(
        list_disassembly(HostArch::X86_64, Err(DisasmFault::Init("no".to_string()))),
        Err("capstone x86_64 init: no".to_string())
    );
    assert_eq!(
        list_disassembly(HostArch::X86_64, Err(DisasmFault::Decode("no".to_string()))),
        Err("capstone disasm: no".to_string())
    );
}

#[test]
fn stubs_are_blocks_too() {
    let mut c = DynarecCompiler::new();
    let block = c.compile_mov_r0_r1_stub();
    let mut gpr = registers();
    block.call_stub(&mut gpr, &mut NoBus, 0);
    assert_eq!(run_lowered(&block, registers(), 0, false, 0).1, gpr);
}
