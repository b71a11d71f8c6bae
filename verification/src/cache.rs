//! The block cache: recorded runs of instructions, found again by the address they start at.
//!
//! Blocks that start in the BIOS or in cartridge memory can never be overwritten and stay. All
//! others are dropped whenever writable memory is written.

use std::collections::HashMap;
use std::rc::Rc;
use vstd::prelude::*;
use crate::bits::{bits, field, truth};
use crate::dynarec::DynarecCompiler;
use crate::dynarec::block::CompiledBlock;
use crate::dynarec::ir::Cpu;
use crate::dynarec::unified::{unified, unified_ok};
use crate::fx::{fx_clear, fx_get, fx_insert, fx_keys, fx_len, fx_with_capacity};
use crate::laws::words::lemma_cut;
use rustc_hash::FxBuildHasher;

verus! {

/// One recorded instruction. Its encoding selects its handler.
#[allow(inconsistent_fields)]
#[derive(Clone, Copy, PartialEq, Eq, Structural, Debug)]
pub enum DecodedInstr {
    Arm { raw: u32 },
    Thumb { raw: u16 },
}

/// The address at which a block starts, with the Thumb bit folded into bit 0.
#[derive(Clone, Copy, PartialEq, Eq, Structural, Debug, Hash)]
pub struct BlockKey(pub u32);

impl BlockKey {
    /// The key of a block at `pc`.
    pub open spec fn of(pc: u32, thumb: bool) -> BlockKey {
        BlockKey(pc | truth(thumb))
    }

    pub fn new(pc: u32, thumb: bool) -> (k: BlockKey)
        ensures
            k == BlockKey::of(pc, thumb),
    {
        BlockKey(pc | (if thumb { 1u32 } else { 0u32 }))
    }
}

/// The most instructions that one block holds.
pub const RECORDING_CAP: usize = 16864;

/// Whether an address lies in the BIOS or in cartridge memory.
pub open spec fn in_rom(pc: u32) -> bool {
    let top = bits(pc, 24, 8);
    top == 0 || 8 <= top <= 13
}

/// Whether an address lies in the BIOS or in cartridge memory.
pub fn is_rom_address(pc: u32) -> (r: bool)
    ensures
        r == in_rom(pc),
{
    let top: u32 = field(pc, 24, 8);
    top == 0 || (8 <= top && top <= 13)
}

/// A recorded run of instructions.
#[derive(Debug)]
pub struct Block {
    instrs: Vec<DecodedInstr>,
    /// The block's key: the address it starts at, with the Thumb bit.
    entry_pc: u32,
    compiled: Option<CompiledBlock>,
}

/// What a block holds.
pub ghost struct BlockState {
    pub instrs: Seq<DecodedInstr>,
    pub entry_pc: u32,
    pub compiled: bool,
}

impl View for Block {
    type V = BlockState;

    closed spec fn view(&self) -> BlockState {
        BlockState {
            instrs: self.instrs@,
            entry_pc: self.entry_pc,
            compiled: self.compiled is Some,
        }
    }
}

/// Whether all recorded instructions are Thumb instructions.
pub open spec fn all_thumb(instrs: Seq<DecodedInstr>) -> bool {
    forall|i: int| 0 <= i < instrs.len() ==> (#[trigger] instrs[i]) is Thumb
}

/// The encodings of recorded Thumb instructions.
pub open spec fn raw_opcodes(instrs: Seq<DecodedInstr>) -> Seq<u16> {
    instrs.map_values(|x: DecodedInstr| x->Thumb_raw)
}

/// The address of the first instruction of a block with the given key, which names the address
/// that is fetched while that instruction runs.
pub open spec fn first_instruction(key: u32) -> u32 {
    (key & 0xffff_fffe).wrapping_sub(4)
}

impl Block {
    /// A compiled block does what its instructions do.
    #[verifier::type_invariant]
    spec fn wf(&self) -> bool {
        self.compiled matches Some(c) ==> {
            &&& c.wf()
            &&& all_thumb(self.instrs@)
            &&& forall|linked: bool, s: Cpu| #[trigger]
                c.outcome(linked, s) == unified(
                    raw_opcodes(self.instrs@),
                    first_instruction(self.entry_pc),
                    true,
                    None,
                    linked,
                    s,
                )
        }
    }

    fn new(entry_pc: u32, instrs: Vec<DecodedInstr>) -> (b: Block)
        ensures
            b@ == (BlockState { instrs: instrs@, entry_pc, compiled: false }),
    {
        Block { instrs, entry_pc, compiled: None }
    }

    /// The number of recorded instructions.
    pub fn len(&self) -> (n: usize)
        ensures
            n == self@.instrs.len(),
    {
        self.instrs.len()
    }

    /// The `k`-th recorded instruction.
    pub fn instr(&self, k: usize) -> (r: DecodedInstr)
        requires
            k < self@.instrs.len(),
        ensures
            r == self@.instrs[k as int],
    {
        self.instrs[k]
    }

    /// The code compiled from the block, which does what its instructions do.
    pub fn code(&self) -> (r: Option<&CompiledBlock>)
        ensures
            r is Some == self@.compiled,
            r matches Some(c) ==> c.wf() && all_thumb(self@.instrs),
            r matches Some(c) ==> forall|linked: bool, s: Cpu| #[trigger]
                c.outcome(linked, s) == unified(
                    raw_opcodes(self@.instrs),
                    first_instruction(self@.entry_pc),
                    true,
                    None,
                    linked,
                    s,
                ),
    {
        proof {
            use_type_invariant(self);
        }
        self.compiled.as_ref()
    }

    /// The encodings of an all-Thumb block.
    fn thumb_opcodes(&self) -> (r: Option<Vec<u16>>)
        ensures
            r is Some == all_thumb(self.instrs@),
            r matches Some(v) ==> v@ == raw_opcodes(self.instrs@),
    {
        let mut raws: Vec<u16> = Vec::new();
        let mut i: usize = 0;
        while i < self.instrs.len()
            invariant
                i <= self.instrs@.len(),
                raws@.len() == i,
                forall|j: int| 0 <= j < i ==> (#[trigger] self.instrs@[j]) is Thumb,
                forall|j: int|
                    0 <= j < i ==> #[trigger] raws@[j] == self.instrs@[j]->Thumb_raw,
            decreases self.instrs@.len() - i,
        {
            match self.instrs[i] {
                DecodedInstr::Thumb { raw } => {
                    raws.push(raw);
                },
                DecodedInstr::Arm { .. } => {
                    proof {
                        assert(!(self.instrs@[i as int] is Thumb));
                    }
                    return None;
                },
            }
            i = i + 1;
        }
        assert(raws@ =~= raw_opcodes(self.instrs@));
        Some(raws)
    }
}

/// The block cache of one core.
#[derive(Debug)]
pub struct BlockCache {
    rom_blocks: HashMap<u32, Rc<Block>, FxBuildHasher>,
    ram_blocks: HashMap<u32, Rc<Block>, FxBuildHasher>,
    /// The block that is being recorded.
    recording: Option<(BlockKey, Vec<DecodedInstr>)>,
    compiler: Option<DynarecCompiler>,
}

/// What a block cache holds.
pub ghost struct CacheState {
    pub rom: Map<u32, BlockState>,
    pub ram: Map<u32, BlockState>,
    pub recording: Option<(BlockKey, Seq<DecodedInstr>)>,
    pub compiler: Option<DynarecCompiler>,
}

impl View for BlockCache {
    type V = CacheState;

    closed spec fn view(&self) -> CacheState {
        CacheState {
            rom: self.rom_blocks@.map_values(|b: Rc<Block>| b@),
            ram: self.ram_blocks@.map_values(|b: Rc<Block>| b@),
            recording: match self.recording {
                Some((key, instrs)) => Some((key, instrs@)),
                None => None,
            },
            compiler: self.compiler,
        }
    }
}

impl CacheState {
    /// A cache without blocks.
    pub open spec fn empty() -> CacheState {
        CacheState { rom: Map::empty(), ram: Map::empty(), recording: None, compiler: None }
    }

    /// Whether there are finitely many blocks.
    pub open spec fn finite(self) -> bool {
        self.rom.dom().finite() && self.ram.dom().finite()
    }

    /// How many blocks there are.
    pub open spec fn count(self) -> nat {
        self.rom.dom().len() + self.ram.dom().len()
    }

    /// Whether a block can be found under a key.
    pub open spec fn has(self, key: BlockKey) -> bool {
        if in_rom(key.0 & 0xffff_fffe) {
            self.rom.contains_key(key.0)
        } else {
            self.ram.contains_key(key.0)
        }
    }

    /// The block under a key.
    pub open spec fn at(self, key: BlockKey) -> BlockState {
        if in_rom(key.0 & 0xffff_fffe) {
            self.rom[key.0]
        } else {
            self.ram[key.0]
        }
    }

    /// Whether a recording is under way for a block in writable memory.
    pub open spec fn records_ram(self) -> bool {
        match self.recording {
            Some((key, _)) => !in_rom(key.0 & 0xffff_fffe),
            None => false,
        }
    }

    /// The cache after writable memory was written.
    pub open spec fn flushed(self) -> CacheState {
        CacheState {
            ram: Map::empty(),
            recording: if self.records_ram() {
                None
            } else {
                self.recording
            },
            ..self
        }
    }

    /// The cache with a new recording.
    pub open spec fn begun(self, key: BlockKey) -> CacheState {
        CacheState {
            recording: Some((key, Seq::empty())),
            ..self
        }
    }

    /// The cache with one more instruction recorded, up to the cap.
    pub open spec fn recorded(self, instr: DecodedInstr) -> CacheState {
        match self.recording {
            Some((key, instrs)) if instrs.len() < RECORDING_CAP => CacheState {
                recording: Some((key, instrs.push(instr))),
                ..self
            },
            _ => self,
        }
    }

    /// The cache without its recording.
    pub open spec fn dropped(self) -> CacheState {
        CacheState { recording: None, ..self }
    }

    /// Whether a finished block gets compiled: an all-Thumb block outside writable memory that
    /// the compiler supports.
    pub open spec fn compiles(self, key: BlockKey, instrs: Seq<DecodedInstr>) -> bool {
        &&& in_rom(key.0 & 0xffff_fffe)
        &&& self.compiler is Some
        &&& self.compiler->0.bus
        &&& all_thumb(instrs)
        &&& unified_ok(raw_opcodes(instrs))
    }

    /// The cache with the recording finished: an empty one is dropped, any other is stored under
    /// its key.
    pub open spec fn finished(self) -> CacheState {
        match self.recording {
            None => self,
            Some((key, instrs)) => if instrs.len() == 0 {
                self.dropped()
            } else {
                let c = self.compiles(key, instrs);
                let stored = BlockState { instrs, entry_pc: key.0, compiled: c };
                let done = CacheState {
                    recording: None,
                    compiler: if c {
                        Some(
                            DynarecCompiler {
                                next_id: (self.compiler->0.next_id + 1) as u64,
                                ..self.compiler->0
                            },
                        )
                    } else {
                        self.compiler
                    },
                    ..self
                };
                if in_rom(key.0 & 0xffff_fffe) {
                    CacheState { rom: done.rom.insert(key.0, stored), ..done }
                } else {
                    CacheState { ram: done.ram.insert(key.0, stored), ..done }
                }
            },
        }
    }

    /// Whether the compiler can number one more block.
    pub open spec fn can_number(self) -> bool {
        self.compiler matches Some(c) ==> c.next_id < u64::MAX
    }
}

/// The address and the instruction set that a key stands for.
pub open spec fn split_key(key: u32) -> (u32, bool) {
    (key & 0xffff_fffe, key % 2 == 1)
}

/// A key is known by its address and its instruction set.
proof fn lemma_split_key(a: u32, b: u32)
    ensures
        split_key(a) == split_key(b) ==> a == b,
        split_key(a).0 % 2 == 0,
{
    lemma_cut(a);
    lemma_cut(b);
}

/// The keys of the compiled blocks in a map.
pub open spec fn compiled_keys(m: Map<u32, BlockState>) -> Set<u32> {
    m.dom().filter(|k: u32| m[k].compiled)
}

impl BlockCache {
    pub fn new() -> (c: BlockCache)
        ensures
            c@ == CacheState::empty(),
    {
        let c = BlockCache {
            rom_blocks: fx_with_capacity(2048),
            ram_blocks: fx_with_capacity(256),
            recording: None,
            compiler: None,
        };
        assert(c@.rom =~= Map::empty());
        assert(c@.ram =~= Map::empty());
        c
    }

    /// The block stored under a key.
    pub fn get(&self, key: BlockKey) -> (r: Option<Rc<Block>>)
        ensures
            r is Some == self@.has(key),
            r matches Some(b) ==> b@ == self@.at(key),
    {
        let found = if is_rom_address(key.0 & 0xffff_fffe) {
            fx_get(&self.rom_blocks, key.0)
        } else {
            fx_get(&self.ram_blocks, key.0)
        };
        match found {
            Some(b) => Some(Rc::clone(b)),
            None => None,
        }
    }

    /// Drops the blocks in writable memory, and the recording of one.
    pub fn flush(&mut self)
        ensures
            final(self)@ == old(self)@.flushed(),
    {
        fx_clear(&mut self.ram_blocks);
        assert(self@.ram =~= Map::empty());
        let drop: bool = match &self.recording {
            Some((key, _)) => !is_rom_address(key.0 & 0xffff_fffe),
            None => false,
        };
        if drop {
            self.recording = None;
        }
    }

    /// Drops everything but the compiler.
    pub fn flush_all(&mut self)
        ensures
            final(self)@ == (CacheState { compiler: old(self)@.compiler, ..CacheState::empty() }),
    {
        fx_clear(&mut self.rom_blocks);
        fx_clear(&mut self.ram_blocks);
        self.recording = None;
        assert(self@.rom =~= Map::empty());
        assert(self@.ram =~= Map::empty());
    }

    /// Installs a compiler for the blocks that are recorded from now on.
    pub fn enable_dynarec(&mut self, compiler: DynarecCompiler)
        ensures
            final(self)@ == (CacheState { compiler: Some(compiler), ..old(self)@ }),
    {
        self.compiler = Some(compiler);
    }

    pub fn has_dynarec(&self) -> (r: bool)
        ensures
            r == (self@.compiler is Some),
    {
        self.compiler.is_some()
    }

    /// Starts recording a block.
    pub fn begin_record(&mut self, key: BlockKey)
        ensures
            final(self)@ == old(self)@.begun(key),
    {
        let instrs: Vec<DecodedInstr> = Vec::with_capacity(8);
        assert(instrs@ =~= Seq::empty());
        self.recording = Some((key, instrs));
    }

    /// Adds an instruction to the recording, if there is one and it is not full.
    pub fn record_instr(&mut self, instr: DecodedInstr)
        ensures
            final(self)@ == old(self)@.recorded(instr),
    {
        if let Some((key, recorded)) = self.recording.take() {
            let mut instrs = recorded;
            if instrs.len() < RECORDING_CAP {
                instrs.push(instr);
            }
            self.recording = Some((key, instrs));
        }
    }

    /// Stores the recorded block, compiled where that is possible. An empty recording is dropped.
    pub fn finish_record(&mut self)
        requires
            old(self)@.can_number(),
        ensures
            final(self)@ == old(self)@.finished(),
    {
        let (key, instrs): (BlockKey, Vec<DecodedInstr>) = match self.recording.take() {
            Some(kb) => kb,
            None => {
                return;
            },
        };
        if instrs.len() == 0 {
            return;
        }
        let mut block = Block::new(key.0, instrs);
        let rom: bool = is_rom_address(key.0 & 0xffff_fffe);
        if rom {
            if let Some(compiler) = self.compiler.take() {
                let mut c = compiler;
                if let Some(raws) = block.thumb_opcodes() {
                    let compiled = c.try_compile_thumb_mem_block_with_branch(
                        raws.as_slice(),
                        (block.entry_pc & 0xffff_fffe).wrapping_sub(4),
                        None,
                    );
                    if compiled.is_some() {
                        block.compiled = compiled;
                    }
                }
                self.compiler = Some(c);
            }
            let ghost b = block@;
            fx_insert(&mut self.rom_blocks, key.0, Rc::new(block));
            assert(self@.rom =~= old(self)@.rom.insert(key.0, b));
        } else {
            let ghost b = block@;
            fx_insert(&mut self.ram_blocks, key.0, Rc::new(block));
            assert(self@.ram =~= old(self)@.ram.insert(key.0, b));
        }
    }

    /// Drops the recording.
    pub fn abort_record(&mut self)
        ensures
            final(self)@ == old(self)@.dropped(),
    {
        self.recording = None;
    }

    pub fn is_recording(&self) -> (r: bool)
        ensures
            r == (self@.recording is Some),
    {
        self.recording.is_some()
    }

    /// The number of stored blocks.
    pub fn len(&self) -> (n: usize)
        requires
            self@.count() <= usize::MAX,
        ensures
            self@.finite(),
            n == self@.count(),
    {
        proof {
            assert(self@.rom.dom() =~= self.rom_blocks@.dom());
            assert(self@.ram.dom() =~= self.ram_blocks@.dom());
        }
        fx_len(&self.rom_blocks) + fx_len(&self.ram_blocks)
    }

    /// The address and the instruction set of every block outside writable memory, each once, in
    /// no particular order.
    pub fn rom_block_keys(&self) -> (r: Vec<(u32, bool)>)
        ensures
            r@.no_duplicates(),
            forall|k: u32|
                #![trigger split_key(k)]
                r@.contains(split_key(k)) == self@.rom.contains_key(k),
            forall|i: int| 0 <= i < r@.len() ==> (#[trigger] r@[i]).0 % 2 == 0,
    {
        let keys: Vec<u32> = fx_keys(&self.rom_blocks);
        let mut r: Vec<(u32, bool)> = Vec::new();
        let mut i: usize = 0;
        while i < keys.len()
            invariant
                i <= keys@.len(),
                r@.len() == i,
                forall|j: int| 0 <= j < i ==> #[trigger] r@[j] == split_key(keys@[j]),
            decreases keys@.len() - i,
        {
            let k: u32 = keys[i];
            r.push((k & 0xffff_fffe, k % 2 == 1));
            i = i + 1;
        }
        proof {
            assert forall|a: int, b: int| 0 <= a < r@.len() && 0 <= b < r@.len() && a != b implies
                r@[a] != r@[b] by {
                lemma_split_key(keys@[a], keys@[b]);
            }
            assert forall|k: u32|
                #![trigger split_key(k)]
                r@.contains(split_key(k)) == self@.rom.contains_key(k) by {
                assert(keys@.contains(k) == self.rom_blocks@.contains_key(k));
                if keys@.contains(k) {
                    let j = choose|j: int| 0 <= j < keys@.len() && keys@[j] == k;
                    assert(r@[j] == split_key(k));
                }
                if r@.contains(split_key(k)) {
                    let j = choose|j: int| 0 <= j < r@.len() && r@[j] == split_key(k);
                    lemma_split_key(keys@[j], k);
                    assert(keys@.contains(k));
                }
            }
            assert forall|j: int| 0 <= j < r@.len() implies (#[trigger] r@[j]).0 % 2 == 0 by {
                lemma_split_key(keys@[j], keys@[j]);
            }
        }
        r
    }

    /// The number of blocks outside writable memory, and how many of them are compiled.
    pub fn compile_stats(&self) -> (r: (usize, usize))
        ensures
            self@.rom.dom().finite(),
            r.0 == self@.rom.dom().len(),
            r.1 == compiled_keys(self@.rom).len(),
    {
        let keys: Vec<u32> = fx_keys(&self.rom_blocks);
        let mut compiled: usize = 0;
        let ghost mut seen: Set<u32> = Set::empty();
        let mut i: usize = 0;
        while i < keys.len()
            invariant
                i <= keys@.len(),
                compiled <= i,
                keys@.no_duplicates(),
                forall|k: u32| #[trigger]
                    keys@.contains(k) == self.rom_blocks@.contains_key(k),
                seen.finite(),
                seen.len() == compiled,
                forall|k: u32| #[trigger]
                    seen.contains(k) == (self.rom_blocks@.contains_key(k)
                        && self.rom_blocks@[k].compiled is Some && exists|j: int|
                        0 <= j < i && keys@[j] == k),
            decreases keys@.len() - i,
        {
            let k: u32 = keys[i];
            proof {
                assert(keys@.contains(k));
                assert(!seen.contains(k));
            }
            if let Some(b) = fx_get(&self.rom_blocks, k) {
                if b.compiled.is_some() {
                    compiled = compiled + 1;
                    proof {
                        seen = seen.insert(k);
                    }
                }
            }
            i = i + 1;
            proof {
                assert forall|q: u32| #[trigger] seen.contains(q) == (
                self.rom_blocks@.contains_key(q) && self.rom_blocks@[q].compiled is Some
                    && exists|j: int| 0 <= j < i && keys@[j] == q) by {
                    if q == k {
                        assert(keys@[i - 1] == q);
                    }
                }
            }
        }
        proof {
            assert(self@.rom.dom() =~= self.rom_blocks@.dom());
            assert(seen =~= compiled_keys(self@.rom)) by {
                assert forall|k: u32| seen.contains(k) == compiled_keys(self@.rom).contains(k) by {
                    if self.rom_blocks@.contains_key(k) {
                        assert(keys@.contains(k));
                    }
                }
            }
        }
        (fx_len(&self.rom_blocks), compiled)
    }
}

impl Default for BlockCache {
    fn default() -> (c: BlockCache)
        ensures
            c@ == CacheState::empty(),
    {
        BlockCache::new()
    }
}

/// Keys of even addresses tell both the address and the instruction set apart.
pub proof fn law_keys_are_distinct(pc1: u32, thumb1: bool, pc2: u32, thumb2: bool)
    requires
        pc1 % 2 == 0,
        pc2 % 2 == 0,
        BlockKey::of(pc1, thumb1) == BlockKey::of(pc2, thumb2),
    ensures
        pc1 == pc2,
        thumb1 == thumb2,
{
    let a = truth(thumb1);
    let b = truth(thumb2);
    assert(pc1 == pc2 && a == b) by (bit_vector)
        requires
            pc1 % 2 == 0,
            pc2 % 2 == 0,
            a < 2,
            b < 2,
            pc1 | a == pc2 | b,
    ;
}

/// A block recorded from the beginning is found under its key afterwards, with exactly the
/// recorded instructions. The blocks under other keys stay, and there is one block more exactly if
/// there was none under the key.
pub proof fn law_recorded_block_is_found(
    c: CacheState,
    key: BlockKey,
    instrs: Seq<DecodedInstr>,
    n: nat,
)
    requires
        0 < n <= instrs.len(),
        n <= RECORDING_CAP,
    ensures
        recorded_all(c.begun(key), instrs, n).finished().has(key),
        recorded_all(c.begun(key), instrs, n).finished().at(key).instrs == instrs.take(n as int),
        recorded_all(c.begun(key), instrs, n).finished().at(key).entry_pc == key.0,
        recorded_all(c.begun(key), instrs, n).finished().recording is None,
        forall|other: BlockKey|
            #![trigger recorded_all(c.begun(key), instrs, n).finished().has(other)]
            other != key ==> recorded_all(c.begun(key), instrs, n).finished().has(other) == c.has(
                other,
            ) && (c.has(other) ==> recorded_all(c.begun(key), instrs, n).finished().at(other)
                == c.at(other)),
        c.finite() ==> recorded_all(c.begun(key), instrs, n).finished().count() == c.count()
            + if c.has(key) {
            0nat
        } else {
            1nat
        },
{
    lemma_recorded_all(c, key, instrs, n);
    let d = recorded_all(c.begun(key), instrs, n);
    assert forall|other: BlockKey|
        #![trigger d.finished().has(other)]
        other != key implies d.finished().has(other) == c.has(other) && (c.has(other)
        ==> d.finished().at(other) == c.at(other)) by {
        law_finish_keeps_others(d, key, other);
    }
    if c.finite() {
        law_finish_counts(d);
    }
}

/// A cache after recording the first `n` of some instructions.
pub open spec fn recorded_all(c: CacheState, instrs: Seq<DecodedInstr>, n: nat) -> CacheState
    decreases n,
{
    if n == 0 {
        c
    } else {
        recorded_all(c, instrs, (n - 1) as nat).recorded(instrs[n - 1])
    }
}

proof fn lemma_recorded_all(c: CacheState, key: BlockKey, instrs: Seq<DecodedInstr>, n: nat)
    requires
        n <= instrs.len(),
        n <= RECORDING_CAP,
    ensures
        recorded_all(c.begun(key), instrs, n) == (CacheState {
            recording: Some((key, instrs.take(n as int))),
            ..c
        }),
    decreases n,
{
    if n == 0 {
        assert(instrs.take(0) =~= Seq::empty());
    } else {
        lemma_recorded_all(c, key, instrs, (n - 1) as nat);
        assert(instrs.take(n as int) =~= instrs.take(n - 1).push(instrs[n - 1]));
    }
}

/// A flush keeps every block outside writable memory and drops every other.
pub proof fn law_flush_keeps_rom(c: CacheState, key: BlockKey)
    ensures
        in_rom(key.0 & 0xffff_fffe) ==> c.flushed().has(key) == c.has(key) && c.flushed().at(key)
            == c.at(key),
        !in_rom(key.0 & 0xffff_fffe) ==> !c.flushed().has(key),
{
}

/// A recording never grows beyond the cap.
pub proof fn law_recording_is_capped(c: CacheState, instr: DecodedInstr)
    requires
        c.recording matches Some(kb) ==> kb.1.len() <= RECORDING_CAP,
    ensures
        c.recorded(instr).recording matches Some(kb) ==> kb.1.len() <= RECORDING_CAP,
{
}

/// Finishing one recording leaves every block under another key as it was.
pub proof fn law_finish_keeps_others(c: CacheState, key: BlockKey, other: BlockKey)
    requires
        c.recording matches Some(kb) ==> kb.0 == key,
        other != key,
    ensures
        c.finished().has(other) == c.has(other),
        c.has(other) ==> c.finished().at(other) == c.at(other),
{
}

/// Finishing a recording adds one block exactly if there was none under its key.
pub proof fn law_finish_counts(c: CacheState)
    requires
        c.finite(),
    ensures
        c.finished().finite(),
        c.finished().count() == c.count() + match c.recording {
            Some((key, instrs)) if instrs.len() > 0 && !c.has(key) => 1nat,
            _ => 0nat,
        },
{
    match c.recording {
        Some((key, instrs)) if instrs.len() > 0 => {
            let done = c.finished();
            if in_rom(key.0 & 0xffff_fffe) {
                assert(done.rom.dom() =~= c.rom.dom().insert(key.0));
            } else {
                assert(done.ram.dom() =~= c.ram.dom().insert(key.0));
            }
        },
        _ => {},
    }
}

} // verus!
