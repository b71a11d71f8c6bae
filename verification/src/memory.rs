//! The memory bus as the core sees it, and a flat memory for tests and tools.

use vstd::prelude::*;

verus! {

/// Whether an access follows the one before it.
#[derive(Clone, Copy, PartialEq, Eq, Structural, Debug)]
pub enum MemoryAccess {
    NonSeq,
    Sequential,
}

/// One request to a memory bus.
#[derive(Clone, Copy, PartialEq, Eq, Structural, Debug)]
pub enum Request {
    Load8(u32, MemoryAccess),
    Load16(u32, MemoryAccess),
    Load32(u32, MemoryAccess),
    Store8(u32, u8, MemoryAccess),
    Store16(u32, u16, MemoryAccess),
    Store32(u32, u32, MemoryAccess),
    IdleCycle,
    TakeBlockCacheDirty,
    CachedBlockShouldAbort,
    PayThumbFetchExtraNonseq(u32),
}

/// A memory bus. It is a state machine: each request has a reply and leads to a next state.
pub trait MemoryInterface: Sized {
    /// The states of the bus.
    type State;

    /// The state that this bus is in.
    spec fn state(&self) -> Self::State;

    /// The reply to a request.
    spec fn reply(state: Self::State, request: Request) -> u32;

    /// The state after a request.
    spec fn next(state: Self::State, request: Request) -> Self::State;

    fn load_8(&mut self, addr: u32, access: MemoryAccess) -> (r: u8)
        ensures
            r == Self::reply(old(self).state(), Request::Load8(addr, access)),
            final(self).state() == Self::next(old(self).state(), Request::Load8(addr, access)),
    ;

    fn load_16(&mut self, addr: u32, access: MemoryAccess) -> (r: u16)
        ensures
            r == Self::reply(old(self).state(), Request::Load16(addr, access)),
            final(self).state() == Self::next(old(self).state(), Request::Load16(addr, access)),
    ;

    fn load_32(&mut self, addr: u32, access: MemoryAccess) -> (r: u32)
        ensures
            r == Self::reply(old(self).state(), Request::Load32(addr, access)),
            final(self).state() == Self::next(old(self).state(), Request::Load32(addr, access)),
    ;

    fn store_8(&mut self, addr: u32, value: u8, access: MemoryAccess)
        ensures
            final(self).state() == Self::next(
                old(self).state(),
                Request::Store8(addr, value, access),
            ),
    ;

    fn store_16(&mut self, addr: u32, value: u16, access: MemoryAccess)
        ensures
            final(self).state() == Self::next(
                old(self).state(),
                Request::Store16(addr, value, access),
            ),
    ;

    fn store_32(&mut self, addr: u32, value: u32, access: MemoryAccess)
        ensures
            final(self).state() == Self::next(
                old(self).state(),
                Request::Store32(addr, value, access),
            ),
    ;

    /// One internal cycle.
    fn idle_cycle(&mut self)
        ensures
            final(self).state() == Self::next(old(self).state(), Request::IdleCycle),
    ;

    /// Whether writable memory was written since the last time this was asked.
    fn take_block_cache_dirty(&mut self) -> (r: bool)
        ensures
            r == (Self::reply(old(self).state(), Request::TakeBlockCacheDirty) != 0),
            final(self).state() == Self::next(old(self).state(), Request::TakeBlockCacheDirty),
    ;

    /// Whether a running block must give way to an interrupt or another event.
    fn cached_block_should_abort(&self) -> (r: bool)
        ensures
            r == (Self::reply(self.state(), Request::CachedBlockShouldAbort) != 0),
    ;

    /// Pays what a non-sequential Thumb fetch at `fetch_pc` costs beyond a sequential one.
    fn pay_thumb_fetch_extra_nonseq(&mut self, fetch_pc: u32)
        ensures
            final(self).state() == Self::next(
                old(self).state(),
                Request::PayThumbFetchExtraNonseq(fetch_pc),
            ),
    ;
}

/// A flat little-endian memory. Loads beyond its end give zero and stores there are dropped.
#[derive(Debug)]
pub struct SimpleMemory {
    pub data: Vec<u8>,
}

/// The byte at an address.
pub open spec fn byte_at(data: Seq<u8>, addr: int) -> u8 {
    if 0 <= addr < data.len() {
        data[addr]
    } else {
        0
    }
}

/// A memory with one byte replaced.
pub open spec fn with_byte(data: Seq<u8>, addr: int, v: u8) -> Seq<u8> {
    if 0 <= addr < data.len() {
        data.update(addr, v)
    } else {
        data
    }
}

/// The halfword at an address.
pub open spec fn half_at(data: Seq<u8>, addr: int) -> u16 {
    (byte_at(data, addr) + 0x100 * byte_at(data, addr + 1)) as u16
}

/// The word at an address.
pub open spec fn word_at(data: Seq<u8>, addr: int) -> u32 {
    (half_at(data, addr) + 0x1_0000 * half_at(data, addr + 2)) as u32
}

/// A memory with a halfword replaced.
pub open spec fn with_half(data: Seq<u8>, addr: int, v: u16) -> Seq<u8> {
    with_byte(with_byte(data, addr, (v % 0x100) as u8), addr + 1, (v / 0x100) as u8)
}

/// A memory with a word replaced.
pub open spec fn with_word(data: Seq<u8>, addr: int, v: u32) -> Seq<u8> {
    with_half(with_half(data, addr, (v % 0x1_0000) as u16), addr + 2, (v / 0x1_0000) as u16)
}

impl SimpleMemory {
    /// A memory of `capacity` zero bytes.
    pub fn new(capacity: usize) -> (m: SimpleMemory)
        ensures
            m.data@ == Seq::new(capacity as nat, |i: int| 0u8),
    {
        let mut data: Vec<u8> = Vec::new();
        while data.len() < capacity
            invariant
                data@.len() <= capacity,
                forall|i: int| 0 <= i < data@.len() ==> data@[i] == 0,
            decreases capacity - data@.len(),
        {
            data.push(0);
        }
        assert(data@ =~= Seq::new(capacity as nat, |i: int| 0u8));
        SimpleMemory { data }
    }

    /// Copies a program to the start of the memory.
    pub fn load_program(&mut self, program: &[u8])
        requires
            program@.len() <= old(self).data@.len(),
        ensures
            final(self).data@ == program@ + old(self).data@.subrange(
                program@.len() as int,
                old(self).data@.len() as int,
            ),
    {
        let mut i: usize = 0;
        while i < program.len()
            invariant
                i <= program@.len(),
                program@.len() <= old(self).data@.len(),
                self.data@.len() == old(self).data@.len(),
                forall|j: int| 0 <= j < i ==> self.data@[j] == program@[j],
                forall|j: int| i <= j < self.data@.len() ==> self.data@[j] == old(self).data@[j],
            decreases program@.len() - i,
        {
            self.data.set(i, program[i]);
            i = i + 1;
        }
        assert(self.data@ =~= program@ + old(self).data@.subrange(
            program@.len() as int,
            old(self).data@.len() as int,
        ));
    }

    fn byte(&self, addr: u64) -> (r: u8)
        ensures
            r == byte_at(self.data@, addr as int),
    {
        if addr < self.data.len() as u64 {
            self.data[addr as usize]
        } else {
            0
        }
    }

    fn set_byte(&mut self, addr: u64, v: u8)
        ensures
            final(self).data@ == with_byte(old(self).data@, addr as int, v),
    {
        if addr < self.data.len() as u64 {
            self.data.set(addr as usize, v);
        }
    }

    fn half(&self, addr: u64) -> (r: u16)
        requires
            addr < 0x2_0000_0000,
        ensures
            r == half_at(self.data@, addr as int),
    {
        self.byte(addr) as u16 + 0x100 * (self.byte(addr + 1) as u16)
    }

    fn set_half(&mut self, addr: u64, v: u16)
        requires
            addr < 0x2_0000_0000,
        ensures
            final(self).data@ == with_half(old(self).data@, addr as int, v),
    {
        self.set_byte(addr, (v % 0x100) as u8);
        self.set_byte(addr + 1, (v / 0x100) as u8);
    }
}

impl MemoryInterface for SimpleMemory {
    type State = Seq<u8>;

    open spec fn state(&self) -> Seq<u8> {
        self.data@
    }

    open spec fn reply(state: Seq<u8>, request: Request) -> u32 {
        match request {
            Request::Load8(addr, _) => byte_at(state, addr as int) as u32,
            Request::Load16(addr, _) => half_at(state, addr as int) as u32,
            Request::Load32(addr, _) => word_at(state, addr as int),
            _ => 0,
        }
    }

    open spec fn next(state: Seq<u8>, request: Request) -> Seq<u8> {
        match request {
            Request::Store8(addr, v, _) => with_byte(state, addr as int, v),
            Request::Store16(addr, v, _) => with_half(state, addr as int, v),
            Request::Store32(addr, v, _) => with_word(state, addr as int, v),
            _ => state,
        }
    }

    fn load_8(&mut self, addr: u32, _access: MemoryAccess) -> (r: u8) {
        self.byte(addr as u64)
    }

    fn load_16(&mut self, addr: u32, _access: MemoryAccess) -> (r: u16) {
        self.half(addr as u64)
    }

    fn load_32(&mut self, addr: u32, _access: MemoryAccess) -> (r: u32) {
        self.half(addr as u64) as u32 + 0x1_0000 * (self.half(addr as u64 + 2) as u32)
    }

    fn store_8(&mut self, addr: u32, value: u8, _access: MemoryAccess) {
        self.set_byte(addr as u64, value);
    }

    fn store_16(&mut self, addr: u32, value: u16, _access: MemoryAccess) {
        self.set_half(addr as u64, value);
    }

    fn store_32(&mut self, addr: u32, value: u32, _access: MemoryAccess) {
        self.set_half(addr as u64, (value % 0x1_0000) as u16);
        self.set_half(addr as u64 + 2, (value / 0x1_0000) as u16);
    }

    fn idle_cycle(&mut self) {
    }

    fn take_block_cache_dirty(&mut self) -> (r: bool) {
        false
    }

    fn cached_block_should_abort(&self) -> (r: bool) {
        false
    }

    fn pay_thumb_fetch_extra_nonseq(&mut self, _fetch_pc: u32) {
    }
}

/// A word load gives back what a word store wrote, where the word lies inside the memory.
pub proof fn law_simple_memory_round_trip(
    data: Seq<u8>,
    addr: u32,
    value: u32,
    load: MemoryAccess,
    store: MemoryAccess,
)
    requires
        addr + 4 <= data.len(),
    ensures
        SimpleMemory::reply(
            SimpleMemory::next(data, Request::Store32(addr, value, store)),
            Request::Load32(addr, load),
        ) == value,
{
}

} // verus!
