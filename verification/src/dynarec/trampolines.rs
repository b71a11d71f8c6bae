//! A core as the bus of compiled code.

use vstd::prelude::*;
use crate::bits::{rotate_right, rotated_right, truth, word};
use crate::cpu::{Arm7tdmiCore, CoreState};
use crate::dynarec::bus::Bus;
use crate::dynarec::ir::{BusCall, Callee};
use crate::laws::words::lemma_cut;
use crate::memory::{MemoryAccess, MemoryInterface, Request};

verus! {

impl<I: MemoryInterface> CoreState<I> {
    /// The state after `n` Thumb fetches from `pc` upwards. The first uses the access that was
    /// due, all others are sequential.
    pub open spec fn fetched_n(self, pc: u32, n: nat) -> Self
        decreases n,
    {
        if n == 0 {
            self
        } else {
            let at = word(pc + 2 * (n - 1));
            self.fetched_n(pc, (n - 1) as nat).fetched16(at).with_fetch(
                MemoryAccess::Sequential,
            ).with_pc(at.wrapping_add(2))
        }
    }

    /// A word load for compiled code: a misaligned word is rotated so that the addressed byte
    /// comes lowest.
    pub open spec fn rotated_word(self, addr: u32) -> u32 {
        let v = self.got(Request::Load32(addr, MemoryAccess::NonSeq));
        if addr & 3 != 0 {
            rotated_right(v, (8 * (addr & 3)) as u32)
        } else {
            v
        }
    }

    /// The request behind a halfword load for compiled code.
    pub open spec fn half_request(addr: u32) -> Request {
        Request::Load16(
            if addr & 1 != 0 {
                addr & 0xffff_fffe
            } else {
                addr
            },
            MemoryAccess::NonSeq,
        )
    }

    /// The check for control to return to the dispatcher: 1 if writable memory was written, which
    /// also drops the blocks there, or if the bus asks.
    pub open spec fn abort_checked(self) -> (Self, u32) {
        let dirty = self.got(Request::TakeBlockCacheDirty) != 0;
        let s = self.did(Request::TakeBlockCacheDirty);
        if dirty {
            (s.with_cache(s.cache.flushed()), 1)
        } else {
            (s, truth(s.got(Request::CachedBlockShouldAbort) != 0))
        }
    }
}

impl<I: MemoryInterface> Bus for Arm7tdmiCore<I> {
    type State = CoreState<I>;

    open spec fn state(&self) -> CoreState<I> {
        self@
    }

    open spec fn reply(state: CoreState<I>, call: BusCall) -> u32 {
        let addr = call.a;
        match call.to {
            Callee::Load32 => state.got(Request::Load32(addr, MemoryAccess::NonSeq)),
            Callee::Load8 => state.got(Request::Load8(addr, MemoryAccess::NonSeq)),
            Callee::Load32Sequential => state.got(Request::Load32(addr, MemoryAccess::Sequential)),
            Callee::LoadWithIdle16 => {
                let v = state.got(CoreState::<I>::half_request(addr));
                if addr & 1 != 0 {
                    rotated_right(v, 8)
                } else {
                    v
                }
            },
            Callee::LoadWithIdle32 => state.rotated_word(addr),
            Callee::LoadWithIdle8 => state.got(Request::Load8(addr, MemoryAccess::NonSeq)),
            Callee::ChainAbortCheck => state.abort_checked().1,
            _ => 0,
        }
    }

    open spec fn next(state: CoreState<I>, call: BusCall) -> CoreState<I> {
        let addr = call.a;
        let nonseq = MemoryAccess::NonSeq;
        match call.to {
            Callee::Load32 => state.did(Request::Load32(addr, nonseq)),
            Callee::Store32 => state.did(Request::Store32(addr, call.b, nonseq)),
            Callee::Load8 => state.did(Request::Load8(addr, nonseq)),
            Callee::Store8 => state.did(Request::Store8(addr, (call.b % 0x100) as u8, nonseq)),
            Callee::Load32Sequential => state.did(Request::Load32(addr, MemoryAccess::Sequential)),
            Callee::Store32Sequential => state.did(
                Request::Store32(addr, call.b, MemoryAccess::Sequential),
            ),
            Callee::Store16 => state.did(
                Request::Store16(addr & 0xffff_fffe, (call.b % 0x1_0000) as u16, nonseq),
            ),
            Callee::LoadWithIdle16 => state.did(CoreState::<I>::half_request(addr)).did(
                Request::IdleCycle,
            ),
            Callee::LoadWithIdle32 => state.did(Request::Load32(addr, nonseq)).did(
                Request::IdleCycle,
            ),
            Callee::LoadWithIdle8 => state.did(Request::Load8(addr, nonseq)).did(
                Request::IdleCycle,
            ),
            Callee::SetNextFetchNonseq => state.with_fetch(nonseq),
            Callee::PayThumbFetchExtraNonseq => state.did(Request::PayThumbFetchExtraNonseq(addr)),
            Callee::IdleCycle => state.did(Request::IdleCycle),
            Callee::ThumbFetchN => state.fetched_n(addr, call.b as nat),
            Callee::ChainAbortCheck => state.abort_checked().0,
            Callee::AbortMidBlock => CoreState {
                pipeline: seq![call.b, call.c],
                ..state.with_pc(addr).with_fetch(MemoryAccess::Sequential)
            },
        }
    }

    fn load_32(&mut self, addr: u32) -> (r: u32) {
        self.bus.load_32(addr, MemoryAccess::NonSeq)
    }

    fn store_32(&mut self, addr: u32, value: u32) {
        self.bus.store_32(addr, value, MemoryAccess::NonSeq);
    }

    fn load_8(&mut self, addr: u32) -> (r: u32) {
        self.bus.load_8(addr, MemoryAccess::NonSeq) as u32
    }

    fn store_8(&mut self, addr: u32, value: u32) {
        self.bus.store_8(addr, (value % 0x100) as u8, MemoryAccess::NonSeq);
    }

    fn load_32_seq(&mut self, addr: u32) -> (r: u32) {
        self.bus.load_32(addr, MemoryAccess::Sequential)
    }

    fn store_32_seq(&mut self, addr: u32, value: u32) {
        self.bus.store_32(addr, value, MemoryAccess::Sequential);
    }

    fn store_16(&mut self, addr: u32, value: u32) {
        self.bus.store_16(addr & 0xffff_fffe, (value % 0x1_0000) as u16, MemoryAccess::NonSeq);
    }

    fn load_with_idle_16(&mut self, addr: u32) -> (r: u32) {
        let v: u32 = if addr & 1 != 0 {
            rotate_right(self.bus.load_16(addr & 0xffff_fffe, MemoryAccess::NonSeq) as u32, 8)
        } else {
            self.bus.load_16(addr, MemoryAccess::NonSeq) as u32
        };
        self.bus.idle_cycle();
        v
    }

    fn load_with_idle_32(&mut self, addr: u32) -> (r: u32) {
        let v: u32 = self.bus.load_32(addr, MemoryAccess::NonSeq);
        proof {
            lemma_cut(addr);
        }
        let rotated: u32 = if addr & 3 != 0 {
            rotate_right(v, 8 * (addr & 3))
        } else {
            v
        };
        self.bus.idle_cycle();
        rotated
    }

    fn load_with_idle_8(&mut self, addr: u32) -> (r: u32) {
        let v: u32 = self.bus.load_8(addr, MemoryAccess::NonSeq) as u32;
        self.bus.idle_cycle();
        v
    }

    fn set_next_fetch_nonseq(&mut self) {
        self.next_fetch_access = MemoryAccess::NonSeq;
    }

    fn pay_thumb_fetch_extra_nonseq(&mut self, fetch_pc: u32) {
        self.bus.pay_thumb_fetch_extra_nonseq(fetch_pc);
    }

    fn idle_cycle(&mut self) {
        self.bus.idle_cycle();
    }

    fn thumb_fetch_n(&mut self, first_fetch_pc: u32, count: u32) {
        let mut pc: u32 = first_fetch_pc;
        let mut i: u32 = 0;
        while i < count
            invariant
                i <= count,
                pc == word(first_fetch_pc + 2 * i),
                self@ == old(self)@.fetched_n(first_fetch_pc, i as nat),
            decreases count - i,
        {
            self.aot_thumb_fetch_only(pc);
            self.next_fetch_access = MemoryAccess::Sequential;
            pc = pc.wrapping_add(2);
            self.pc = pc;
            i = i + 1;
        }
    }

    fn chain_abort_check(&mut self) -> (r: u32) {
        if self.bus.take_block_cache_dirty() {
            self.block_cache.flush();
            return 1;
        }
        if self.bus.cached_block_should_abort() {
            return 1;
        }
        0
    }

    fn abort_mid_block(&mut self, pc: u32, pipe0: u32, pipe1: u32) {
        self.pc = pc;
        self.pipeline[0] = pipe0;
        self.pipeline[1] = pipe1;
        self.next_fetch_access = MemoryAccess::Sequential;
        assert(self@.pipeline =~= seq![pipe0, pipe1]);
    }
}

} // verus!
