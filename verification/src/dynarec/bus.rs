//! The calls that compiled code makes into its surroundings.

use vstd::prelude::*;
use crate::dynarec::ir::{BusCall, Callee};

verus! {

/// What compiled code calls out to. A bus is a state machine: each call has a reply and leads to a
/// next state.
pub trait Bus: Sized {
    /// The states of the bus.
    type State;

    /// The state that this bus is in.
    spec fn state(&self) -> Self::State;

    /// The reply to a call.
    spec fn reply(state: Self::State, call: BusCall) -> u32;

    /// The state after a call.
    spec fn next(state: Self::State, call: BusCall) -> Self::State;

    /// A non-sequential word load.
    fn load_32(&mut self, addr: u32) -> (r: u32)
        ensures
            r == Self::reply(
                old(self).state(),
                BusCall { to: Callee::Load32, a: addr, b: 0, c: 0 },
            ),
            final(self).state() == Self::next(
                old(self).state(),
                BusCall { to: Callee::Load32, a: addr, b: 0, c: 0 },
            ),
    ;

    /// A non-sequential word store.
    fn store_32(&mut self, addr: u32, value: u32)
        ensures
            final(self).state() == Self::next(
                old(self).state(),
                BusCall { to: Callee::Store32, a: addr, b: value, c: 0 },
            ),
    ;

    /// A byte load.
    fn load_8(&mut self, addr: u32) -> (r: u32)
        ensures
            r == Self::reply(old(self).state(), BusCall { to: Callee::Load8, a: addr, b: 0, c: 0 }),
            final(self).state() == Self::next(
                old(self).state(),
                BusCall { to: Callee::Load8, a: addr, b: 0, c: 0 },
            ),
    ;

    /// A store of the low byte of `value`.
    fn store_8(&mut self, addr: u32, value: u32)
        ensures
            final(self).state() == Self::next(
                old(self).state(),
                BusCall { to: Callee::Store8, a: addr, b: value, c: 0 },
            ),
    ;

    /// A sequential word load.
    fn load_32_seq(&mut self, addr: u32) -> (r: u32)
        ensures
            r == Self::reply(
                old(self).state(),
                BusCall { to: Callee::Load32Sequential, a: addr, b: 0, c: 0 },
            ),
            final(self).state() == Self::next(
                old(self).state(),
                BusCall { to: Callee::Load32Sequential, a: addr, b: 0, c: 0 },
            ),
    ;

    /// A sequential word store.
    fn store_32_seq(&mut self, addr: u32, value: u32)
        ensures
            final(self).state() == Self::next(
                old(self).state(),
                BusCall { to: Callee::Store32Sequential, a: addr, b: value, c: 0 },
            ),
    ;

    /// A store of the low halfword of `value`.
    fn store_16(&mut self, addr: u32, value: u32)
        ensures
            final(self).state() == Self::next(
                old(self).state(),
                BusCall { to: Callee::Store16, a: addr, b: value, c: 0 },
            ),
    ;

    /// A halfword load and the internal cycle after it.
    fn load_with_idle_16(&mut self, addr: u32) -> (r: u32)
        ensures
            r == Self::reply(
                old(self).state(),
                BusCall { to: Callee::LoadWithIdle16, a: addr, b: 0, c: 0 },
            ),
            final(self).state() == Self::next(
                old(self).state(),
                BusCall { to: Callee::LoadWithIdle16, a: addr, b: 0, c: 0 },
            ),
    ;

    /// A word load and the internal cycle after it.
    fn load_with_idle_32(&mut self, addr: u32) -> (r: u32)
        ensures
            r == Self::reply(
                old(self).state(),
                BusCall { to: Callee::LoadWithIdle32, a: addr, b: 0, c: 0 },
            ),
            final(self).state() == Self::next(
                old(self).state(),
                BusCall { to: Callee::LoadWithIdle32, a: addr, b: 0, c: 0 },
            ),
    ;

    /// A byte load and the internal cycle after it.
    fn load_with_idle_8(&mut self, addr: u32) -> (r: u32)
        ensures
            r == Self::reply(
                old(self).state(),
                BusCall { to: Callee::LoadWithIdle8, a: addr, b: 0, c: 0 },
            ),
            final(self).state() == Self::next(
                old(self).state(),
                BusCall { to: Callee::LoadWithIdle8, a: addr, b: 0, c: 0 },
            ),
    ;

    /// Makes the next fetch non-sequential.
    fn set_next_fetch_nonseq(&mut self)
        ensures
            final(self).state() == Self::next(
                old(self).state(),
                BusCall { to: Callee::SetNextFetchNonseq, a: 0, b: 0, c: 0 },
            ),
    ;

    /// Pays what a non-sequential fetch costs beyond a sequential one.
    fn pay_thumb_fetch_extra_nonseq(&mut self, fetch_pc: u32)
        ensures
            final(self).state() == Self::next(
                old(self).state(),
                BusCall { to: Callee::PayThumbFetchExtraNonseq, a: fetch_pc, b: 0, c: 0 },
            ),
    ;

    /// One internal cycle.
    fn idle_cycle(&mut self)
        ensures
            final(self).state() == Self::next(
                old(self).state(),
                BusCall { to: Callee::IdleCycle, a: 0, b: 0, c: 0 },
            ),
    ;

    /// Pays for `count` Thumb fetches and moves the pipeline along.
    fn thumb_fetch_n(&mut self, first_fetch_pc: u32, count: u32)
        ensures
            final(self).state() == Self::next(
                old(self).state(),
                BusCall { to: Callee::ThumbFetchN, a: first_fetch_pc, b: count, c: 0 },
            ),
    ;

    /// Nonzero if control must return to the dispatcher.
    fn chain_abort_check(&mut self) -> (r: u32)
        ensures
            r == Self::reply(
                old(self).state(),
                BusCall { to: Callee::ChainAbortCheck, a: 0, b: 0, c: 0 },
            ),
            final(self).state() == Self::next(
                old(self).state(),
                BusCall { to: Callee::ChainAbortCheck, a: 0, b: 0, c: 0 },
            ),
    ;

    /// Restores the pipeline for a block left in the middle.
    fn abort_mid_block(&mut self, pc: u32, pipe0: u32, pipe1: u32)
        ensures
            final(self).state() == Self::next(
                old(self).state(),
                BusCall { to: Callee::AbortMidBlock, a: pc, b: pipe0, c: pipe1 },
            ),
    ;
}

/// The bus after a series of calls.
pub open spec fn after_calls<B: Bus>(state: B::State, calls: Seq<BusCall>) -> B::State
    decreases calls.len(),
{
    if calls.len() == 0 {
        state
    } else {
        B::next(after_calls::<B>(state, calls.drop_last()), calls.last())
    }
}

/// The reply to the last of a series of calls.
pub open spec fn last_reply<B: Bus>(state: B::State, calls: Seq<BusCall>) -> u32 {
    B::reply(after_calls::<B>(state, calls.drop_last()), calls.last())
}

/// Whether a call is well-formed: arguments that the callee does not take are zero.
pub open spec fn call_ok(call: BusCall) -> bool {
    &&& call.to.takes() < 1 ==> call.a == 0
    &&& call.to.takes() < 2 ==> call.b == 0
    &&& call.to.takes() < 3 ==> call.c == 0
}

/// Makes a call; the result of a call without a reply is zero.
pub fn dispatch<B: Bus>(bus: &mut B, call: BusCall) -> (r: u32)
    requires
        call_ok(call),
    ensures
        r == if call.to.answers() {
            B::reply(old(bus).state(), call)
        } else {
            0
        },
        final(bus).state() == B::next(old(bus).state(), call),
{
    match call.to {
        Callee::Load32 => bus.load_32(call.a),
        Callee::Store32 => {
            bus.store_32(call.a, call.b);
            0
        },
        Callee::Load8 => bus.load_8(call.a),
        Callee::Store8 => {
            bus.store_8(call.a, call.b);
            0
        },
        Callee::Load32Sequential => bus.load_32_seq(call.a),
        Callee::Store32Sequential => {
            bus.store_32_seq(call.a, call.b);
            0
        },
        Callee::Store16 => {
            bus.store_16(call.a, call.b);
            0
        },
        Callee::LoadWithIdle16 => bus.load_with_idle_16(call.a),
        Callee::LoadWithIdle32 => bus.load_with_idle_32(call.a),
        Callee::LoadWithIdle8 => bus.load_with_idle_8(call.a),
        Callee::SetNextFetchNonseq => {
            bus.set_next_fetch_nonseq();
            0
        },
        Callee::PayThumbFetchExtraNonseq => {
            bus.pay_thumb_fetch_extra_nonseq(call.a);
            0
        },
        Callee::IdleCycle => {
            bus.idle_cycle();
            0
        },
        Callee::ThumbFetchN => {
            bus.thumb_fetch_n(call.a, call.b);
            0
        },
        Callee::ChainAbortCheck => bus.chain_abort_check(),
        Callee::AbortMidBlock => {
            bus.abort_mid_block(call.a, call.b, call.c);
            0
        },
    }
}

/// A bus with nothing on it: every load gives zero and control never has to return.
pub struct NoBus;

impl Bus for NoBus {
    type State = ();

    open spec fn state(&self) -> () {
        ()
    }

    open spec fn reply(state: (), call: BusCall) -> u32 {
        0
    }

    open spec fn next(state: (), call: BusCall) -> () {
        ()
    }

    fn load_32(&mut self, _addr: u32) -> (r: u32) {
        0
    }

    fn store_32(&mut self, _addr: u32, _value: u32) {
    }

    fn load_8(&mut self, _addr: u32) -> (r: u32) {
        0
    }

    fn store_8(&mut self, _addr: u32, _value: u32) {
    }

    fn load_32_seq(&mut self, _addr: u32) -> (r: u32) {
        0
    }

    fn store_32_seq(&mut self, _addr: u32, _value: u32) {
    }

    fn store_16(&mut self, _addr: u32, _value: u32) {
    }

    fn load_with_idle_16(&mut self, _addr: u32) -> (r: u32) {
        0
    }

    fn load_with_idle_32(&mut self, _addr: u32) -> (r: u32) {
        0
    }

    fn load_with_idle_8(&mut self, _addr: u32) -> (r: u32) {
        0
    }

    fn set_next_fetch_nonseq(&mut self) {
    }

    fn pay_thumb_fetch_extra_nonseq(&mut self, _fetch_pc: u32) {
    }

    fn idle_cycle(&mut self) {
    }

    fn thumb_fetch_n(&mut self, _first_fetch_pc: u32, _count: u32) {
    }

    fn chain_abort_check(&mut self) -> (r: u32) {
        0
    }

    fn abort_mid_block(&mut self, _pc: u32, _pipe0: u32, _pipe1: u32) {
    }
}

} // verus!
