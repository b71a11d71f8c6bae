//! An ARM7TDMI core with a block cache, a Thumb fast path and a block recompiler.

pub mod alu;
pub mod bits;
pub mod cache;
pub mod cond;
pub mod cpu;
pub mod dispatch;
pub mod dynarec;
pub mod fastpath;
pub mod frontend;
mod fx;
pub mod interpreter;
pub mod laws;
pub mod memory;
pub mod psr;
pub mod replay;
pub mod status;
pub mod stepping;
pub mod text;
pub mod trace;
