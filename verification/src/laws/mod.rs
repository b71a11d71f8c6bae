//! What instructions, modes and hashes mean, over plain numbers.

pub mod arm;
pub mod conditions;
pub mod hash;
pub mod jumps;
pub mod layouts;
pub mod leaves;
pub mod lists;
pub mod modes;
pub mod shifts;
pub mod thumb;
pub mod transfers;
pub mod words;
