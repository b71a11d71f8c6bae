//! Blocks in the interpreter and as compiled code.

use rustboyadvance::dynarec::test_utils::differential;

#[test]
fn helper_imports_resolve() {
    // A trivial differential that the dynarec already handles: MOV R0,#7 via ARM imm DP.
    assert!(differential(&[0xE3A0_0007u32], [0u32; 15]));
}
