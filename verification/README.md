# rustboyadvance

An ARM7TDMI core with a cached interpreter, a Thumb fast path and a block recompiler, verified with
Verus.

* `src/` is the library. The core (`cpu`, `psr`, `alu`, `cond`, `memory`), single steps and cached
  blocks (`dispatch`, `cache`), the fast path and the interpreter's handlers (`fastpath`,
  `interpreter`), recorded input (`replay`), trace files (`trace`), texts (`status`, `text`) and the
  decisions of the frontends (`frontend`).
* `src/dynarec/` is the recompiler. `decode` reads opcodes, `sem` says what they do, `emit`, `flags`,
  `arm`, `thumb` and `unified` turn blocks into fragments of a small intermediate language (`ir`,
  `block`), and `clif`, `lower` and `native` hand them to Cranelift.
* Two chains of proofs tie it together. Compiled blocks do what the interpreter does: `agreement` for
  data processing, `transfers` for loads and stores, `tails` for branches and `parity` for whole
  blocks, those that are left in the middle (`leaving`) among them. Lowered blocks do what compiled blocks do: `faithful`, by the meaning that `meaning` gives
  to the entries of a function builder.
* `stepping` shows that a step of the fast path is a step of the interpreter, and `dynarec::stack`
  that a pop gives back what a push stored, and `dynarec::paying` that a compiled block pays what
  the interpreter pays.
* `app/` holds the programs around it: the window, the benchmark, the JIT module and the functions
  that native code calls back.
* `tests/` runs all of it on concrete values, lowered blocks in Cranelift's own interpreter among
  them.

A memory bus is a state machine: `MemoryInterface` and `dynarec::bus::Bus` say what each request
replies and which state it leads to, and every contract on the core speaks of the requests that are
made and of their order.
