# external_tests

Tests of a kernel that are run from outside it. The kernel runs in QEMU; GDB
stops it at the beginning of each test, and what became of a test is told from
where the kernel stops next.

- `src/macros`: the attribute macros `test_module`, `test_gateway` and `main`.
  They write the code that is linked into the kernel, the register of its tests,
  and the test that drives the debugger.
- `src/instances`: the virtual machine, its QMP socket, the debugger, and a run
  of the tests. Every procedure says what it needs done and goes on with what
  came of it.
- `src/text.rs`: the text operations that both need.
- `app`: the processes, sockets, files and tasks around it.

Everything under `src` is verified with Verus. What is believed of `json`,
`proc-macro2`, `quote`, `syn` and the standard library stands in
`src/instances/value.rs`, `src/macros/tokens.rs`, `src/macros/syntax.rs` and
`src/text.rs`.
