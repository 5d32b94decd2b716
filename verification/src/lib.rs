//! Tests of a kernel, run from outside: the kernel runs in QEMU, and GDB stops
//! it at the beginning of each of its tests.
//!
//! [`macros`] writes the code that is linked into the kernel and the test that
//! drives the debugger; [`instances`] drives the virtual machine and the
//! debugger.
pub mod instances;
pub mod laws;
pub mod macros;
pub mod text;
