use vstd::prelude::*;

verus! {

/// Host call number that ends the process with a status code.
pub const SYS_EXIT: u64 = 93;

/// Host call number that writes a NUL-terminated text to the debug output.
pub const SYS_DEBUG_WRITE: u64 = 2177;

/// Exit status that reports a panic.
pub const PANIC_STATUS: u64 = 101;

/// A request to the host: the call number and its first argument; the other
/// argument registers stay zero.
#[derive(Debug, Clone, Copy, PartialEq, Eq, Structural)]
pub struct Syscall {
    pub number: u64,
    pub arg: u64,
}

/// The request that ends the process with status `code`.
pub fn syscall_exit(code: u64) -> (r: Syscall)
    ensures
        r == (Syscall { number: SYS_EXIT, arg: code }),
{
    Syscall { number: SYS_EXIT, arg: code }
}

/// The request that writes the NUL-terminated text found at address `buf`.
pub fn syscall_write(buf: u64) -> (r: Syscall)
    ensures
        r == (Syscall { number: SYS_DEBUG_WRITE, arg: buf }),
{
    Syscall { number: SYS_DEBUG_WRITE, arg: buf }
}

/// The request issued when the program panics: exit with the panic status.
pub fn panic_handler() -> (r: Syscall)
    ensures
        r == (Syscall { number: SYS_EXIT, arg: PANIC_STATUS }),
{
    syscall_exit(PANIC_STATUS)
}

} // verus!
