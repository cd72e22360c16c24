//! The memory-protection scope around a write to code.
use vstd::prelude::*;

verus! {

/// The protection that makes a page readable, writable and executable.
pub const PAGE_EXECUTE_READWRITE: u32 = 0x40;

/// A byte range whose protection was changed to read/write/execute, with
/// the protection it had before.
#[derive(Debug, Clone, Copy, PartialEq, Eq, Structural)]
pub struct MemoryProtector {
    pub va: usize,
    pub size: usize,
    pub old_protect: u32,
}

impl MemoryProtector {
    /// The protection to set back when the scope ends; `None` when the range
    /// already was read/write/execute and nothing is to be done.
    pub open spec fn restore_spec(&self) -> Option<u32> {
        if self.old_protect == PAGE_EXECUTE_READWRITE {
            None
        } else {
            Some(self.old_protect)
        }
    }

    /// The scope over `size` bytes at `va`, whose protection was
    /// `old_protect` before it was made read/write/execute.
    pub fn new(va: usize, size: usize, old_protect: u32) -> (r: MemoryProtector)
        ensures
            r == (MemoryProtector { va, size, old_protect }),
    {
        MemoryProtector { va, size, old_protect }
    }

    /// The protection to set back when the scope ends, if any.
    pub fn restore_protection(&self) -> (r: Option<u32>)
        ensures
            r == self.restore_spec(),
    {
        if self.old_protect == PAGE_EXECUTE_READWRITE {
            None
        } else {
            Some(self.old_protect)
        }
    }
}

/// The protection of a range after a scope over it was acquired and
/// released, when it was `initial` before.
pub open spec fn protection_after_scope(va: usize, size: usize, initial: u32) -> u32 {
    let scope = MemoryProtector { va, size, old_protect: initial };
    match scope.restore_spec() {
        None => PAGE_EXECUTE_READWRITE,
        Some(p) => p,
    }
}

/// Acquiring and releasing a protection scope leaves the range's protection
/// exactly as it was, whatever it was, read/write/execute included.
pub proof fn lemma_scope_restores_protection(va: usize, size: usize, initial: u32)
    ensures
        protection_after_scope(va, size, initial) == initial,
{
}

} // verus!
