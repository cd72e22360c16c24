//! An in-process x86 (32-bit) function-hooking engine.
//!
//! The library decides everything a hook needs: how long each instruction
//! is, which bytes at a hook site must be overwritten, what the redirect code
//! looks like, and how the overwritten instructions are relocated into a
//! trampoline. Reading and writing live memory, changing page protection and
//! allocating executable memory are left to the caller, who hands this
//! library plain values and applies the plans it returns.
pub mod byteorder;
pub mod codegen;
pub mod err;
pub mod image;
pub mod ldasm;
pub mod manager;
pub mod patch_info;
pub mod protect;
