//! Patch descriptors: what to write where, and how to hook a function.
use vstd::prelude::*;

use crate::image::addr_add;

verus! {

/// Bytes of trampoline code a trampoline block holds, and of original code
/// it keeps a copy of.
pub const TRAMPOLINE_SIZE: usize = 0x40;

/// Option bits of a patch.
#[derive(Debug, Clone, Copy, PartialEq, Eq, Structural)]
pub struct HookFlags {
    pub bits: u32,
}

/// The address fields of a descriptor are virtual addresses.
pub const VIRTUAL_ADDRESS: u32 = 0b001;
/// Emit no hook code: only build the trampoline.
pub const NAKED_TRAMPOLINE: u32 = 0b010;
/// Keep a call hook's trampoline raw when it is as long as the overwritten code.
pub const KEEP_RAW_TRAMPOLINE: u32 = 0b100;

impl HookFlags {
    pub fn empty() -> (r: HookFlags)
        ensures
            r.bits == 0,
    {
        HookFlags { bits: 0 }
    }

    pub fn from_bits(bits: u32) -> (r: HookFlags)
        ensures
            r.bits == bits,
    {
        HookFlags { bits }
    }

    /// Whether every bit of `other` is set in `self`.
    pub open spec fn has(&self, other: u32) -> bool {
        self.bits & other == other
    }

    pub fn contains(&self, other: u32) -> (r: bool)
        ensures
            r == self.has(other),
    {
        self.bits & other == other
    }
}

/// The redirect written over a hooked function's entry.
#[derive(Debug, Clone, Copy, PartialEq, Eq, Structural)]
pub enum HookType {
    /// `E9 rel32`
    Jump,
    /// `E8 rel32`
    Call,
    /// `68 imm32` then `C3`
    Push,
}

impl HookType {
    /// Length of the hook opcode of this kind.
    pub open spec fn opcode_len(self) -> int {
        match self {
            HookType::Jump => 5,
            HookType::Call => 5,
            HookType::Push => 6,
        }
    }

    pub fn size_of_opcode(&self) -> (r: usize)
        ensures
            r == self.opcode_len(),
    {
        match self {
            // E8/E9 followed by a 32-bit relative offset
            HookType::Jump | HookType::Call => 5,
            // push imm32; ret
            HookType::Push => 6,
        }
    }
}

/// What a memory patch writes.
#[derive(Debug)]
pub enum Value {
    /// The low-order bytes of a number, little-endian.
    Value(u64),
    /// These bytes as they are.
    Bytes(Vec<u8>),
}

/// Writes a value at `base_address + rva`.
#[derive(Debug)]
pub struct MemoryInfo {
    pub base_address: usize,
    pub rva: usize,
    pub value: Value,
    pub size: usize,
    pub flags: HookFlags,
}

impl MemoryInfo {
    pub open spec fn address(&self) -> int {
        addr_add(self.base_address as int, self.rva as int)
    }

    pub fn virtual_address(&self) -> (r: usize)
        ensures
            r == self.address(),
    {
        self.base_address.wrapping_add(self.rva)
    }
}

/// Where a trampoline will live: the address its code runs at and the
/// address of the slot that holds its jump-back address.
#[derive(Debug, Clone, Copy, PartialEq, Eq, Structural)]
pub struct TrampolineSite {
    pub code_address: usize,
    pub jump_back_slot: usize,
}

/// A generated trampoline: the relocated original code followed by a jump
/// back, and a copy of the overwritten bytes.
#[derive(Debug)]
pub struct TrampolineData {
    pub trampoline: Vec<u8>,
    pub original_code: Vec<u8>,
    pub trampoline_size: usize,
    pub original_size: usize,
    pub jump_back_addr: usize,
}

impl TrampolineData {
    /// Both buffers have their fixed capacity.
    pub open spec fn wf(&self) -> bool {
        &&& self.trampoline@.len() == TRAMPOLINE_SIZE
        &&& self.original_code@.len() == TRAMPOLINE_SIZE
        &&& self.trampoline_size <= TRAMPOLINE_SIZE
        &&& self.original_size <= TRAMPOLINE_SIZE
    }

    /// An empty block: zeroed buffers and sizes.
    pub fn new() -> (r: TrampolineData)
        ensures
            r.wf(),
            r.trampoline@ == Seq::new(TRAMPOLINE_SIZE as nat, |i: int| 0u8),
            r.original_code@ == Seq::new(TRAMPOLINE_SIZE as nat, |i: int| 0u8),
            r.trampoline_size == 0,
            r.original_size == 0,
            r.jump_back_addr == 0,
    {
        let trampoline = vec![0u8; TRAMPOLINE_SIZE];
        let original_code = vec![0u8; TRAMPOLINE_SIZE];
        assert(trampoline@ =~= Seq::new(TRAMPOLINE_SIZE as nat, |i: int| 0u8));
        assert(original_code@ =~= Seq::new(TRAMPOLINE_SIZE as nat, |i: int| 0u8));
        TrampolineData {
            trampoline,
            original_code,
            trampoline_size: 0,
            original_size: 0,
            jump_back_addr: 0,
        }
    }
}

/// Hooks the function at `base_address + rva`, redirecting it to `target`.
#[derive(Debug)]
pub struct FunctionInfo {
    pub base_address: usize,
    pub rva: usize,
    pub target: usize,
    /// Where to build a trampoline, if one is wanted.
    pub trampoline: Option<TrampolineSite>,
    pub hook_type: HookType,
    pub flags: HookFlags,
}

impl FunctionInfo {
    pub open spec fn address(&self) -> int {
        addr_add(self.base_address as int, self.rva as int)
    }

    pub fn get_size_of_hook_opcode(&self) -> (r: usize)
        ensures
            r == self.hook_type.opcode_len(),
    {
        match self.hook_type {
            HookType::Jump => 5,
            HookType::Call => 5,
            HookType::Push => 6,
        }
    }

    pub fn virtual_address(&self) -> (r: usize)
        ensures
            r == self.address(),
    {
        self.base_address.wrapping_add(self.rva)
    }
}

/// One patch request.
#[derive(Debug)]
pub enum PatchInfo {
    Memory(MemoryInfo),
    Function(FunctionInfo),
}

/// A memory patch without flags.
pub fn memory(base_address: usize, rva: usize, value: Value, size: usize) -> (r: PatchInfo)
    ensures
        r == PatchInfo::Memory(MemoryInfo { base_address, rva, value, size, flags: HookFlags { bits: 0 } }),
{
    PatchInfo::Memory(MemoryInfo { base_address, rva, value, size, flags: HookFlags::empty() })
}

/// Writes the low `size` bytes of `value`.
pub fn memory_value(base_address: usize, rva: usize, value: u64, size: usize) -> (r: PatchInfo)
    ensures
        r == PatchInfo::Memory(
            MemoryInfo { base_address, rva, value: Value::Value(value), size, flags: HookFlags { bits: 0 } },
        ),
{
    memory(base_address, rva, Value::Value(value), size)
}

/// Writes `bytes` as they are.
pub fn memory_bytes(base_address: usize, rva: usize, bytes: &[u8]) -> (r: PatchInfo)
    ensures
        r is Memory,
        r->Memory_0.base_address == base_address,
        r->Memory_0.rva == rva,
        r->Memory_0.value is Bytes,
        r->Memory_0.value->Bytes_0@ == bytes@,
        r->Memory_0.size == bytes@.len(),
        r->Memory_0.flags.bits == 0,
{
    let v = vstd::slice::slice_to_vec(bytes);
    memory(base_address, rva, Value::Bytes(v), bytes.len())
}

/// A function hook of the given kind.
pub fn function(
    base_address: usize,
    rva: usize,
    target: usize,
    hook_type: HookType,
    trampoline: Option<TrampolineSite>,
    flags: Option<HookFlags>,
) -> (r: PatchInfo)
    ensures
        r == PatchInfo::Function(
            FunctionInfo {
                base_address,
                rva,
                target,
                trampoline,
                hook_type,
                flags: match flags {
                    Some(f) => f,
                    None => HookFlags { bits: 0 },
                },
            },
        ),
{
    let flags = match flags {
        Some(f) => f,
        None => HookFlags::empty(),
    };
    PatchInfo::Function(FunctionInfo { base_address, rva, target, trampoline, hook_type, flags })
}

/// A `jmp` hook.
pub fn function_jmp(
    base_address: usize,
    rva: usize,
    target: usize,
    trampoline: Option<TrampolineSite>,
    flags: Option<HookFlags>,
) -> (r: PatchInfo)
    ensures
        r == PatchInfo::Function(
            FunctionInfo {
                base_address,
                rva,
                target,
                trampoline,
                hook_type: HookType::Jump,
                flags: match flags {
                    Some(f) => f,
                    None => HookFlags { bits: 0 },
                },
            },
        ),
{
    function(base_address, rva, target, HookType::Jump, trampoline, flags)
}

/// A `call` hook.
pub fn function_call(
    base_address: usize,
    rva: usize,
    target: usize,
    trampoline: Option<TrampolineSite>,
    flags: Option<HookFlags>,
) -> (r: PatchInfo)
    ensures
        r == PatchInfo::Function(
            FunctionInfo {
                base_address,
                rva,
                target,
                trampoline,
                hook_type: HookType::Call,
                flags: match flags {
                    Some(f) => f,
                    None => HookFlags { bits: 0 },
                },
            },
        ),
{
    function(base_address, rva, target, HookType::Call, trampoline, flags)
}

/// A `push`/`ret` hook.
pub fn function_push(
    base_address: usize,
    rva: usize,
    target: usize,
    trampoline: Option<TrampolineSite>,
    flags: Option<HookFlags>,
) -> (r: PatchInfo)
    ensures
        r == PatchInfo::Function(
            FunctionInfo {
                base_address,
                rva,
                target,
                trampoline,
                hook_type: HookType::Push,
                flags: match flags {
                    Some(f) => f,
                    None => HookFlags { bits: 0 },
                },
            },
        ),
{
    function(base_address, rva, target, HookType::Push, trampoline, flags)
}

} // verus!
