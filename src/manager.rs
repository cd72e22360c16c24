//! The hook-site analysis and the patch planning.
use vstd::prelude::*;

use crate::codegen::{
    hook_opcode, is_trampoline_block, jump_back_code, nop_fill, relocate_from, relocate_insn, trampoline_code,
    trampoline_outcome,
};
use crate::err::{HookError, Result};
use crate::image::{addr_add, lemma_addr_add_assoc, CodeImage, INSN_WINDOW};
use crate::ldasm::{insn_len, lemma_byte_fields, opcode_flags, prefix_end};
use crate::patch_info::{
    FunctionInfo, HookFlags, HookType, MemoryInfo, TrampolineData, TrampolineSite, Value,
    NAKED_TRAMPOLINE,
};

verus! {

/// The patching context. Reading and writing live memory belong to the
/// caller; every decision about what to write is made here.
#[derive(Debug)]
pub struct Manager {}

/// A signed 8-bit displacement.
pub open spec fn sext8(b: u8) -> int {
    if b < 128 {
        b as int
    } else {
        b - 256
    }
}

/// Whether the `n` bytes at `a` are a run of whole instructions.
pub open spec fn whole_insns(img: CodeImage, a: int, n: int) -> bool
    decreases n,
{
    if n <= 0 {
        n == 0
    } else {
        let l = img.insn_len_at(a);
        1 <= l <= n && whole_insns(img, addr_add(a, l), n - l)
    }
}

/// The walk over the hook site from `ptr`: `hook` is where the hook will go,
/// `total` the bytes counted from it so far, `req` the length of the hook
/// opcode; at most one redirect is followed.
pub open spec fn locate_from(
    img: CodeImage,
    ptr: usize,
    hook: usize,
    total: int,
    req: int,
    redirected: bool,
) -> Result<(usize, usize)>
    decreases (if total < req { req - total } else { 0int }), (if redirected { 0int } else { 1int }),
    via locate_from_decreases
{
    if total < 0 || total >= req {
        Ok((hook, total as usize))
    } else {
        let len = img.insn_len_at(ptr as int);
        let b0 = img.byte(ptr as int);
        let b1 = img.byte(ptr + 1);
        if b0 == 0xEB && total == 0 && b1 != 0 && !redirected {
            let t = addr_add(ptr as int, len + sext8(b1)) as usize;
            locate_from(img, t, t, 0, req, true)
        } else if b0 == 0xEB && total != 0 && total + len < req {
            Err(HookError::BufferTooSmall((total + len) as usize, req as usize))
        } else if b0 == 0xFF && b1 == 0x25 && total != 0 && total + len < req {
            Err(HookError::BufferTooSmall((total + len) as usize, req as usize))
        } else if b0 == 0xFF && b1 == 0x25 && total == 0 && req > len && !redirected {
            let t = img.dword_at(img.dword_at(addr_add(ptr as int, 2))) as usize;
            locate_from(img, t, t, 0, req, true)
        } else {
            locate_from(img, addr_add(ptr as int, len) as usize, hook, total + len, req, redirected)
        }
    }
}

#[via_fn]
proof fn locate_from_decreases(
    img: CodeImage,
    ptr: usize,
    hook: usize,
    total: int,
    req: int,
    redirected: bool,
) {
    img.lemma_insn_len_at_bounds(ptr as int);
}

/// Where a hook of opcode length `req` at `va` goes, and how many bytes it
/// overwrites.
pub open spec fn locate(img: CodeImage, va: usize, req: int) -> Result<(usize, usize)> {
    locate_from(img, va, va, 0, req, false)
}

/// The low `n` bytes of `v`, little-endian.
pub open spec fn le_bytes(v: nat, n: nat) -> Seq<u8>
    decreases n,
{
    if n == 0 {
        Seq::empty()
    } else {
        seq![(v % 256) as u8] + le_bytes(v / 256, (n - 1) as nat)
    }
}

/// Bytes to write at an address.
#[derive(Debug)]
pub struct MemoryWrite {
    pub address: usize,
    pub bytes: Vec<u8>,
}

/// What hooking a function takes: the bytes to write over the hook site
/// (none for a naked trampoline) and the trampoline to store at its site.
#[derive(Debug)]
pub struct FunctionPatch {
    pub hook_address: usize,
    pub hook_size: usize,
    pub hook_code: Option<Vec<u8>>,
    pub trampoline: Option<TrampolineData>,
}

/// The bytes a memory patch writes, or why it is refused.
pub open spec fn memory_bytes_of(info: MemoryInfo) -> Result<Seq<u8>> {
    match info.value {
        Value::Value(u) => if info.size > 8 {
            Err(HookError::InvalidPatchSize(info.size))
        } else {
            Ok(le_bytes(u as nat, info.size as nat))
        },
        Value::Bytes(b) => if b@.len() != info.size {
            Err(HookError::InvalidParameter)
        } else {
            Ok(b@)
        },
    }
}

/// The bytes written over a hook site of `size` bytes at `hook`: the hook
/// opcode, then padding.
pub open spec fn hook_site_code(info: FunctionInfo, hook: usize, size: usize) -> Seq<u8> {
    hook_opcode(info.hook_type, hook, info.target) + nop_fill((size - info.hook_type.opcode_len()) as nat)
}

/// Whether `r` is the outcome of hooking as `info` asks, in memory `img`.
pub open spec fn is_function_patch(img: CodeImage, info: FunctionInfo, r: Result<FunctionPatch>) -> bool {
    match locate(img, info.address() as usize, info.hook_type.opcode_len()) {
        Err(e) => r == Err::<FunctionPatch, HookError>(e),
        Ok((a, n)) => match info.trampoline {
            Some(site) => match trampoline_outcome(img, info, a, n, site) {
                Err(e) => r == Err::<FunctionPatch, HookError>(e),
                Ok(c) => r is Ok && r->Ok_0.trampoline is Some && is_trampoline_block(
                    r->Ok_0.trampoline->Some_0,
                    img,
                    c,
                    a,
                    n,
                    site,
                ) && patch_site_matches(r->Ok_0, info, a, n),
            },
            None => r is Ok && r->Ok_0.trampoline is None && patch_site_matches(r->Ok_0, info, a, n),
        },
    }
}

/// The hook site part of a function patch.
pub open spec fn patch_site_matches(p: FunctionPatch, info: FunctionInfo, a: usize, n: usize) -> bool {
    &&& p.hook_address == a
    &&& p.hook_size == n
    &&& if info.flags.has(NAKED_TRAMPOLINE) {
        p.hook_code is None
    } else {
        p.hook_code is Some && p.hook_code->Some_0@ == hook_site_code(info, a, n)
    }
}

proof fn lemma_whole_insns_append(img: CodeImage, a: int, t: int, l: int)
    requires
        0 <= a <= usize::MAX,
        0 <= t,
        t + l <= usize::MAX,
        whole_insns(img, a, t),
        img.insn_len_at(addr_add(a, t)) == l,
        1 <= l,
    ensures
        whole_insns(img, a, t + l),
    decreases t,
{
    if t == 0 {
        assert(addr_add(a, 0) == a);
        assert(addr_add(a, l) == addr_add(addr_add(a, l), 0));
        assert(whole_insns(img, addr_add(a, l), 0));
    } else {
        let l0 = img.insn_len_at(a);
        let a1 = addr_add(a, l0);
        lemma_addr_add_assoc(a, l0, t - l0);
        lemma_whole_insns_append(img, a1, t - l0, l);
    }
}

proof fn lemma_locate_from_whole(
    img: CodeImage,
    ptr: usize,
    hook: usize,
    total: int,
    req: int,
    redirected: bool,
)
    requires
        0 <= total,
        req <= 64,
        total < req + INSN_WINDOW + 19,
        whole_insns(img, hook as int, total),
        ptr == addr_add(hook as int, total),
    ensures
        locate_from(img, ptr, hook, total, req, redirected) matches Ok((a, n)) ==> n >= req
            && whole_insns(img, a as int, n as int),
    decreases (if total < req { req - total } else { 0int }), (if redirected { 0int } else { 1int }),
{
    if total < req {
        img.lemma_insn_len_at_bounds(ptr as int);
        let len = img.insn_len_at(ptr as int);
        let b0 = img.byte(ptr as int);
        let b1 = img.byte(ptr + 1);
        if b0 == 0xEB && total == 0 && b1 != 0 && !redirected {
            let t = addr_add(ptr as int, len + sext8(b1)) as usize;
            assert(addr_add(t as int, 0) == t);
            lemma_locate_from_whole(img, t, t, 0, req, true);
        } else if b0 == 0xEB && total != 0 && total + len < req {
        } else if b0 == 0xFF && b1 == 0x25 && total != 0 && total + len < req {
        } else if b0 == 0xFF && b1 == 0x25 && total == 0 && req > len && !redirected {
            let t = img.dword_at(img.dword_at(addr_add(ptr as int, 2))) as usize;
            assert(addr_add(t as int, 0) == t);
            lemma_locate_from_whole(img, t, t, 0, req, true);
        } else {
            lemma_whole_insns_append(img, hook as int, total, len);
            lemma_addr_add_assoc(hook as int, total, len);
            lemma_locate_from_whole(
                img,
                addr_add(ptr as int, len) as usize,
                hook,
                total + len,
                req,
                redirected,
            );
        }
    }
}

/// The hook site is never shorter than the hook opcode and always ends on an
/// instruction boundary: the bytes overwritten are a run of whole
/// instructions at the hook address.
pub proof fn lemma_locate_minimal(img: CodeImage, va: usize, hook_type: HookType)
    ensures
        locate(img, va, hook_type.opcode_len()) matches Ok((a, n)) ==> n >= hook_type.opcode_len()
            && whole_insns(img, a as int, n as int),
{
    assert(addr_add(va as int, 0) == va);
    lemma_locate_from_whole(img, va, va, 0, hook_type.opcode_len(), false);
}

/// The bytes of whole instructions from `a` on, counted from `t`, until
/// they first reach `req`: the least whole-instruction cover.
pub open spec fn cover_from(img: CodeImage, a: int, t: int, req: int) -> int
    decreases (if t < req { req - t } else { 0int }),
    via cover_from_decreases
{
    if t < 0 || t >= req {
        t
    } else {
        cover_from(img, a, t + img.insn_len_at(addr_add(a, t)), req)
    }
}

#[via_fn]
proof fn cover_from_decreases(img: CodeImage, a: int, t: int, req: int) {
    img.lemma_insn_len_at_bounds(addr_add(a, t));
}

/// The cover stops at the first instruction that reaches `req`: without its
/// last instruction it would fall short.
pub proof fn lemma_cover_is_least(img: CodeImage, a: int, t: int, req: int)
    requires
        0 <= t < req,
    ensures
        ({
            let n = cover_from(img, a, t, req);
            exists|s: int| t <= s < req && #[trigger] img.insn_len_at(addr_add(a, s)) + s == n
        }),
    decreases req - t,
{
    img.lemma_insn_len_at_bounds(addr_add(a, t));
    let l = img.insn_len_at(addr_add(a, t));
    if t + l < req {
        lemma_cover_is_least(img, a, t + l, req);
    } else {
        assert(cover_from(img, a, t + l, req) == t + l);
        assert(img.insn_len_at(addr_add(a, t)) + t == cover_from(img, a, t, req));
    }
}

proof fn lemma_locate_from_cover(
    img: CodeImage,
    ptr: usize,
    hook: usize,
    total: int,
    req: int,
    redirected: bool,
)
    requires
        0 <= total,
        req <= 64,
        total < req + INSN_WINDOW + 19,
        ptr == addr_add(hook as int, total),
        cover_from(img, hook as int, total, req) == cover_from(img, hook as int, 0, req),
    ensures
        locate_from(img, ptr, hook, total, req, redirected) matches Ok((a, n)) ==> n == cover_from(
            img,
            a as int,
            0,
            req,
        ),
    decreases (if total < req { req - total } else { 0int }), (if redirected { 0int } else { 1int }),
{
    if total < req {
        img.lemma_insn_len_at_bounds(ptr as int);
        let len = img.insn_len_at(ptr as int);
        let b0 = img.byte(ptr as int);
        let b1 = img.byte(ptr + 1);
        if b0 == 0xEB && total == 0 && b1 != 0 && !redirected {
            let t = addr_add(ptr as int, len + sext8(b1)) as usize;
            assert(addr_add(t as int, 0) == t);
            lemma_locate_from_cover(img, t, t, 0, req, true);
        } else if b0 == 0xEB && total != 0 && total + len < req {
        } else if b0 == 0xFF && b1 == 0x25 && total != 0 && total + len < req {
        } else if b0 == 0xFF && b1 == 0x25 && total == 0 && req > len && !redirected {
            let t = img.dword_at(img.dword_at(addr_add(ptr as int, 2))) as usize;
            assert(addr_add(t as int, 0) == t);
            lemma_locate_from_cover(img, t, t, 0, req, true);
        } else {
            lemma_addr_add_assoc(hook as int, total, len);
            lemma_locate_from_cover(
                img,
                addr_add(ptr as int, len) as usize,
                hook,
                total + len,
                req,
                redirected,
            );
        }
    }
}

/// The bytes overwritten are exactly the least whole-instruction cover of
/// the hook opcode, counted afresh from the hook address: from the entry
/// itself, or from the target of the one redirect that was followed.
pub proof fn lemma_locate_least_cover(img: CodeImage, va: usize, hook_type: HookType)
    ensures
        locate(img, va, hook_type.opcode_len()) matches Ok((a, n)) ==> n == cover_from(
            img,
            a as int,
            0,
            hook_type.opcode_len(),
        ),
{
    assert(addr_add(va as int, 0) == va);
    lemma_locate_from_cover(img, va, va, 0, hook_type.opcode_len(), false);
}

proof fn lemma_redirected_keeps_hook(
    img: CodeImage,
    ptr: usize,
    hook: usize,
    total: int,
    req: int,
)
    ensures
        locate_from(img, ptr, hook, total, req, true) matches Ok((a, n)) ==> a == hook,
    decreases (if total < req { req - total } else { 0int }),
{
    if 0 <= total < req {
        img.lemma_insn_len_at_bounds(ptr as int);
        let len = img.insn_len_at(ptr as int);
        let b0 = img.byte(ptr as int);
        let b1 = img.byte(ptr + 1);
        if b0 == 0xEB && total != 0 && total + len < req {
        } else if b0 == 0xFF && b1 == 0x25 && total != 0 && total + len < req {
        } else {
            lemma_redirected_keeps_hook(img, addr_add(ptr as int, len) as usize, hook, total + len, req);
        }
    }
}

/// A short jump with a non-zero displacement at the hook site moves the hook
/// to the jump's target, and that one hop is the only one: the walk from
/// there never redirects again.
pub proof fn lemma_short_jump_redirect(img: CodeImage, va: usize, hook_type: HookType)
    requires
        img.byte(va as int) == 0xEB,
        img.byte(va + 1) != 0,
    ensures
        locate(img, va, hook_type.opcode_len()) matches Ok((a, n)) ==> a == addr_add(
            va as int,
            img.insn_len_at(va as int) + sext8(img.byte(va + 1)),
        ),
{
    img.lemma_insn_len_at_bounds(va as int);
    let t = addr_add(va as int, img.insn_len_at(va as int) + sext8(img.byte(va + 1))) as usize;
    lemma_redirected_keeps_hook(img, t, t, 0, hook_type.opcode_len());
}

/// An indirect `jmp [imm32]` at the entry is already as long as any hook
/// opcode: it is overwritten where it stands, and its pointer is never
/// followed.
pub proof fn lemma_indirect_jump_overwritten(img: CodeImage, va: usize, hook_type: HookType)
    requires
        img.byte(va as int) == 0xFF,
        img.byte(va + 1) == 0x25,
    ensures
        locate(img, va, hook_type.opcode_len()) == Ok::<(usize, usize), HookError>((va, 6)),
{
    reveal(insn_len);
    let w = img.window(va as int, INSN_WINDOW as nat);
    assert(w[0] == 0xFF && w[1] == 0x25);
    lemma_byte_fields(opcode_flags(0xFF));
    lemma_byte_fields(0x25);
    assert(prefix_end(w, 0) == 0);
    assert(img.insn_len_at(va as int) == 6);
    let next = addr_add(va as int, 6) as usize;
    assert(locate_from(img, next, va, 6, hook_type.opcode_len(), false) == Ok::<(usize, usize), HookError>((va, 6)));
}

/// What a batch of patches does next.
#[derive(Debug, Clone, Copy, PartialEq, Eq)]
pub enum BatchStep {
    /// Apply the patch at this index.
    Apply(usize),
    /// Stop, with the outcome of the whole batch.
    Finish(Result<()>),
}

/// The step after `applied` patches of `count` went through and the latest
/// one ended in `last`: a failure ends the batch at once, without undoing
/// what was applied; otherwise the next patch, until none is left.
pub open spec fn batch_step(count: int, applied: int, last: Result<()>) -> BatchStep {
    match last {
        Err(e) => BatchStep::Finish(Err(e)),
        Ok(_) => if applied < count {
            BatchStep::Apply(applied as usize)
        } else {
            BatchStep::Finish(Ok(()))
        },
    }
}

/// The outcome of driving the batch over the patch outcomes `o`, from
/// index `i` on, the latest outcome being `last`.
pub open spec fn run_batch(o: Seq<Result<()>>, i: int, last: Result<()>) -> Result<()>
    decreases o.len() - i,
{
    match batch_step(o.len() as int, i, last) {
        BatchStep::Finish(r) => r,
        BatchStep::Apply(k) => if 0 <= i < o.len() {
            run_batch(o, i + 1, o[i])
        } else {
            Ok(())
        },
    }
}

/// The first failure among the outcomes from index `i` on, if any.
pub open spec fn first_failure(o: Seq<Result<()>>, i: int) -> Result<()>
    decreases o.len() - i,
{
    if i < 0 || i >= o.len() {
        Ok(())
    } else if o[i] is Err {
        o[i]
    } else {
        first_failure(o, i + 1)
    }
}

/// A batch ends with the first failure among its patches, or succeeds when
/// none fails.
pub proof fn lemma_batch_stops_at_first_failure(o: Seq<Result<()>>)
    ensures
        run_batch(o, 0, Ok(())) == first_failure(o, 0),
{
    lemma_run_batch_from(o, 0);
}

proof fn lemma_run_batch_from(o: Seq<Result<()>>, i: int)
    requires
        0 <= i <= o.len(),
    ensures
        run_batch(o, i, Ok(())) == first_failure(o, i),
    decreases o.len() - i,
{
    if i < o.len() {
        lemma_run_batch_from(o, i + 1);
        if o[i] is Err {
            assert(run_batch(o, i + 1, o[i]) == o[i]);
        }
    }
}

/// The step after `applied` patches of `count` went through and the latest
/// one ended in `last`.
pub fn next_batch_step(count: usize, applied: usize, last: Result<()>) -> (r: BatchStep)
    ensures
        r == batch_step(count as int, applied as int, last),
{
    match last {
        Err(e) => BatchStep::Finish(Err(e)),
        Ok(_) => if applied < count {
            BatchStep::Apply(applied)
        } else {
            BatchStep::Finish(Ok(()))
        },
    }
}

/// A jump hook on the standard frame prologue `push ebp; mov ebp, esp;
/// sub esp, imm8` overwrites exactly those three instructions (six bytes):
/// the site gets the jump and one `nop`, and the trampoline replays the
/// three instructions as they are, then jumps back through its slot.
pub proof fn lemma_prologue_jump_hook(img: CodeImage, h: usize, info: FunctionInfo, site: TrampolineSite)
    requires
        img.byte(h as int) == 0x55,
        img.byte(h + 1) == 0x8B,
        img.byte(h + 2) == 0xEC,
        img.byte(h + 3) == 0x83,
        img.byte(h + 4) == 0xEC,
        h + 64 <= usize::MAX,
        info.hook_type == HookType::Jump,
    ensures
        locate(img, h, 5) == Ok::<(usize, usize), HookError>((h, 6)),
        hook_site_code(info, h, 6) == hook_opcode(HookType::Jump, h, info.target) + seq![0x90u8],
        trampoline_code(img, info, h, 6, site) == Some(
            img.window(h as int, 6) + jump_back_code(site.jump_back_slot),
        ),
{
    reveal(insn_len);
    lemma_byte_fields(opcode_flags(0x55));
    lemma_byte_fields(opcode_flags(0x8B));
    lemma_byte_fields(opcode_flags(0x83));
    lemma_byte_fields(0xEC);
    let w0 = img.window(h as int, INSN_WINDOW as nat);
    let w1 = img.window(h + 1, INSN_WINDOW as nat);
    let w3 = img.window(h + 3, INSN_WINDOW as nat);
    assert(w0[0] == 0x55);
    assert(w1[0] == 0x8B && w1[1] == 0xEC);
    assert(w3[0] == 0x83 && w3[1] == 0xEC);
    assert(prefix_end(w0, 0) == 0);
    assert(prefix_end(w1, 0) == 0);
    assert(prefix_end(w3, 0) == 0);
    assert(img.insn_len_at(h as int) == 1);
    assert(img.insn_len_at(h + 1) == 2);
    assert(img.insn_len_at(h + 3) == 3);
    assert(addr_add(h as int, 1) == h + 1);
    assert(addr_add(h as int, 3) == h + 3);
    assert(addr_add(h as int, 6) == h + 6);
    assert(addr_add(h + 3, 3) == h + 6);
    assert(addr_add(h + 1, 2) == h + 3);
    assert(addr_add(h as int, 1) == h + 1);
    assert(locate_from(img, (h + 6) as usize, h, 6, 5, false) == Ok::<(usize, usize), HookError>((h, 6)));
    assert(locate_from(img, (h + 3) as usize, h, 3, 5, false) == Ok::<(usize, usize), HookError>((h, 6)));
    assert(locate_from(img, (h + 1) as usize, h, 1, 5, false) == Ok::<(usize, usize), HookError>((h, 6)));
    assert(nop_fill(1) == seq![0x90u8]);
    // the trampoline
    reveal(relocate_insn);
    let tip = site.code_address;
    let c0 = relocate_insn(img, h as int, tip as int, h as int, 6);
    let c1 = relocate_insn(img, h + 1, addr_add(tip as int, 1), h as int, 6);
    let c3 = relocate_insn(img, h + 3, addr_add(tip as int, 3), h as int, 6);
    assert(c0 == img.window(h as int, 1));
    assert(c1 == img.window(h + 1, 2));
    assert(c3 == img.window(h + 3, 3));
    lemma_addr_add_assoc(tip as int, 1, 2);
    assert(relocate_from(img, h, 6, 6, addr_add(tip as int, 6) as usize) == Some(Seq::<u8>::empty()));
    assert(relocate_from(img, h, 6, 3, addr_add(tip as int, 3) as usize) == Some(c3 + Seq::<u8>::empty()));
    assert(relocate_from(img, h, 6, 1, addr_add(tip as int, 1) as usize) == Some(c1 + (c3 + Seq::<u8>::empty())));
    assert(relocate_from(img, h, 6, 0, tip) == Some(c0 + (c1 + (c3 + Seq::<u8>::empty()))));
    assert(c0 + (c1 + (c3 + Seq::<u8>::empty())) =~= img.window(h as int, 6));
}

impl Manager {
    pub fn new() -> (r: Manager) {
        Manager {}
    }

    /// Finds where a hook of kind `hook_type` at `va` goes and how many
    /// bytes of whole instructions it overwrites.
    pub fn get_hook_address_and_size(&self, image: &CodeImage, va: usize, hook_type: HookType) -> (r: Result<(usize, usize)>)
        ensures
            r == locate(*image, va, hook_type.opcode_len()),
            r matches Ok((a, n)) ==> n >= hook_type.opcode_len() && whole_insns(*image, a as int, n as int)
                && n == cover_from(*image, a as int, 0, hook_type.opcode_len()),
    {
        proof {
            lemma_locate_minimal(*image, va, hook_type);
            lemma_locate_least_cover(*image, va, hook_type);
        }
        let ghost req = hook_type.opcode_len();
        let hook_opcode_size = hook_type.size_of_opcode();
        let mut total_op_size: usize = 0;
        let mut ptr = va;
        let mut hook_addr = va;
        let mut redirected = false;

        while total_op_size < hook_opcode_size
            invariant
                req == hook_type.opcode_len(),
                hook_opcode_size == req,
                req <= 6,
                total_op_size < req + INSN_WINDOW + 19,
                locate_from(*image, ptr, hook_addr, total_op_size as int, req, redirected) == locate(
                    *image,
                    va,
                    req,
                ),
            decreases (if total_op_size < req { req - total_op_size } else { 0int }), (if redirected { 0int } else { 1int }),
        {
            let current_op_size = image.opcode_size_at(ptr);
            proof {
                image.lemma_insn_len_at_bounds(ptr as int);
            }
            let b0 = image.read_byte(ptr);
            let b1 = if ptr < usize::MAX { image.read_byte(ptr + 1) } else { 0 };

            let reached = total_op_size + current_op_size;
            if b0 == 0xEB && total_op_size == 0 && b1 != 0 && !redirected {
                // jmp short at the entry, over filler into the real code: hook there
                let d: isize = if b1 < 128 { b1 as isize } else { b1 as isize - 256 };
                ptr = ptr.wrapping_add_signed(current_op_size as isize + d);
                hook_addr = ptr;
                redirected = true;
                continue;
            } else if b0 == 0xEB && total_op_size != 0 && reached < hook_opcode_size {
                // a short jump inside the site cannot be overwritten safely
                return Err(HookError::BufferTooSmall(reached, hook_opcode_size));
            } else if b0 == 0xFF && b1 == 0x25 && total_op_size != 0 && reached < hook_opcode_size {
                // nor can an indirect jump
                return Err(HookError::BufferTooSmall(reached, hook_opcode_size));
            } else if b0 == 0xFF && b1 == 0x25 && total_op_size == 0 && hook_opcode_size > current_op_size
                && !redirected {
                // jmp dword ptr [imm32] too short to hold the hook: follow the pointer
                ptr = image.read_pointer(image.read_pointer(ptr.wrapping_add(2)));
                hook_addr = ptr;
                redirected = true;
                continue;
            }

            ptr = ptr.wrapping_add(current_op_size);
            total_op_size += current_op_size;
        }

        Ok((hook_addr, total_op_size))
    }

    /// The write that the memory patch `info` asks for.
    pub fn patch_memory(&self, info: &MemoryInfo) -> (r: Result<MemoryWrite>)
        ensures
            match memory_bytes_of(*info) {
                Err(e) => r == Err::<MemoryWrite, HookError>(e),
                Ok(b) => r is Ok && r->Ok_0.address == info.address() && r->Ok_0.bytes@ == b,
            },
    {
        let address = info.virtual_address();
        match &info.value {
            Value::Value(u) => {
                if info.size > 8 {
                    return Err(HookError::InvalidPatchSize(info.size));
                }
                let mut bytes: Vec<u8> = Vec::new();
                let mut v: u64 = *u;
                let mut i: usize = 0;
                while i < info.size
                    invariant
                        i <= info.size <= 8,
                        bytes@ + le_bytes(v as nat, (info.size - i) as nat) == le_bytes(*u as nat, info.size as nat),
                    decreases info.size - i,
                {
                    let ghost rest = le_bytes(v as nat / 256, (info.size - i - 1) as nat);
                    let ghost before = bytes@;
                    assert(le_bytes(v as nat, (info.size - i) as nat) == seq![(v % 256) as u8] + rest);
                    let low = (v % 256) as u8;
                    bytes.push(low);
                    v = v / 256;
                    assert(bytes@ + rest =~= before + (seq![low] + rest));
                    i += 1;
                }
                assert(bytes@ + le_bytes(v as nat, 0) =~= bytes@);
                Ok(MemoryWrite { address, bytes })
            },
            Value::Bytes(b) => {
                if b.len() != info.size {
                    return Err(HookError::InvalidParameter);
                }
                let bytes = vstd::slice::slice_to_vec(b.as_slice());
                Ok(MemoryWrite { address, bytes })
            },
        }
    }

    /// The hook that the function patch `info` asks for, in memory `image`.
    pub fn patch_function(&self, image: &CodeImage, info: &FunctionInfo) -> (r: Result<FunctionPatch>)
        ensures
            is_function_patch(*image, *info, r),
    {
        let va = info.virtual_address();
        let (hook_address, hook_size) = match self.get_hook_address_and_size(image, va, info.hook_type) {
            Ok(p) => p,
            Err(e) => {
                return Err(e);
            },
        };
        let hook_code = if info.flags.contains(NAKED_TRAMPOLINE) {
            None
        } else {
            let mut buf: Vec<u8> = Vec::new();
            let size = self.generate_hook_code(&mut buf, hook_address, info);
            self.patch_nop(&mut buf, hook_size - size);
            assert(buf@ =~= hook_site_code(*info, hook_address, hook_size));
            Some(buf)
        };
        let trampoline = match info.trampoline {
            Some(site) => match self.generate_trampoline(image, info, hook_address, hook_size, site) {
                Ok(t) => Some(t),
                Err(e) => {
                    return Err(e);
                },
            },
            None => None,
        };
        Ok(FunctionPatch { hook_address, hook_size, hook_code, trampoline })
    }
}

/// Hooks the function at `base_address + rva` in memory `image` with a jump
/// to `target`, building a trampoline at `trampoline` if one is given.
pub fn inline_hook_jmp(
    image: &CodeImage,
    base_address: usize,
    rva: usize,
    target: usize,
    trampoline: Option<TrampolineSite>,
    flags: Option<HookFlags>,
) -> (r: Result<FunctionPatch>)
    ensures
        is_function_patch(
            *image,
            FunctionInfo {
                base_address,
                rva,
                target,
                trampoline,
                hook_type: HookType::Jump,
                flags: match flags {
                    Some(f) => f,
                    None => HookFlags { bits: 0 },
                },
            },
            r,
        ),
{
    let flags = match flags {
        Some(f) => f,
        None => HookFlags::empty(),
    };
    let info = FunctionInfo { base_address, rva, target, trampoline, hook_type: HookType::Jump, flags };
    Manager::new().patch_function(image, &info)
}

} // verus!
