use hooker::err::HookError;
use hooker::image::CodeImage;
use hooker::manager::{inline_hook_jmp, next_batch_step, BatchStep, Manager};
use hooker::patch_info::{
    function, function_call, function_push, FunctionInfo, HookFlags, HookType, PatchInfo, TrampolineSite,
    KEEP_RAW_TRAMPOLINE, NAKED_TRAMPOLINE, TRAMPOLINE_SIZE,
};

fn image(base: usize, code: &[u8]) -> CodeImage {
    CodeImage::new(base, code.to_vec())
}

fn function_info(p: PatchInfo) -> FunctionInfo {
    match p {
        PatchInfo::Function(f) => f,
        PatchInfo::Memory(_) => panic!("not a function patch"),
    }
}

fn le32(x: u32) -> [u8; 4] {
    x.to_le_bytes()
}

const SITE: TrampolineSite = TrampolineSite { code_address: 0x5000, jump_back_slot: 0x5088 };

#[test]
fn hook_site_covers_whole_instructions() {
    let img = image(0x1000, &[0x55, 0x8B, 0xEC, 0x83, 0xEC, 0x10, 0xC3]);
    let m = Manager::new();
    assert_eq!(m.get_hook_address_and_size(&img, 0x1000, HookType::Jump), Ok((0x1000, 6)));
    assert_eq!(m.get_hook_address_and_size(&img, 0x1000, HookType::Push), Ok((0x1000, 6)));
    let exact = image(0x1000, &[0x33, 0xC0, 0x8B, 0xEC, 0x90, 0xC3]);
    assert_eq!(m.get_hook_address_and_size(&exact, 0x1000, HookType::Call), Ok((0x1000, 5)));
}

#[test]
fn hook_site_never_shorter_than_opcode() {
    let m = Manager::new();
    for code in [
        vec![0x90u8, 0x90, 0x90, 0x90, 0x90, 0x90, 0x90],
        vec![0xB8, 1, 2, 3, 4, 0xC3],
        vec![0x8B, 0x84, 0x24, 0, 1, 0, 0, 0xC3],
        vec![0x55, 0x8B, 0xEC, 0x6A, 0xFF, 0x68, 0, 0, 0, 0],
    ] {
        let img = CodeImage::new(0x2000, code);
        for kind in [HookType::Jump, HookType::Call, HookType::Push] {
            let (_, n) = m.get_hook_address_and_size(&img, 0x2000, kind).unwrap();
            assert!(n >= kind.size_of_opcode());
        }
    }
}

#[test]
fn short_jump_at_entry_is_followed() {
    // jmp short over an int3 into the real code
    let img = image(0x401058, &[0xEB, 0x01, 0xCC, 0x33, 0xC0, 0x55, 0x8B, 0xEC, 0xC3]);
    let m = Manager::new();
    assert_eq!(m.get_hook_address_and_size(&img, 0x401058, HookType::Jump), Ok((0x40105B, 5)));
}

#[test]
fn short_jump_backwards_is_followed() {
    let img = image(0x1000, &[0x55, 0x8B, 0xEC, 0x83, 0xEC, 0x10, 0xEB, 0xF8]);
    let m = Manager::new();
    assert_eq!(m.get_hook_address_and_size(&img, 0x1006, HookType::Jump), Ok((0x1000, 6)));
}

#[test]
fn redirect_is_followed_once() {
    // a jump to itself: followed once, then counted as an instruction
    let img = image(0x1000, &[0xEB, 0xFE, 0x90, 0x90, 0x90, 0x90]);
    let m = Manager::new();
    assert_eq!(m.get_hook_address_and_size(&img, 0x1000, HookType::Jump), Ok((0x1000, 5)));
    // a chain of short jumps stops after the first
    let chain = image(0x1000, &[0xEB, 0x02, 0xCC, 0xCC, 0xEB, 0x10, 0x90, 0x90, 0x90]);
    assert_eq!(m.get_hook_address_and_size(&chain, 0x1000, HookType::Jump), Ok((0x1004, 5)));
}

#[test]
fn zero_short_jump_is_an_instruction() {
    let img = image(0x1000, &[0xEB, 0x00, 0x33, 0xC0, 0x90, 0xC3]);
    let m = Manager::new();
    assert_eq!(m.get_hook_address_and_size(&img, 0x1000, HookType::Jump), Ok((0x1000, 5)));
}

#[test]
fn short_jump_inside_site_is_refused() {
    let img = image(0x1000, &[0x33, 0xC0, 0xEB, 0x05, 0x90, 0x90]);
    let m = Manager::new();
    assert_eq!(
        m.get_hook_address_and_size(&img, 0x1000, HookType::Jump),
        Err(HookError::BufferTooSmall(4, 5))
    );
    // one that ends the site is overwritten with it
    let last = image(0x1000, &[0x33, 0xC0, 0x40, 0xEB, 0x05, 0x90]);
    assert_eq!(m.get_hook_address_and_size(&last, 0x1000, HookType::Jump), Ok((0x1000, 5)));
}

#[test]
fn indirect_jump_long_enough_is_overwritten() {
    let img = image(0x1000, &[0xFF, 0x25, 0x00, 0x20, 0x00, 0x00, 0xCC]);
    let m = Manager::new();
    assert_eq!(m.get_hook_address_and_size(&img, 0x1000, HookType::Push), Ok((0x1000, 6)));
}

#[test]
fn memory_outside_the_image_reads_as_zero() {
    let img = image(0x1000, &[0x90]);
    let m = Manager::new();
    // nop, then add [eax], al twice
    assert_eq!(m.get_hook_address_and_size(&img, 0x1000, HookType::Jump), Ok((0x1000, 5)));
}

#[test]
fn padding_is_exact() {
    let m = Manager::new();
    let entries: [&[u8]; 7] = [
        &[0x90],
        &[0x8B, 0xC0],
        &[0x8D, 0x40, 0x00],
        &[0x8D, 0x74, 0x26, 0x00],
        &[0x8B, 0xC0, 0x8D, 0x40, 0x00],
        &[0x8D, 0x80, 0x00, 0x00, 0x00, 0x00],
        &[0x8D, 0xB4, 0x26, 0x00, 0x00, 0x00, 0x00],
    ];
    for n in 1..=20usize {
        let mut buf = Vec::new();
        m.patch_nop(&mut buf, n);
        assert_eq!(buf.len(), n);
        let mut pos = 0;
        while pos < n {
            let k = (n - pos).min(7);
            assert_eq!(&buf[pos..pos + k], entries[k - 1]);
            // each entry decodes as whole instructions
            let mut q = pos;
            while q < pos + k {
                let mut w = buf[q..].to_vec();
                w.extend_from_slice(&[0u8; 16]);
                q += hooker::ldasm::get_opcode_size(&w);
            }
            assert_eq!(q, pos + k);
            pos += k;
        }
    }
    let mut empty = vec![1u8];
    m.patch_nop(&mut empty, 0);
    assert_eq!(empty, vec![1u8]);
}

#[test]
fn hook_opcodes() {
    let m = Manager::new();
    let jmp = function_info(function(0x1000, 0, 0x3000, HookType::Jump, None, None));
    let mut buf = Vec::new();
    assert_eq!(m.generate_hook_code(&mut buf, 0x1000, &jmp), 5);
    assert_eq!(buf, vec![0xE9, 0xFB, 0x1F, 0x00, 0x00]);

    let call = function_info(function_call(0x3000, 0, 0x1000, None, None));
    let mut buf = Vec::new();
    assert_eq!(m.generate_hook_code(&mut buf, 0x3000, &call), 5);
    let mut expected = vec![0xE8];
    expected.extend_from_slice(&le32((0x1000u32).wrapping_sub(0x3005)));
    assert_eq!(buf, expected);

    let push = function_info(function_push(0x1000, 0, 0x12345678, None, None));
    let mut buf = Vec::new();
    assert_eq!(m.generate_hook_code(&mut buf, 0x1000, &push), 6);
    assert_eq!(buf, vec![0x68, 0x78, 0x56, 0x34, 0x12, 0xC3]);
}

#[test]
fn trampoline_relocates_branches_that_leave() {
    // xor eax, eax; je (next, inside); call 0x2000 (outside); inc eax; ret
    let code = [0x33, 0xC0, 0x74, 0x00, 0xE8, 0xF7, 0x0F, 0x00, 0x00, 0x40, 0xC3];
    let img = image(0x1000, &code);
    let r = inline_hook_jmp(&img, 0x1000, 0, 0x3000, Some(SITE), None).unwrap();
    assert_eq!(r.hook_address, 0x1000);
    assert_eq!(r.hook_size, 9);
    assert_eq!(r.hook_code, Some(vec![0xE9, 0xFB, 0x1F, 0x00, 0x00, 0x8D, 0x74, 0x26, 0x00]));
    let t = r.trampoline.unwrap();
    let mut expected = vec![0x33, 0xC0, 0x74, 0x00, 0xE8];
    expected.extend_from_slice(&le32((0x2000u32).wrapping_sub(0x5009)));
    assert_eq!(t.trampoline_size, 9);
    expected.extend_from_slice(&[0xFF, 0x25, 0x88, 0x50, 0x00, 0x00]);
    assert_eq!(&t.trampoline[..15], &expected[..]);
    assert!(t.trampoline[15..].iter().all(|b| *b == 0));
    assert_eq!(t.trampoline.len(), TRAMPOLINE_SIZE);
    assert_eq!(&t.original_code[..9], &code[..9]);
    assert_eq!(t.original_size, 9);
    assert_eq!(t.jump_back_addr, 0x1009);
    // the relocated call still reaches 0x2000 from the trampoline
    let rel = i32::from_le_bytes([t.trampoline[5], t.trampoline[6], t.trampoline[7], t.trampoline[8]]);
    assert_eq!((0x5009i64 + rel as i64) as u32, 0x2000);
}

#[test]
fn trampoline_lengthens_short_jumps_that_leave() {
    // jne +0x10 (outside); jmp short +0x20 (outside); nop
    let code = [0x75, 0x10, 0xEB, 0x20, 0x90, 0xC3];
    let img = image(0x1000, &code);
    let m = Manager::new();
    let info = function_info(function(0x1000, 0, 0x3000, HookType::Jump, Some(SITE), None));
    let t = m.generate_trampoline(&img, &info, 0x1000, 5, SITE).unwrap();
    let mut expected = vec![0x0F, 0x85];
    expected.extend_from_slice(&le32((0x1012u32).wrapping_sub(0x5006)));
    expected.push(0xE9);
    expected.extend_from_slice(&le32((0x1024u32).wrapping_sub(0x500B)));
    expected.push(0x90);
    expected.extend_from_slice(&[0xFF, 0x25, 0x88, 0x50, 0x00, 0x00]);
    assert_eq!(t.trampoline_size, 12);
    assert_eq!(&t.trampoline[..18], &expected[..]);
}

#[test]
fn raw_call_trampoline_becomes_a_jump() {
    // the hook site is itself a call
    let code = [0xE8, 0xFB, 0x0F, 0x00, 0x00, 0xC3];
    let img = image(0x1000, &code);
    let flags = HookFlags::from_bits(KEEP_RAW_TRAMPOLINE);
    let info = function_info(function_call(0x1000, 0, 0x3000, Some(SITE), Some(flags)));
    let r = Manager::new().patch_function(&img, &info).unwrap();
    let t = r.trampoline.unwrap();
    assert_eq!(t.trampoline_size, 5);
    let mut expected = vec![0xE9];
    expected.extend_from_slice(&le32((0x2000u32).wrapping_sub(0x5005)));
    assert_eq!(&t.trampoline[..5], &expected[..]);
    assert!(t.trampoline[5..].iter().all(|b| *b == 0));
    // without the flag the call stays and the jump back follows
    let info = function_info(function_call(0x1000, 0, 0x3000, Some(SITE), None));
    let t = Manager::new().patch_function(&img, &info).unwrap().trampoline.unwrap();
    assert_eq!(t.trampoline[0], 0xE8);
    assert_eq!(&t.trampoline[5..11], &[0xFF, 0x25, 0x88, 0x50, 0x00, 0x00]);
}

#[test]
fn naked_trampoline_writes_no_hook() {
    let img = image(0x1000, &[0x55, 0x8B, 0xEC, 0x83, 0xEC, 0x10]);
    let flags = HookFlags::from_bits(NAKED_TRAMPOLINE);
    let r = inline_hook_jmp(&img, 0x1000, 0, 0x3000, Some(SITE), Some(flags)).unwrap();
    assert_eq!(r.hook_code, None);
    assert!(r.trampoline.is_some());
}

#[test]
fn hook_without_trampoline() {
    let img = image(0x1000, &[0x55, 0x8B, 0xEC, 0x83, 0xEC, 0x10]);
    let r = inline_hook_jmp(&img, 0x1000, 0, 0x3000, None, None).unwrap();
    assert!(r.trampoline.is_none());
    assert_eq!(r.hook_code, Some(vec![0xE9, 0xFB, 0x1F, 0x00, 0x00, 0x90]));
}

#[test]
fn end_to_end_jump_hook() {
    // push ebp; mov ebp, esp; sub esp, 0x10
    let img = image(0x401000, &[0x55, 0x8B, 0xEC, 0x83, 0xEC, 0x10, 0x8B, 0x45, 0x08, 0xC3]);
    let target = 0x10002000usize;
    let r = inline_hook_jmp(&img, 0x400000, 0x1000, target, Some(SITE), None).unwrap();
    assert_eq!(r.hook_address, 0x401000);
    assert_eq!(r.hook_size, 6);
    let code = r.hook_code.unwrap();
    assert_eq!(code[0], 0xE9);
    let rel = u32::from_le_bytes([code[1], code[2], code[3], code[4]]);
    assert_eq!(rel, (target as u32).wrapping_sub(0x401000 + 5));
    assert_eq!(code[5], 0x90);
    let t = r.trampoline.unwrap();
    assert_eq!(
        &t.trampoline[..12],
        &[0x55, 0x8B, 0xEC, 0x83, 0xEC, 0x10, 0xFF, 0x25, 0x88, 0x50, 0x00, 0x00]
    );
    assert_eq!(t.jump_back_addr, 0x401006);
}

#[test]
fn instruction_past_region_end_is_refused() {
    let img = image(0x1000, &[0x55, 0x8B, 0xEC, 0x83, 0xEC, 0x10]);
    let m = Manager::new();
    let info = function_info(function(0x1000, 0, 0x3000, HookType::Jump, Some(SITE), None));
    assert_eq!(
        m.generate_trampoline(&img, &info, 0x1000, 5, SITE).unwrap_err(),
        HookError::BufferConversionFailed
    );
    assert_eq!(
        m.generate_trampoline(&img, &info, 0x1000, 65, SITE).unwrap_err(),
        HookError::BufferTooSmall(64, 65)
    );
}

#[test]
fn trampoline_longer_than_its_block_is_refused() {
    // eleven short conditional jumps out of the region grow to 66 bytes
    let mut code = Vec::new();
    for _ in 0..11 {
        code.extend_from_slice(&[0x74, 0x7F]);
    }
    let img = image(0x1000, &code);
    let m = Manager::new();
    let info = function_info(function(0x1000, 0, 0x3000, HookType::Jump, Some(SITE), None));
    assert_eq!(
        m.generate_trampoline(&img, &info, 0x1000, 22, SITE).unwrap_err(),
        HookError::BufferTooSmall(64, 72)
    );
}

#[test]
fn hook_site_errors_reach_the_caller() {
    let img = image(0x1000, &[0x33, 0xC0, 0xEB, 0x05, 0x90, 0x90]);
    let r = inline_hook_jmp(&img, 0x1000, 0, 0x3000, Some(SITE), None);
    assert_eq!(r.unwrap_err(), HookError::BufferTooSmall(4, 5));
}

#[test]
fn virtual_address_adds_rva() {
    let info = function_info(function(0x400000, 0x1234, 0, HookType::Jump, None, None));
    assert_eq!(info.virtual_address(), 0x401234);
    assert_eq!(info.get_size_of_hook_opcode(), 5);
    assert_eq!(HookType::Push.size_of_opcode(), 6);
    assert!(info.flags.contains(0));
    assert!(!info.flags.contains(NAKED_TRAMPOLINE));
}

#[test]
fn near_call_past_region_end_is_refused() {
    let img = image(0x1000, &[0x90, 0xE8, 0x00, 0x10, 0x00, 0x00]);
    let m = Manager::new();
    let mut buf = vec![0xAAu8];
    // three bytes left of a four-byte region, the call needs five
    assert_eq!(
        m.copy_one_opcode(&mut buf, &img, 0x5000, 0x1001, 3, 0x1000, 4),
        Err(HookError::BufferConversionFailed)
    );
    assert_eq!(buf, vec![0xAAu8]);
    // with the whole call in the region it is relocated
    assert_eq!(m.copy_one_opcode(&mut buf, &img, 0x5000, 0x1001, 5, 0x1000, 6), Ok((5, 5)));
    let mut expected = vec![0xAAu8, 0xE8];
    expected.extend_from_slice(&le32((0x2006u32).wrapping_sub(0x5005)));
    assert_eq!(buf, expected);
}

#[test]
fn batch_stops_at_first_failure() {
    assert_eq!(next_batch_step(3, 0, Ok(())), BatchStep::Apply(0));
    assert_eq!(next_batch_step(3, 2, Ok(())), BatchStep::Apply(2));
    assert_eq!(next_batch_step(3, 3, Ok(())), BatchStep::Finish(Ok(())));
    assert_eq!(next_batch_step(0, 0, Ok(())), BatchStep::Finish(Ok(())));
    let e = HookError::BufferTooSmall(4, 5);
    assert_eq!(next_batch_step(3, 1, Err(e)), BatchStep::Finish(Err(e)));
    // driven over outcomes, the batch ends with the first failure
    let outcomes = [Ok(()), Err(HookError::InvalidPatchSize(9)), Err(HookError::InvalidParameter)];
    let mut applied = 0;
    let mut last = Ok(());
    let result = loop {
        match next_batch_step(outcomes.len(), applied, last) {
            BatchStep::Finish(r) => break r,
            BatchStep::Apply(i) => {
                last = outcomes[i];
                applied = i + 1;
            },
        }
    };
    assert_eq!(result, Err(HookError::InvalidPatchSize(9)));
    assert_eq!(applied, 2);
}

#[test]
fn indirect_jump_at_entry_is_not_followed() {
    let img = image(0x1000, &[0xFF, 0x25, 0x00, 0x20, 0x00, 0x00, 0xCC]);
    let m = Manager::new();
    assert_eq!(m.get_hook_address_and_size(&img, 0x1000, HookType::Jump), Ok((0x1000, 6)));
    assert_eq!(m.get_hook_address_and_size(&img, 0x1000, HookType::Call), Ok((0x1000, 6)));
}

#[test]
fn hint_nop_at_entry_is_covered_whole() {
    // nop dword [eax+eax*1+0]; push ebp
    let img = image(0x1000, &[0x0F, 0x1F, 0x44, 0x00, 0x00, 0x55, 0x8B, 0xEC]);
    let m = Manager::new();
    assert_eq!(m.get_hook_address_and_size(&img, 0x1000, HookType::Jump), Ok((0x1000, 5)));
    assert_eq!(m.get_hook_address_and_size(&img, 0x1000, HookType::Push), Ok((0x1000, 6)));
}
