use hooker::ldasm::{get_opcode_size, get_opcode_size_32};

fn len_of(hex: &[u8]) -> usize {
    let mut buf = hex.to_vec();
    buf.extend_from_slice(&[0u8; 16]);
    get_opcode_size(&buf)
}

#[test]
fn one_byte_instructions() {
    assert_eq!(len_of(&[0x90]), 1);
    assert_eq!(len_of(&[0x55]), 1);
    assert_eq!(len_of(&[0xC3]), 1);
    assert_eq!(len_of(&[0xCC]), 1);
}

#[test]
fn immediates() {
    assert_eq!(len_of(&[0x83, 0xEC, 0x10]), 3);
    assert_eq!(len_of(&[0xB8, 0x78, 0x56, 0x34, 0x12]), 5);
    assert_eq!(len_of(&[0x68, 0, 0, 0, 0]), 5);
    assert_eq!(len_of(&[0x6A, 0x05]), 2);
    assert_eq!(len_of(&[0xC2, 0x08, 0x00]), 3);
    assert_eq!(len_of(&[0xC8, 0x10, 0x00, 0x00]), 4);
    assert_eq!(len_of(&[0x9A, 0, 0, 0, 0, 0x10, 0x00]), 7);
    assert_eq!(len_of(&[0x69, 0xC0, 0x10, 0, 0, 0]), 6);
    assert_eq!(len_of(&[0x6B, 0xC0, 0x05]), 3);
    assert_eq!(len_of(&[0x81, 0xEC, 0x00, 0x01, 0x00, 0x00]), 6);
}

#[test]
fn operand_size_override() {
    assert_eq!(len_of(&[0x66, 0xB8, 0x34, 0x12]), 4);
    assert_eq!(len_of(&[0x66, 0xC7, 0x45, 0xFC, 0x00, 0x00]), 6);
    assert_eq!(len_of(&[0x66, 0xF7, 0xC1, 0x34, 0x12]), 5);
    assert_eq!(len_of(&[0x66, 0x0F, 0x6F, 0xC1]), 4);
}

#[test]
fn modrm_mod_and_rm() {
    // mod 3
    assert_eq!(len_of(&[0x8B, 0xEC]), 2);
    assert_eq!(len_of(&[0x33, 0xC0]), 2);
    assert_eq!(len_of(&[0xFF, 0xD0]), 2);
    // mod 0, disp32 form
    assert_eq!(len_of(&[0x8B, 0x05, 0x44, 0x33, 0x22, 0x11]), 6);
    assert_eq!(len_of(&[0xFF, 0x25, 0, 0, 0, 0]), 6);
    assert_eq!(len_of(&[0xFF, 0x15, 0, 0, 0, 0]), 6);
    // mod 1
    assert_eq!(len_of(&[0x8B, 0x45, 0x08]), 3);
    assert_eq!(len_of(&[0x3B, 0x4D, 0x0C]), 3);
    assert_eq!(len_of(&[0x80, 0x7D, 0x08, 0x00]), 4);
    assert_eq!(len_of(&[0xC7, 0x45, 0xFC, 0, 0, 0, 0]), 7);
    // mod 2
    assert_eq!(len_of(&[0x8B, 0x85, 0x00, 0x01, 0x00, 0x00]), 6);
    assert_eq!(len_of(&[0x8D, 0x80, 0, 0, 0, 0]), 6);
}

#[test]
fn sib_byte() {
    assert_eq!(len_of(&[0x8B, 0x04, 0x24]), 3);
    assert_eq!(len_of(&[0x8B, 0x44, 0x24, 0x04]), 4);
    assert_eq!(len_of(&[0x8B, 0x4C, 0x24, 0x08]), 4);
    assert_eq!(len_of(&[0x8B, 0x84, 0x24, 0x00, 0x01, 0x00, 0x00]), 7);
    // base 5 under mod 0: disp32 without base
    assert_eq!(len_of(&[0x8B, 0x04, 0x25, 0, 0, 0, 0]), 7);
    assert_eq!(len_of(&[0x8B, 0x0C, 0x85, 0x00, 0x10, 0x00, 0x00]), 7);
    // base 5 under mod 1 keeps its 8-bit displacement
    assert_eq!(len_of(&[0x8B, 0x44, 0x25, 0x00]), 4);
    assert_eq!(len_of(&[0x8B, 0x84, 0x25, 0, 0, 0, 0]), 7);
    assert_eq!(len_of(&[0x8D, 0x74, 0x26, 0x00]), 4);
}

#[test]
fn address_size_override() {
    // [bp] under mod 0 is a 16-bit displacement
    assert_eq!(len_of(&[0x67, 0x8B, 0x06, 0x34, 0x12]), 5);
    assert_eq!(len_of(&[0x67, 0x8B, 0x47, 0x10]), 4);
    // moffs forms take their size from the address-size override
    assert_eq!(len_of(&[0xA1, 0, 0, 0, 0]), 5);
    assert_eq!(len_of(&[0x67, 0xA1, 0x00, 0x00]), 4);
    assert_eq!(len_of(&[0x66, 0xA1, 0, 0, 0, 0]), 6);
}

#[test]
fn group_three_immediates() {
    assert_eq!(len_of(&[0xF6, 0xC1, 0x01]), 3);
    assert_eq!(len_of(&[0xF6, 0xD1]), 2);
    assert_eq!(len_of(&[0xF7, 0xC1, 0, 0, 0, 1]), 6);
    assert_eq!(len_of(&[0xF7, 0xD0]), 2);
}

#[test]
fn escaped_and_prefixed() {
    assert_eq!(len_of(&[0x0F, 0x84, 0, 0, 0, 0]), 6);
    assert_eq!(len_of(&[0x0F, 0xB6, 0xC0]), 3);
    assert_eq!(len_of(&[0x0F, 0x10, 0xC1]), 3);
    assert_eq!(len_of(&[0xF3, 0xA4]), 2);
    assert_eq!(len_of(&[0x64, 0xA1, 0, 0, 0, 0]), 6);
    assert_eq!(len_of(&[0xF0, 0x0F, 0xB1, 0x0A]), 4);
}

#[test]
fn relative_branches() {
    assert_eq!(len_of(&[0xE8, 0, 0, 0, 0]), 5);
    assert_eq!(len_of(&[0xE9, 0, 0, 0, 0]), 5);
    assert_eq!(len_of(&[0xEB, 0x10]), 2);
    assert_eq!(len_of(&[0x74, 0x05]), 2);
}

#[test]
fn bytes_past_the_buffer_read_as_zero() {
    // a lone ModRM opcode: the ModRM byte reads as zero
    assert_eq!(get_opcode_size_32(&[0x8B]), 2);
    // only prefixes: the opcode reads as zero
    assert_eq!(get_opcode_size_32(&[0x66, 0x66]), 4);
    assert_eq!(get_opcode_size_32(&[]), 2);
}

#[test]
fn hint_nops_and_endbr() {
    // nop dword [eax+eax*1+0]
    assert_eq!(len_of(&[0x0F, 0x1F, 0x44, 0x00, 0x00]), 5);
    assert_eq!(len_of(&[0x0F, 0x1F, 0x00]), 3);
    assert_eq!(len_of(&[0x0F, 0x1F, 0x40, 0x00]), 4);
    assert_eq!(len_of(&[0x0F, 0x1F, 0x80, 0, 0, 0, 0]), 7);
    assert_eq!(len_of(&[0x66, 0x0F, 0x1F, 0x44, 0x00, 0x00]), 6);
    // prefetch and the other hint opcodes 0F 18 .. 0F 1E
    assert_eq!(len_of(&[0x0F, 0x18, 0x08]), 3);
    assert_eq!(len_of(&[0x0F, 0x19, 0xC0]), 3);
    assert_eq!(len_of(&[0x0F, 0x1A, 0x45, 0x08]), 4);
    assert_eq!(len_of(&[0x0F, 0x1B, 0x04, 0x24]), 4);
    assert_eq!(len_of(&[0x0F, 0x1C, 0x00]), 3);
    assert_eq!(len_of(&[0x0F, 0x1D, 0x05, 0, 0, 0, 0]), 7);
    // endbr32
    assert_eq!(len_of(&[0xF3, 0x0F, 0x1E, 0xFB]), 4);
}
