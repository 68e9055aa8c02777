use al_bytecode::bits::{copy_bits, get_bit, read_byte, set_bit, tail_mask};

/// Extract `n` bits at `at` into a fresh zeroed buffer.
fn extract(src: &[u8], at: u64, n: u64) -> Vec<u8> {
    let mut out = vec![0u8; n.div_ceil(8) as usize];
    copy_bits(&mut out, 0, src, at, n);
    out
}

/// Concatenate two bit strings.
fn concat(a: &[u8], a_bits: u64, b: &[u8], b_bits: u64) -> Vec<u8> {
    let mut out = vec![0u8; (a_bits + b_bits).div_ceil(8) as usize];
    copy_bits(&mut out, 0, a, 0, a_bits);
    copy_bits(&mut out, a_bits, b, 0, b_bits);
    out
}

#[test]
fn copy_bits_byte_aligned_is_memcpy() {
    assert_eq!(extract(&[0xAB, 0xCD, 0xEF], 8, 16), vec![0xCD, 0xEF]);
}

#[test]
fn copy_bits_unaligned_source() {
    // 1010_1011 1100_1101, 8 bits from bit 4 → 1011_1100
    assert_eq!(extract(&[0xAB, 0xCD], 4, 8), vec![0xBC]);
}

#[test]
fn copy_bits_leaves_partial_tail_untouched() {
    // 3 bits from bit 0 of 1111_1111 → 1110_0000; the 5 tail bits of the
    // zeroed destination are not written.
    assert_eq!(extract(&[0xFF], 0, 3), vec![0b1110_0000]);
}

#[test]
fn copy_bits_overwrites_rather_than_ors() {
    // A non-zero destination: the copied span is replaced, and only it.
    let mut dst = [0xFF, 0xFF];
    copy_bits(&mut dst, 4, &[0x00], 0, 8);
    assert_eq!(dst, [0b1111_0000, 0b0000_1111]);
}

#[test]
fn copy_bits_concat_aligned() {
    assert_eq!(concat(&[0xAB], 8, &[0xCD], 8), vec![0xAB, 0xCD]);
}

#[test]
fn copy_bits_concat_unaligned_destination() {
    // 4 bits 1010 ++ 8 bits 1100_1101 = 12 bits 1010_1100_1101
    let out = concat(&[0b1010_0000], 4, &[0xCD], 8);
    assert_eq!(out, vec![0b1010_1100, 0b1101_0000]);
}

#[test]
fn copy_bits_concat_then_extract_roundtrip() {
    let joined = concat(&[0b1011_0000], 4, &[0xFF, 0b1000_0000], 9); // 13 bits
    assert_eq!(extract(&joined, 0, 4), vec![0b1011_0000]);
    assert_eq!(extract(&joined, 4, 9), vec![0xFF, 0b1000_0000]);
}

#[test]
fn copy_bits_zero_length_is_a_noop() {
    let mut dst = [0xAA];
    copy_bits(&mut dst, 3, &[0xFF], 0, 0);
    assert_eq!(dst, [0xAA]);
}

#[test]
fn bits_are_numbered_from_the_high_end() {
    assert_eq!(get_bit(&[0b1000_0000], 0), 1);
    assert_eq!(get_bit(&[0b1000_0000], 7), 0);
    let mut b = [0u8, 0u8];
    set_bit(&mut b, 9, 1);
    assert_eq!(b, [0, 0b0100_0000]);
    assert_eq!(get_bit(&b, 9), 1);
    set_bit(&mut b, 9, 0);
    assert_eq!(b, [0, 0]);
}

#[test]
fn a_tail_mask_keeps_the_leading_bits() {
    assert_eq!(tail_mask(1), Some(0b1000_0000));
    assert_eq!(tail_mask(11), Some(0b1110_0000));
    assert_eq!(tail_mask(16), None);
}

#[test]
fn a_byte_is_read_across_the_boundary() {
    assert_eq!(read_byte(&[0xAB, 0xCD], 4), 0xBC);
    assert_eq!(read_byte(&[0xAB, 0xCD], 0), 0xAB);
}
