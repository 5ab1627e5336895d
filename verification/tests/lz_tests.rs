use snespatch::lc_lz_shared::{parse_command_head, DcErr};
use snespatch::lc_lz2;
use snespatch::lc_lz3;

#[test]
fn parse_head_short_command() {
    // Opcode 1, length 5: one byte.
    let buf = [(1u8 << 5) | 4, 0xaa];
    assert_eq!(parse_command_head(&buf, 0), Ok(Some((1, 5))));
}

#[test]
fn parse_head_long_command() {
    // A long head: top three bits set, opcode 2 in bits four through
    // two, the length's high bit in bit one, the low byte following.
    let b0 = 0xe0u8 | (2 << 2) | 0x2;
    let buf = [b0, 0x34];
    assert_eq!(parse_command_head(&buf, 0), Ok(Some((2, 0x234 + 1))));
}

#[test]
fn parse_head_terminator() {
    let buf = [0xffu8];
    assert_eq!(parse_command_head(&buf, 0), Ok(None));
}

#[test]
fn parse_head_empty_stream() {
    let buf: [u8; 0] = [];
    assert_eq!(parse_command_head(&buf, 0), Err(DcErr::LcLzPrematureTermination));
}

#[test]
fn parse_head_double_long_fails() {
    // Opcode seven twice: an invalid double-long header, not a crash.
    let buf = [0xfcu8, 0x00];
    assert_eq!(parse_command_head(&buf, 0), Err(DcErr::LcLzInvalidCommandHeader));
}

#[test]
fn direct_copy_and_byte_fill_decode() {
    // Direct-copy three bytes [1,2,3], byte-fill two copies of 9,
    // terminator.
    let stream = [0x02u8, 1, 2, 3, 0x21, 9, 0xff];
    assert_eq!(lc_lz2::decomp(&stream), Ok(vec![1, 2, 3, 9, 9]));
    assert_eq!(lc_lz3::decomp(&stream), Ok(vec![1, 2, 3, 9, 9]));
}

#[test]
fn word_fill_alternates() {
    // Word-fill five bytes from the pair [0xab, 0xcd].
    let stream = [(2u8 << 5) | 4, 0xab, 0xcd, 0xff];
    assert_eq!(lc_lz2::decomp(&stream), Ok(vec![0xab, 0xcd, 0xab, 0xcd, 0xab]));
}

#[test]
fn inc_fill_wraps() {
    // Increment-fill four bytes from 0xfe: the value wraps at 256.
    let stream = [(3u8 << 5) | 3, 0xfe, 0xff];
    assert_eq!(lc_lz2::decomp(&stream), Ok(vec![0xfe, 0xff, 0x00, 0x01]));
}

#[test]
fn zero_fill_emits_zeroes() {
    // The richer variant's opcode three fills with zero bytes instead.
    let stream = [(3u8 << 5) | 3, 0xff];
    assert_eq!(lc_lz3::decomp(&stream), Ok(vec![0, 0, 0, 0]));
}

#[test]
fn back_reference_copies_overlapping() {
    // Emit [7], then back-copy four bytes from offset 0: the copy reads
    // its own output as it grows.
    let stream = [0x00u8, 7, (4u8 << 5) | 3, 0, 0, 0xff];
    assert_eq!(lc_lz2::decomp(&stream), Ok(vec![7, 7, 7, 7, 7]));
}

#[test]
fn back_reference_at_output_length_fails() {
    // One byte of output, then a back-reference whose offset equals the
    // current output length: a range error, not a crash.
    let stream = [0x00u8, 5, (4u8 << 5) | 0, 1, 0, 0xff];
    assert_eq!(lc_lz2::decomp(&stream), Err(DcErr::LcLzOutOfRangeCopy));
    assert_eq!(lc_lz3::decomp(&stream), Err(DcErr::LcLzOutOfRangeCopy));
}

#[test]
fn back_reference_offset_is_odd_packed() {
    // Offset bytes [o0, o1] give o0 | (o1 << 1): here 0 | (1 << 1) = 2,
    // pointing at the third output byte.
    let stream = [0x02u8, 10, 20, 30, (4u8 << 5) | 1, 0, 1, 0xff];
    assert_eq!(lc_lz2::decomp(&stream), Ok(vec![10, 20, 30, 30, 30]));
}

#[test]
fn lz2_rejects_high_opcodes() {
    // Opcode five is undefined under the simple variant.
    let stream = [(5u8 << 5) | 0, 0, 0, 0xff];
    assert_eq!(lc_lz2::decomp(&stream), Err(DcErr::LcLzUndefinedLz2Command));
}

#[test]
fn lz3_bit_reversed_copy() {
    // Emit 0x12, then copy it once with the four-bit groups swapped and
    // each reversed: a long head with opcode five and length one, then
    // the two offset bytes naming position zero.
    let stream = [0x00u8, 0x12, 0xe0 | (5 << 2), 0, 0, 0, 0xff];
    let out = lc_lz3::decomp(&stream).unwrap();
    assert_eq!(out[0], 0x12);
    assert_eq!(out.len(), 2);
    // rev(0001) = 1000, rev(0010) = 0100: byte = rev(high) | rev(low)<<4.
    assert_eq!(out[1], 0x8 | (0x4 << 4));
}

#[test]
fn lz3_backward_copy() {
    // Emit [1,2,3], then copy two bytes backward from offset 2: the long
    // head carries opcode six and length two.
    let stream = [0x02u8, 1, 2, 3, 0xe0 | (6 << 2), 1, 2, 0, 0xff];
    assert_eq!(lc_lz3::decomp(&stream), Ok(vec![1, 2, 3, 3, 2]));
}

#[test]
fn lz3_backward_copy_too_long_fails() {
    // A backward copy longer than its offset would read before the
    // output's start: a range error.
    let stream = [0x02u8, 1, 2, 3, 0xe0 | (6 << 2), 2, 2, 0, 0xff];
    assert_eq!(lc_lz3::decomp(&stream), Err(DcErr::LcLzOutOfRangeCopy));
}

#[test]
fn premature_termination_mid_command() {
    // A direct copy that asks for more input than remains.
    let stream = [0x04u8, 1, 2];
    assert_eq!(lc_lz2::decomp(&stream), Err(DcErr::LcLzPrematureTermination));
    // A stream that ends before the next head.
    let stream2 = [0x00u8, 1];
    assert_eq!(lc_lz2::decomp(&stream2), Err(DcErr::LcLzPrematureTermination));
}

#[test]
fn overlong_output_fails() {
    // 129 long byte-fills of 768 bytes each overflow the 65535-byte
    // output ceiling.
    let mut stream: Vec<u8> = Vec::new();
    for _ in 0..129 {
        stream.push(0xe0 | (1 << 2) | 0x2);
        stream.push(0xff);
        stream.push(0xaa);
    }
    stream.push(0xff);
    assert_eq!(lc_lz2::decomp(&stream), Err(DcErr::LcLzOverlongOutput));
}
