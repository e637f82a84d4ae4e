use grav1synth::bits::{
    floor_log2, ns, pack_bits, put_bits, su, take_bool_bit, take_zero_bit, take_zero_bits, uvlc,
    BitReader,
};
use grav1synth::leb128::{leb128, leb128_write};
use grav1synth::ParseError;

fn bits_to_bytes(spec: &[(u64, usize)]) -> Vec<u8> {
    let mut bits = Vec::new();
    for &(v, n) in spec {
        put_bits(&mut bits, v, n);
    }
    pack_bits(&bits)
}

#[test]
fn read_bits_msb_first() {
    let data = [0b1011_0010u8, 0xff];
    let mut r = BitReader::new(&data, 0);
    assert_eq!(r.read_bits(3), Ok(0b101));
    assert_eq!(r.read_bits(5), Ok(0b10010));
    assert_eq!(r.read_bits(8), Ok(0xff));
    assert_eq!(r.read_bits(1), Err(ParseError::UnexpectedEof));
}

#[test]
fn read_bits_sixty_four() {
    let data = [0x01u8, 0x23, 0x45, 0x67, 0x89, 0xab, 0xcd, 0xef];
    let mut r = BitReader::new(&data, 0);
    assert_eq!(r.read_bits(64), Ok(0x0123_4567_89ab_cdef));
}

#[test]
fn flags_and_zero_bits() {
    let data = [0b1000_0000u8];
    let mut r = BitReader::new(&data, 0);
    assert_eq!(take_bool_bit(&mut r), Ok(true));
    assert_eq!(take_zero_bit(&mut r), Ok(()));
    assert_eq!(take_zero_bits(&mut r, 6), Ok(()));
    let data = [0b0010_0000u8];
    let mut r = BitReader::new(&data, 0);
    assert!(take_zero_bits(&mut r, 3).is_err());
}

#[test]
fn signed_values() {
    let data = bits_to_bytes(&[(0b1111111, 7), (0b0111111, 7), (0b1000000, 7)]);
    let mut r = BitReader::new(&data, 0);
    assert_eq!(su(&mut r, 7), Ok(-1));
    assert_eq!(su(&mut r, 7), Ok(63));
    assert_eq!(su(&mut r, 7), Ok(-64));
}

#[test]
fn non_symmetric_codes() {
    // n = 5: w = 3, m = 3; values 0..3 take two bits, 3 and 4 take three.
    let data = bits_to_bytes(&[(0b10, 2), (0b110, 3), (0b111, 3)]);
    let mut r = BitReader::new(&data, 0);
    assert_eq!(ns(&mut r, 5), Ok(2));
    assert_eq!(ns(&mut r, 5), Ok(3));
    assert_eq!(ns(&mut r, 5), Ok(4));
    let data = [0u8];
    let mut r = BitReader::new(&data, 0);
    assert_eq!(ns(&mut r, 1), Ok(0));
    assert_eq!(r.pos, 0);
}

#[test]
fn uvlc_values() {
    // 0 -> "1"; 1 -> "010"; 4 -> "00101".
    let data = bits_to_bytes(&[(1, 1), (0b010, 3), (0b00101, 5)]);
    let mut r = BitReader::new(&data, 0);
    assert_eq!(uvlc(&mut r), Ok(0));
    assert_eq!(uvlc(&mut r), Ok(1));
    assert_eq!(uvlc(&mut r), Ok(4));
}

#[test]
fn uvlc_round_trip_large() {
    for v in [5u32, 1000, 65_535, 0x7fff_ffff, u32::MAX - 1] {
        let x = v as u64 + 1;
        let k = floor_log2(x) as usize;
        let data = bits_to_bytes(&[(0, k), (1, 1), (x - (1u64 << k), k), (0, 8)]);
        let mut r = BitReader::new(&data, 0);
        assert_eq!(uvlc(&mut r), Ok(v));
        assert_eq!(r.pos, 2 * k + 1);
    }
}

#[test]
fn uvlc_saturates_after_32_zeros() {
    let data = bits_to_bytes(&[(0, 32), (1, 1), (0, 7)]);
    let mut r = BitReader::new(&data, 0);
    assert_eq!(uvlc(&mut r), Ok(u32::MAX));
    assert_eq!(r.pos, 33);
    let data = bits_to_bytes(&[(0, 40), (1, 1), (0, 7)]);
    let mut r = BitReader::new(&data, 0);
    assert_eq!(uvlc(&mut r), Ok(u32::MAX));
}

#[test]
fn uvlc_without_terminator_fails() {
    let data = [0u8, 0];
    let mut r = BitReader::new(&data, 0);
    assert!(uvlc(&mut r).is_err());
}

#[test]
fn floor_log2_values() {
    assert_eq!(floor_log2(1), 0);
    assert_eq!(floor_log2(2), 1);
    assert_eq!(floor_log2(3), 1);
    assert_eq!(floor_log2(1 << 40), 40);
    assert_eq!(floor_log2(u64::MAX), 63);
}

#[test]
fn pack_pads_with_zeros() {
    let mut bits = Vec::new();
    put_bits(&mut bits, 0b101, 3);
    assert_eq!(pack_bits(&bits), vec![0b1010_0000]);
}

#[test]
fn leb128_round_trip() {
    for v in [0u32, 1, 127, 128, 300, 16_383, 16_384, 0x1f_ffff, 0x20_0000, u32::MAX] {
        let enc = leb128_write(v);
        let mut with_tail = enc.clone();
        with_tail.extend_from_slice(&[0x80, 0x01]);
        let r = leb128(&with_tail, 0).unwrap();
        assert_eq!(r.value, v as u64);
        assert_eq!(r.bytes_read, enc.len());
        assert!((1..=5).contains(&enc.len()));
    }
}

#[test]
fn leb128_known_codes() {
    assert_eq!(leb128_write(0), vec![0x00]);
    assert_eq!(leb128_write(300), vec![0xac, 0x02]);
    assert_eq!(leb128_write(u32::MAX), vec![0xff, 0xff, 0xff, 0xff, 0x0f]);
}

#[test]
fn leb128_padded_code() {
    let r = leb128(&[0x85, 0x80, 0x80, 0x00], 0).unwrap();
    assert_eq!(r.value, 5);
    assert_eq!(r.bytes_read, 4);
}

#[test]
fn leb128_errors() {
    assert_eq!(leb128(&[0x80, 0x80], 0).unwrap_err(), ParseError::UnexpectedEof);
    assert_eq!(leb128(&[0x80; 9], 0).unwrap_err(), ParseError::InvalidValue);
}
