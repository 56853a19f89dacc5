use bytes::{Buf, Bytes, BytesMut};
use rand::Rng;
use wireutil::varint::{
    ceil_div, decode_varint, decode_varint_len, decode_varint_unchecked, encode_varint,
    read_varint, try_read_varint, try_write_varint, write_varint, zigzag_decode, zigzag_encode,
};

#[test]
pub fn read_single_byte() {
    for i in 0..127 {
        assert_eq!(read_varint(&mut Bytes::copy_from_slice(&[i][..])), i as u64);
    }
}

#[test]
pub fn read_knowns() {
    assert_eq!(read_varint(&mut Bytes::copy_from_slice(&[0xFF; 9][..])), u64::MAX);
    assert_eq!(
        read_varint(&mut Bytes::copy_from_slice(&[0b1000_0001, 0b1100_1000][..])),
        456
    );
}

#[test]
pub fn read_many() {
    let nums: [u64; 10] = rand::random();
    let mut buf = BytesMut::new();
    for num in nums {
        write_varint(num, &mut buf);
    }
    let mut buf = buf.freeze();
    let mut decoded = vec![];
    while buf.remaining() > 0 {
        decoded.push(read_varint(&mut buf));
    }

    assert_eq!(&nums, &decoded[..]);
}

#[test]
pub fn encode_knowns() {
    let mut buf = [0; 9];
    let len = encode_varint(0, &mut buf);
    assert_eq!(&buf[..len], [0]);
    let len = encode_varint(u64::MAX, &mut buf);
    assert_eq!(&buf[..len], [0xFF; 9]);
}

fn test_roundtrip(val: u64) -> usize {
    let mut buf = [0; 9];
    let len = encode_varint(val, &mut buf);
    let decoded = read_varint(&mut Bytes::copy_from_slice(&buf[..len]));
    assert_eq!(val, decoded);
    len
}

#[test]
pub fn roundtrip_failures() {
    for val in [0, 33108953738072179] {
        test_roundtrip(val);
    }
}

#[test]
pub fn roundtrips() {
    let mut rng = rand::thread_rng();

    for _ in 0..100_000 {
        let val: u64 = rng.gen();
        test_roundtrip(val);
    }
}

#[test]
pub fn zigzag_encode_known() {
    assert_eq!(0, zigzag_encode(0));
    assert_eq!(1, zigzag_encode(-1));
    assert_eq!(2, zigzag_encode(1));
    assert_eq!(3, zigzag_encode(-2));
    assert_eq!(100, zigzag_encode(50));
    assert_eq!(99, zigzag_encode(-50));
}

#[test]
pub fn zigzag_consts() {
    for val in [0, 1, i64::MAX, i64::MIN] {
        assert_eq!(val, zigzag_decode(zigzag_encode(val)));
    }
}

#[test]
pub fn zigzag_roundtrips() {
    let mut rng = rand::thread_rng();

    for _ in 0..100_000 {
        let val: i64 = rng.gen();
        assert_eq!(val, zigzag_decode(zigzag_encode(val)));
    }
}

#[test]
fn length_follows_leading_ones() {
    assert_eq!(decode_varint_len(0x00), 1);
    assert_eq!(decode_varint_len(0x7F), 1);
    assert_eq!(decode_varint_len(0x80), 2);
    assert_eq!(decode_varint_len(0xBF), 2);
    assert_eq!(decode_varint_len(0xC0), 3);
    assert_eq!(decode_varint_len(0xE0), 4);
    assert_eq!(decode_varint_len(0xF0), 5);
    assert_eq!(decode_varint_len(0xF8), 6);
    assert_eq!(decode_varint_len(0xFC), 7);
    assert_eq!(decode_varint_len(0xFE), 8);
    assert_eq!(decode_varint_len(0xFF), 9);
}

#[test]
fn encode_456_takes_two_bytes() {
    let mut buf = [0xAA; 9];
    let len = encode_varint(456, &mut buf);
    assert_eq!(len, 2);
    assert_eq!(buf, [0b1000_0001, 0b1100_1000, 0xAA, 0xAA, 0xAA, 0xAA, 0xAA, 0xAA, 0xAA]);
}

#[test]
fn encoded_length_grows_every_seven_bits() {
    let mut buf = [0; 9];
    assert_eq!(encode_varint(0x7F, &mut buf), 1);
    assert_eq!(buf[0], 0x7F);
    assert_eq!(encode_varint(0x80, &mut buf), 2);
    assert_eq!(&buf[..2], [0x80, 0x80]);
    assert_eq!(encode_varint(0x3FFF, &mut buf), 2);
    assert_eq!(&buf[..2], [0xBF, 0xFF]);
    assert_eq!(encode_varint(0x4000, &mut buf), 3);
    assert_eq!(&buf[..3], [0xC0, 0x40, 0x00]);
    assert_eq!(encode_varint(0x1F_FFFF, &mut buf), 3);
    assert_eq!(encode_varint(0x20_0000, &mut buf), 4);
    assert_eq!(encode_varint(0xFFF_FFFF, &mut buf), 4);
    assert_eq!(encode_varint(0x1000_0000, &mut buf), 5);
    assert_eq!(encode_varint(0x7_FFFF_FFFF, &mut buf), 5);
    assert_eq!(encode_varint(0x8_0000_0000, &mut buf), 6);
    assert_eq!(encode_varint(0x3FF_FFFF_FFFF, &mut buf), 6);
    assert_eq!(encode_varint(0x400_0000_0000, &mut buf), 7);
    assert_eq!(encode_varint(0x1_FFFF_FFFF_FFFF, &mut buf), 7);
    assert_eq!(encode_varint(0x2_0000_0000_0000, &mut buf), 8);
    assert_eq!(encode_varint(0xFF_FFFF_FFFF_FFFF, &mut buf), 8);
    assert_eq!(&buf[..8], [0xFE, 0xFF, 0xFF, 0xFF, 0xFF, 0xFF, 0xFF, 0xFF]);
    assert_eq!(encode_varint(0x100_0000_0000_0000, &mut buf), 9);
    assert_eq!(&buf[..9], [0xFF, 0x01, 0, 0, 0, 0, 0, 0, 0]);
}

#[test]
fn nine_byte_encoding_fits_a_longer_buffer() {
    let mut buf = [0x55; 12];
    let len = encode_varint(u64::MAX - 1, &mut buf);
    assert_eq!(len, 9);
    assert_eq!(&buf[..9], [0xFF, 0xFF, 0xFF, 0xFF, 0xFF, 0xFF, 0xFF, 0xFF, 0xFE]);
    assert_eq!(&buf[9..], [0x55, 0x55, 0x55]);
}

#[test]
fn decode_unchecked_masks_by_length() {
    assert_eq!(decode_varint_unchecked(&[0x7F]), 0x3F_u64 * 2 + 1);
    assert_eq!(decode_varint_unchecked(&[0xFF]), 0x7F);
    assert_eq!(decode_varint_unchecked(&[0xFF, 0x01]), 0x3F01);
    assert_eq!(decode_varint_unchecked(&[0x81, 0xC8]), 456);
    assert_eq!(decode_varint_unchecked(&[0xFF, 1, 2, 3, 4, 5, 6, 7, 8]), 0x0102_0304_0506_0708);
}

#[test]
fn decode_wants_the_whole_encoding() {
    assert_eq!(decode_varint(&[]), None);
    assert_eq!(decode_varint(&[0x81]), None);
    assert_eq!(decode_varint(&[0xFF, 0, 0, 0, 0, 0, 0, 0]), None);
    assert_eq!(decode_varint(&[0x05]), Some(5));
    assert_eq!(decode_varint(&[0x81, 0xC8]), Some(456));
    assert_eq!(decode_varint(&[0x81, 0xC8, 0xFF, 0xFF]), Some(456));
    assert_eq!(decode_varint(&[0xFF; 9]), Some(u64::MAX));
}

#[test]
fn decode_inverts_encode_at_every_length() {
    for shift in 0..64 {
        for val in [1u64 << shift, (1u64 << shift) - 1, (1u64 << shift) + 1] {
            let mut buf = [0; 9];
            let len = encode_varint(val, &mut buf);
            assert_eq!(decode_varint_len(buf[0]), len);
            assert_eq!(decode_varint(&buf[..len]), Some(val));
            assert_eq!(decode_varint_unchecked(&buf[..len]), val);
        }
    }
}

#[test]
fn read_drops_what_it_read() {
    let mut buf = Bytes::copy_from_slice(&[0x81, 0xC8, 0x07, 0xFF]);
    assert_eq!(read_varint(&mut buf), 456);
    assert_eq!(&buf[..], [0x07, 0xFF]);
    assert_eq!(read_varint(&mut buf), 7);
    assert_eq!(&buf[..], [0xFF]);
}

#[test]
fn try_read_leaves_a_short_buffer_alone() {
    let mut buf = Bytes::copy_from_slice(&[0xC0, 0x01]);
    assert_eq!(try_read_varint(&mut buf), None);
    assert_eq!(&buf[..], [0xC0, 0x01]);
    let mut empty = Bytes::new();
    assert_eq!(try_read_varint(&mut empty), None);
    let mut whole = Bytes::copy_from_slice(&[0xC0, 0x01, 0x02, 0x09]);
    assert_eq!(try_read_varint(&mut whole), Some(0x0102));
    assert_eq!(&whole[..], [0x09]);
}

#[test]
fn write_appends() {
    let mut buf = BytesMut::new();
    write_varint(456, &mut buf);
    assert_eq!(&buf[..], [0x81, 0xC8]);
    write_varint(1, &mut buf);
    assert_eq!(&buf[..], [0x81, 0xC8, 0x01]);
    assert!(try_write_varint(u64::MAX, &mut buf));
    assert_eq!(buf.len(), 12);
    assert_eq!(&buf[3..], [0xFF; 9]);
}

#[test]
fn zigzag_orders_by_magnitude() {
    assert_eq!(zigzag_encode(i64::MAX), u64::MAX - 1);
    assert_eq!(zigzag_encode(i64::MIN), u64::MAX);
    assert_eq!(zigzag_decode(0), 0);
    assert_eq!(zigzag_decode(1), -1);
    assert_eq!(zigzag_decode(2), 1);
    assert_eq!(zigzag_decode(3), -2);
    assert_eq!(zigzag_decode(u64::MAX), i64::MIN);
    assert_eq!(zigzag_decode(u64::MAX - 1), i64::MAX);
    for code in [0u64, 1, 2, 99, 100, u64::MAX, u64::MAX - 1] {
        assert_eq!(zigzag_encode(zigzag_decode(code)), code);
    }
}

#[test]
fn ceil_div_rounds_up() {
    assert_eq!(ceil_div(0, 7), 0);
    assert_eq!(ceil_div(1, 7), 1);
    assert_eq!(ceil_div(7, 7), 1);
    assert_eq!(ceil_div(8, 7), 2);
    assert_eq!(ceil_div(56, 7), 8);
    assert_eq!(ceil_div(57, 7), 9);
    assert_eq!(ceil_div(64, 7), 10);
    assert_eq!(ceil_div(u32::MAX - 1, 1), u32::MAX - 1);
    assert_eq!(ceil_div(u32::MAX, 1), u32::MAX);
    assert_eq!(ceil_div(u32::MAX, 2), 1 << 31);
    assert_eq!(ceil_div(u32::MAX, u32::MAX), 1);
    assert_eq!(ceil_div(1, u32::MAX), 1);
    assert_eq!(ceil_div(0, u32::MAX), 0);
}
