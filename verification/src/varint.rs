//! Prefix-encoded variable-length integers.
//!
//! The number of leading one bits in the first byte is the number of bytes
//! that follow it; the remaining bits of the first byte and the following
//! bytes hold the value, most significant byte first.
//!
//! ```text
//! 0xxx_xxxx                      1 byte    7 bits
//! 10xx_xxxx +1                   2 bytes  14 bits
//! 110x_xxxx +2                   3 bytes  21 bits
//! 1110_xxxx +3                   4 bytes  28 bits
//! 1111_0xxx +4                   5 bytes  35 bits
//! 1111_10xx +5                   6 bytes  42 bits
//! 1111_110x +6                   7 bytes  49 bits
//! 1111_1110 +7                   8 bytes  56 bits
//! 1111_1111 +8                   9 bytes  64 bits
//! ```
//!
//! For example 456 (`0b1_1100_1000`) needs two bytes and is written
//! `1000_0001 1100_1000`.

use vstd::arithmetic::power2::*;
use vstd::prelude::*;
use vstd::std_specs::bits::*;

verus! {

/// `bytes::Bytes`, a buffer to read from. Of a value only `bytes_held` is
/// known.
#[verifier::external_type_specification]
#[verifier::external_body]
pub struct ExBytes(bytes::Bytes);

/// `bytes::BytesMut`, a buffer to append to. Of a value only
/// `bytes_mut_held` is known.
#[verifier::external_type_specification]
#[verifier::external_body]
pub struct ExBytesMut(bytes::BytesMut);

/// The bytes that a `bytes::Bytes` holds, from its front.
pub uninterp spec fn bytes_held(buf: bytes::Bytes) -> Seq<u8>;

/// The bytes that a `bytes::BytesMut` holds, from its front.
pub uninterp spec fn bytes_mut_held(buf: bytes::BytesMut) -> Seq<u8>;

/// `Buf::chunk` of `bytes::Bytes`: all the bytes that the buffer holds, as
/// one slice.
#[verifier::external_body]
fn chunk(src: &bytes::Bytes) -> (bytes: &[u8])
    ensures
        bytes@ == bytes_held(*src),
{
    bytes::Buf::chunk(src)
}

/// `Buf::advance` of `bytes::Bytes`: drops the first `cnt` bytes. It panics
/// where the buffer holds fewer.
#[verifier::external_body]
fn advance(src: &mut bytes::Bytes, cnt: usize)
    requires
        cnt <= bytes_held(*old(src)).len(),
    ensures
        bytes_held(*final(src)) == bytes_held(*old(src)).skip(cnt as int),
{
    bytes::Buf::advance(src, cnt)
}

/// `BytesMut::len`: the number of bytes that the buffer holds.
#[verifier::external_body]
fn len_of(dest: &bytes::BytesMut) -> (len: usize)
    ensures
        len == bytes_mut_held(*dest).len(),
{
    dest.len()
}

/// `BufMut::put_slice` of `bytes::BytesMut`: appends `src`, growing the
/// buffer as needed. It panics where the new length overflows `usize`; that
/// the allocator has the room is taken for granted, as it is of a `Vec`.
#[verifier::external_body]
fn put_slice(dest: &mut bytes::BytesMut, src: &[u8])
    requires
        bytes_mut_held(*old(dest)).len() + src@.len() <= usize::MAX,
    ensures
        bytes_mut_held(*final(dest)) == bytes_mut_held(*old(dest)) + src@,
{
    bytes::BufMut::put_slice(dest, src)
}

/// The value of a byte string read as a big-endian number.
pub open spec fn be_value(bytes: Seq<u8>) -> nat
    decreases bytes.len(),
{
    if bytes.len() == 0 {
        0
    } else {
        256 * be_value(bytes.drop_last()) + bytes.last() as nat
    }
}

/// The `n` lowest base-256 digits of `v`, most significant first.
pub open spec fn be_bytes(v: nat, n: nat) -> Seq<u8>
    decreases n,
{
    if n == 0 {
        Seq::empty()
    } else {
        be_bytes(v / 256, (n - 1) as nat).push((v % 256) as u8)
    }
}

/// The length that a first byte announces: one more than its number of
/// leading one bits.
pub open spec fn varint_len(first: u8) -> nat {
    if first < 0x80 {
        1
    } else if first < 0xC0 {
        2
    } else if first < 0xE0 {
        3
    } else if first < 0xF0 {
        4
    } else if first < 0xF8 {
        5
    } else if first < 0xFC {
        6
    } else if first < 0xFE {
        7
    } else if first < 0xFF {
        8
    } else {
        9
    }
}

/// The number of bytes that the encoding of `val` takes: the least `n` with
/// `val < 2^(7n)`, and 9 where there is none below 9.
pub open spec fn encoded_len(val: u64) -> nat {
    if val < 0x80 {
        1
    } else if val < 0x4000 {
        2
    } else if val < 0x20_0000 {
        3
    } else if val < 0x1000_0000 {
        4
    } else if val < 0x8_0000_0000 {
        5
    } else if val < 0x400_0000_0000 {
        6
    } else if val < 0x2_0000_0000_0000 {
        7
    } else if val < 0x100_0000_0000_0000 {
        8
    } else {
        9
    }
}

/// The marker at the top of the first byte of an `n`-byte encoding: `n - 1`
/// one bits followed, where `n < 9`, by a zero bit.
pub open spec fn len_prefix(n: nat) -> nat {
    (256 - pow2((9 - n) as nat)) as nat
}

/// The encoding of `val`: its `encoded_len(val)` lowest base-256 digits with
/// the length marker added to the first of them, or, where that takes 9 bytes,
/// the byte `0xFF` followed by all 8 digits.
pub open spec fn encoded(val: u64) -> Seq<u8> {
    let n = encoded_len(val);
    if n == 9 {
        seq![0xFFu8] + be_bytes(val as nat, 8)
    } else {
        let digits = be_bytes(val as nat, n);
        digits.update(0, (digits[0] + len_prefix(n)) as u8)
    }
}

/// What the first byte of an `n`-byte encoding is reduced by to leave its
/// value bits: `2^(8-n)`, and 1 where no value bit is left.
pub open spec fn payload_modulus(n: nat) -> nat {
    if n >= 8 {
        1
    } else {
        pow2((8 - n) as nat)
    }
}

/// The value that an encoding of known length holds: the big-endian number
/// made of the value bits of the first byte and of all the bytes after it.
pub open spec fn decoded(bytes: Seq<u8>) -> nat {
    be_value(bytes.update(0, (bytes[0] as nat % payload_modulus(bytes.len())) as u8))
}

/// The zigzag code of `val`: non-negative numbers go to the even numbers,
/// negative ones to the odd numbers, both by growing magnitude.
pub open spec fn zigzag(val: i64) -> nat {
    if val >= 0 {
        (2 * val) as nat
    } else {
        (-2 * val - 1) as nat
    }
}

/// The number whose zigzag code is `code`.
pub open spec fn unzigzag(code: u64) -> int {
    if code % 2 == 0 {
        code as int / 2
    } else {
        -(code as int / 2) - 1
    }
}

/// `n` divided by `d`, rounded up.
pub fn ceil_div(n: u32, d: u32) -> (q: u32)
    requires
        d > 0,
    ensures
        q == (n + d - 1) / (d as int),
        (q - 1) * d < n <= q * d,
{
    if n == 0 {
        proof {
            vstd::arithmetic::div_mod::lemma_basic_div(d - 1, d as int);
            assert((0 - 1) * d < 0 && 0 * d == 0) by (nonlinear_arith)
                requires
                    d > 0,
            ;
        }
        return 0;
    }
    let below = (n - 1) / d;
    proof {
        let r = (n - 1) % (d as int);
        vstd::arithmetic::div_mod::lemma_fundamental_div_mod(n - 1, d as int);
        assert(n + d - 1 == (below + 1) * d + r) by (nonlinear_arith)
            requires
                n - 1 == d * below + r,
        ;
        vstd::arithmetic::div_mod::lemma_fundamental_div_mod_converse(
            n + d - 1,
            d as int,
            below + 1,
            r,
        );
        assert(below * d == d * below) by (nonlinear_arith);
        assert((below + 1) * d == d * below + d) by (nonlinear_arith);
        assert(below <= n - 1) by (nonlinear_arith)
            requires
                n - 1 == d * below + r,
                r >= 0,
                d >= 1,
                below >= 0,
        ;
    }
    below + 1
}

/// Returns the length of an encoding, given its first byte.
pub fn decode_varint_len(msb: u8) -> (len: usize)
    ensures
        len == varint_len(msb),
        1 <= len <= 9,
{
    let ones = msb.leading_ones();
    proof {
        axiom_u8_leading_ones(msb);
        let k: u8 = ones as u8;
        assert(!(k < 8) || (msb >> ((7 - k) as u8)) & 1u8 == 0u8);
        assert forall|j: u8| 8 - k <= j < 8 implies (msb >> j) & 1u8 == 1u8 by {
            assert(8 - u8_leading_ones(msb) <= j < 8);
        }
        let b7 = (msb >> 7u8) & 1u8;
        let b6 = (msb >> 6u8) & 1u8;
        let b5 = (msb >> 5u8) & 1u8;
        let b4 = (msb >> 4u8) & 1u8;
        let b3 = (msb >> 3u8) & 1u8;
        let b2 = (msb >> 2u8) & 1u8;
        let b1 = (msb >> 1u8) & 1u8;
        let b0 = (msb >> 0u8) & 1u8;
        assert(msb == 128 * b7 + 64 * b6 + 32 * b5 + 16 * b4 + 8 * b3 + 4 * b2 + 2 * b1 + b0
            && b7 <= 1 && b6 <= 1 && b5 <= 1 && b4 <= 1 && b3 <= 1 && b2 <= 1 && b1 <= 1 && b0
            <= 1) by (bit_vector)
            requires
                b7 == (msb >> 7u8) & 1u8,
                b6 == (msb >> 6u8) & 1u8,
                b5 == (msb >> 5u8) & 1u8,
                b4 == (msb >> 4u8) & 1u8,
                b3 == (msb >> 3u8) & 1u8,
                b2 == (msb >> 2u8) & 1u8,
                b1 == (msb >> 1u8) & 1u8,
                b0 == (msb >> 0u8) & 1u8,
        ;
    }
    ones as usize + 1
}

/// Writes the `n` lowest base-256 digits of `val` to `buf[start..start + n]`,
/// most significant first.
fn put_be(val: u64, buf: &mut [u8], start: usize, n: usize)
    requires
        start + n <= old(buf).len(),
    ensures
        final(buf).len() == old(buf).len(),
        final(buf)@.subrange(start as int, start + n) == be_bytes(val as nat, n as nat),
        final(buf)@.take(start as int) == old(buf)@.take(start as int),
        final(buf)@.skip(start + n) == old(buf)@.skip(start + n),
{
    let mut rest = val;
    let mut i = n;
    while i > 0
        invariant
            i <= n,
            start + n <= buf.len(),
            buf.len() == old(buf).len(),
            be_bytes(val as nat, n as nat) == be_bytes(rest as nat, i as nat) + buf@.subrange(
                start + i,
                start + n,
            ),
            buf@.take(start as int) == old(buf)@.take(start as int),
            buf@.skip(start + n) == old(buf)@.skip(start + n),
        decreases i,
    {
        let ghost before = buf@;
        i = i - 1;
        buf[start + i] = (rest % 256) as u8;
        proof {
            assert(buf@.subrange(start + i, start + n) == seq![(rest % 256) as u8]
                + before.subrange(start + i + 1, start + n));
            assert(be_bytes(rest as nat, (i + 1) as nat) == be_bytes((rest / 256) as nat, i as nat).push(
                (rest % 256) as u8,
            ));
            assert(be_bytes(rest as nat, (i + 1) as nat) + before.subrange(start + i + 1, start + n)
                == be_bytes((rest / 256) as nat, i as nat) + buf@.subrange(start + i, start + n));
        }
        rest = rest / 256;
    }
    proof {
        assert(be_bytes(rest as nat, 0) + buf@.subrange(start + 0, start + n) == buf@.subrange(
            start as int,
            start + n,
        ));
    }
}

/// The number of bits of `val` below its leading zeros decides the length of
/// its encoding.
proof fn lemma_bit_length_thresholds(val: u64)
    ensures
        64 - u64_leading_zeros(val) <= 7 <==> val < 0x80,
        64 - u64_leading_zeros(val) <= 14 <==> val < 0x4000,
        64 - u64_leading_zeros(val) <= 21 <==> val < 0x20_0000,
        64 - u64_leading_zeros(val) <= 28 <==> val < 0x1000_0000,
        64 - u64_leading_zeros(val) <= 35 <==> val < 0x8_0000_0000,
        64 - u64_leading_zeros(val) <= 42 <==> val < 0x400_0000_0000,
        64 - u64_leading_zeros(val) <= 49 <==> val < 0x2_0000_0000_0000,
        64 - u64_leading_zeros(val) <= 56 <==> val < 0x100_0000_0000_0000,
        0 <= u64_leading_zeros(val) <= 64,
{
    axiom_u64_leading_zeros(val);
    let lz = u64_leading_zeros(val);
    let n: u64 = (64 - lz) as u64;
    let top: u64 = (63 - lz) as u64;
    assert(val >> n == 0);
    assert(n > 0 ==> (val >> top) & 1u64 != 0u64);
    assert((n <= 7 <==> val < 0x80) && (n <= 14 <==> val < 0x4000) && (n <= 21 <==> val
        < 0x20_0000) && (n <= 28 <==> val < 0x1000_0000) && (n <= 35 <==> val < 0x8_0000_0000) && (
    n <= 42 <==> val < 0x400_0000_0000) && (n <= 49 <==> val < 0x2_0000_0000_0000) && (n <= 56
        <==> val < 0x100_0000_0000_0000)) by (bit_vector)
        requires
            n <= 64,
            val >> n == 0,
            n > 0 ==> (val >> top) & 1u64 != 0u64,
            n > 0 ==> top == n - 1,
    ;
}

/// The first of the `n` lowest digits of a number below `2^(8(n-1) + e)` is
/// below `2^e`.
proof fn lemma_first_digit_bound(v: nat, n: nat, e: nat)
    requires
        n >= 1,
        v < pow2(8 * (n - 1) as nat + e),
    ensures
        be_bytes(v, n).len() == n,
        be_bytes(v, n)[0] < pow2(e),
    decreases n,
{
    lemma_be_bytes_len(v, n);
    if n == 1 {
    } else {
        lemma_pow2_adds((8 * (n - 2) + e) as nat, 8);
        lemma2_to64();
        assert(v / 256 < pow2((8 * (n - 2) + e) as nat)) by (nonlinear_arith)
            requires
                v < pow2((8 * (n - 2) + e) as nat) * 256,
        ;
        lemma_first_digit_bound(v / 256, (n - 1) as nat, e);
    }
}

/// `be_bytes(v, n)` has `n` digits.
pub proof fn lemma_be_bytes_len(v: nat, n: nat)
    ensures
        be_bytes(v, n).len() == n,
    decreases n,
{
    if n > 0 {
        lemma_be_bytes_len(v / 256, (n - 1) as nat);
    }
}

/// Encodes `val` at the start of `buf` and returns the number of bytes
/// written; the bytes behind them stay as they were.
pub fn encode_varint(val: u64, buf: &mut [u8]) -> (len: usize)
    requires
        old(buf).len() >= encoded_len(val),
    ensures
        len == encoded_len(val),
        final(buf).len() == old(buf).len(),
        final(buf)@.take(len as int) == encoded(val),
        final(buf)@.skip(len as int) == old(buf)@.skip(len as int),
{
    let bitlen = u64::BITS - val.leading_zeros();
    let len = ceil_div(bitlen, 7);
    proof {
        lemma_bit_length_thresholds(val);
        lemma2_to64();
    }
    if len <= 1 {
        buf[0] = val as u8;
        proof {
            assert(be_bytes(val as nat, 1) == be_bytes(val as nat / 256, 0).push(
                (val as nat % 256) as u8,
            ));
        }
        1
    } else if len <= 8 {
        let len_prefix = (0xFFu16 << (9 - len)) as u8;
        let msb_mask = (0xFFu16 >> len) as u8;
        let len = len as usize;
        put_be(val, buf, 0, len);
        let top = buf[0];
        proof {
            lemma2_to64_rest();
            lemma_first_digit_bound(val as nat, len as nat, (8 - len) as nat);
        }
        let first = (top & msb_mask) | len_prefix;
        buf[0] = first;
        proof {
            let k = len as u32;
            assert(pow2((8 - k) as nat) == 256u16 >> k && pow2((9 - k) as nat) == 512u16 >> k) by {
                assert(256u16 >> 2u32 == 64 && 256u16 >> 3u32 == 32 && 256u16 >> 4u32 == 16 && 256u16
                    >> 5u32 == 8 && 256u16 >> 6u32 == 4 && 256u16 >> 7u32 == 2 && 256u16 >> 8u32
                    == 1 && 512u16 >> 2u32 == 128 && 512u16 >> 3u32 == 64 && 512u16 >> 4u32 == 32
                    && 512u16 >> 5u32 == 16 && 512u16 >> 6u32 == 8 && 512u16 >> 7u32 == 4 && 512u16
                    >> 8u32 == 2) by (bit_vector);
            }
            assert(first == top + (256 - (512u16 >> k))) by (bit_vector)
                requires
                    2 <= k <= 8,
                    top < (256u16 >> k),
                    first == (top & ((0xFFu16 >> k) as u8)) | ((0xFFu16 << ((9 - k) as u32)) as u8),
            ;
        }
        len
    } else {
        buf[0] = 0xFF;
        put_be(val, buf, 1, 8);
        9
    }
}

/// Decodes an encoding whose length is that of `src`, whatever length its
/// first byte announces.
pub fn decode_varint_unchecked(src: &[u8]) -> (val: u64)
    requires
        1 <= src.len() <= 9,
    ensures
        val == decoded(src@),
{
    let len = src.len();
    let mask = (0xFFu16 >> len) as u8;
    let first = src[0] & mask;
    let ghost cut = if len >= 8 { 8 } else { len as nat };
    let ghost payload = src@.update(0, first);
    proof {
        let k = len as u16;
        let b = src[0];
        lemma2_to64();
        let m: u16 = 256u16 >> k;
        assert((k <= 8 ==> first == (b as u16) % m && first < m) && (k == 9 ==> first == 0) && (k
            == 1 ==> m == 128) && (k == 2 ==> m == 64) && (k == 3 ==> m == 32) && (k == 4 ==> m
            == 16) && (k == 5 ==> m == 8) && (k == 6 ==> m == 4) && (k == 7 ==> m == 2) && (k == 8
            ==> m == 1)) by (bit_vector)
            requires
                1 <= k <= 9,
                first == b & ((0xFFu16 >> k) as u8),
                m == 256u16 >> k,
        ;
        assert(be_value(payload.take(1)) == first) by {
            reveal_with_fuel(be_value, 2);
        }
    }
    let mut acc: u64 = first as u64;
    let mut i: usize = 1;
    while i < len
        invariant
            1 <= i <= len,
            len == src.len(),
            len <= 9,
            cut == if len >= 8 { 8 } else { len as nat },
            payload == src@.update(0, first),
            acc == be_value(payload.take(i as int)),
            acc < pow2((8 * i - cut) as nat),
        decreases len - i,
    {
        proof {
            lemma_pow2_adds((8 * i - cut) as nat, 8);
            lemma2_to64();
            if 8 * (i + 1) - cut < 64 {
                lemma_pow2_strictly_increases((8 * (i + 1) - cut) as nat, 64);
            }
            assert(payload.take(i + 1).drop_last() == payload.take(i as int));
        }
        acc = acc * 256 + src[i] as u64;
        i = i + 1;
    }
    proof {
        assert(payload.take(len as int) == payload);
    }
    acc
}

/// Decodes the encoding at the start of `src`; `None` where `src` is empty or
/// shorter than its first byte announces.
pub fn decode_varint(src: &[u8]) -> (val: Option<u64>)
    ensures
        val is Some <==> src.len() > 0 && varint_len(src[0]) <= src.len(),
        val matches Some(v) ==> v == decoded(src@.take(varint_len(src[0]) as int)),
{
    if src.len() == 0 {
        return None;
    }
    let len = decode_varint_len(src[0]);
    if len > src.len() {
        return None;
    }
    let head = vstd::slice::slice_subrange(src, 0, len);
    Some(decode_varint_unchecked(head))
}

/// Reads the encoding at the front of `src` and drops it from `src`.
pub fn read_varint(src: &mut bytes::Bytes) -> (val: u64)
    requires
        bytes_held(*old(src)).len() > 0,
        varint_len(bytes_held(*old(src))[0]) <= bytes_held(*old(src)).len(),
    ensures
        val == decoded(bytes_held(*old(src)).take(varint_len(bytes_held(*old(src))[0]) as int)),
        bytes_held(*final(src)) == bytes_held(*old(src)).skip(
            varint_len(bytes_held(*old(src))[0]) as int,
        ),
{
    let buf = chunk(src);
    let len = decode_varint_len(buf[0]);
    let head = vstd::slice::slice_subrange(buf, 0, len);
    let val = decode_varint_unchecked(head);
    advance(src, len);
    val
}

/// Reads the encoding at the front of `src` and drops it from `src`, if
/// `src` holds all of it; else leaves `src` as it is and returns `None`.
pub fn try_read_varint(src: &mut bytes::Bytes) -> (val: Option<u64>)
    ensures
        val is Some <==> bytes_held(*old(src)).len() > 0 && varint_len(bytes_held(*old(src))[0])
            <= bytes_held(*old(src)).len(),
        val matches Some(v) ==> {
            &&& v == decoded(
                bytes_held(*old(src)).take(varint_len(bytes_held(*old(src))[0]) as int),
            )
            &&& bytes_held(*final(src)) == bytes_held(*old(src)).skip(
                varint_len(bytes_held(*old(src))[0]) as int,
            )
        },
        val is None ==> *final(src) == *old(src),
{
    let buf = chunk(src);
    if buf.len() == 0 {
        return None;
    }
    if decode_varint_len(buf[0]) > buf.len() {
        return None;
    }
    Some(read_varint(src))
}

/// Appends the encoding of `val` to `dest`.
pub fn write_varint(val: u64, dest: &mut bytes::BytesMut)
    requires
        bytes_mut_held(*old(dest)).len() + encoded_len(val) <= usize::MAX,
    ensures
        bytes_mut_held(*final(dest)) == bytes_mut_held(*old(dest)) + encoded(val),
{
    let mut buf = [0u8; 9];
    let size = encode_varint(val, &mut buf);
    let head = vstd::slice::slice_subrange(&buf, 0, size);
    put_slice(dest, head);
}

/// Appends the encoding of `val` to `dest` and returns true, if the length
/// of `dest` leaves room for 9 more bytes; else leaves `dest` as it is and
/// returns false.
pub fn try_write_varint(val: u64, dest: &mut bytes::BytesMut) -> (done: bool)
    ensures
        done <==> bytes_mut_held(*old(dest)).len() + 9 <= usize::MAX,
        done ==> bytes_mut_held(*final(dest)) == bytes_mut_held(*old(dest)) + encoded(val),
        !done ==> *final(dest) == *old(dest),
{
    if len_of(dest) > usize::MAX - 9 {
        return false;
    }
    write_varint(val, dest);
    true
}

/// Encodes a signed integer so that numbers of small magnitude, of either
/// sign, get small codes.
pub fn zigzag_encode(val: i64) -> (code: u64)
    ensures
        code == zigzag(val),
{
    let code = ((val >> 63) ^ (val << 1)) as u64;
    assert(val >= 0 ==> code == 2 * val) by (bit_vector)
        requires
            code == ((val >> 63) ^ (val << 1)) as u64,
    ;
    assert(val < 0 ==> code == -2 * val - 1) by (bit_vector)
        requires
            code == ((val >> 63) ^ (val << 1)) as u64,
    ;
    code
}

/// Decodes a zigzag code.
pub fn zigzag_decode(val: u64) -> (num: i64)
    ensures
        num == unzigzag(val),
{
    let half = val >> 1;
    let low = val & 1;
    assert(half <= 0x7FFF_FFFF_FFFF_FFFF && low <= 1 && half == val / 2 && low == val % 2)
        by (bit_vector)
        requires
            half == val >> 1,
            low == val & 1,
    ;
    let sign = -(low as i64);
    let num = (half as i64) ^ sign;
    assert(num == (if sign == 0 { half as i64 } else { (-(half as i64) - 1) as i64 }))
        by (bit_vector)
        requires
            sign == 0 || sign == -1,
            half <= 0x7FFF_FFFF_FFFF_FFFF,
            num == (half as i64) ^ sign,
    ;
    num
}

/// Decoding a zigzag code gives back the number that was encoded, and coding
/// a decoded number gives back the code.
pub proof fn lemma_zigzag_roundtrip(val: i64, code: u64)
    ensures
        zigzag(val) <= u64::MAX,
        unzigzag(zigzag(val) as u64) == val,
        i64::MIN <= unzigzag(code) <= i64::MAX,
        zigzag(unzigzag(code) as i64) == code,
{
}

/// Reading `n` digits of a number below `2^(8n)` as a big-endian number gives
/// the number back.
pub proof fn lemma_be_value_of_be_bytes(v: nat, n: nat)
    requires
        v < pow2(8 * n),
    ensures
        be_value(be_bytes(v, n)) == v,
    decreases n,
{
    lemma2_to64();
    if n > 0 {
        lemma_pow2_adds((8 * (n - 1)) as nat, 8);
        assert(v / 256 < pow2((8 * (n - 1)) as nat)) by (nonlinear_arith)
            requires
                v < pow2((8 * (n - 1)) as nat) * 256,
        ;
        lemma_be_value_of_be_bytes(v / 256, (n - 1) as nat);
        assert(be_bytes(v, n).drop_last() == be_bytes(v / 256, (n - 1) as nat));
    }
}

/// A zero byte in front does not change a big-endian number.
proof fn lemma_be_value_leading_zero(s: Seq<u8>)
    ensures
        be_value(seq![0u8] + s) == be_value(s),
    decreases s.len(),
{
    if s.len() == 0 {
        reveal_with_fuel(be_value, 2);
    } else {
        assert((seq![0u8] + s).drop_last() == seq![0u8] + s.drop_last());
        lemma_be_value_leading_zero(s.drop_last());
    }
}

/// The encoding of a number has the length that its first byte announces,
/// and decodes to that number.
pub proof fn lemma_varint_roundtrip(val: u64)
    ensures
        encoded(val).len() == encoded_len(val),
        varint_len(encoded(val)[0]) == encoded_len(val),
        decoded(encoded(val)) == val,
{
    let n = encoded_len(val);
    lemma2_to64();
    lemma2_to64_rest();
    if n == 9 {
        let digits = be_bytes(val as nat, 8);
        lemma_be_bytes_len(val as nat, 8);
        lemma_be_value_of_be_bytes(val as nat, 8);
        lemma_be_value_leading_zero(digits);
        assert(encoded(val).update(0, 0u8) == seq![0u8] + digits);
    } else {
        let digits = be_bytes(val as nat, n);
        lemma_first_digit_bound(val as nat, n, (8 - n) as nat);
        lemma_be_value_of_be_bytes(val as nat, n);
        let first = (digits[0] + len_prefix(n)) as u8;
        let m = payload_modulus(n);
        assert(len_prefix(n) == 256 - 2 * m && 256int % (m as int) == 0 && m > 0) by {
            assert(n == 1 || n == 2 || n == 3 || n == 4 || n == 5 || n == 6 || n == 7 || n == 8);
        }
        assert(first as nat % m == digits[0]) by {
        }
        assert(encoded(val).update(0, digits[0]) == digits);
    }
}

} // verus!
