use vstd::prelude::*;

verus! {

/// The bits `0..n` of `d`, each moved to its mirrored place in an 8-bit word
/// (bit `j` goes to bit `7 - j`).
pub open spec fn reverse8_upto(d: u8, n: nat) -> u8
    decreases n,
{
    if n == 0 || n > 8 {
        0u8
    } else {
        reverse8_upto(d, (n - 1) as nat) | (((d >> ((n - 1) as u8)) & 1u8) << ((7 - (n - 1)) as u8))
    }
}

/// The bits `0..n` of `d`, each moved to its mirrored place in a 32-bit word
/// (bit `j` goes to bit `31 - j`).
pub open spec fn reverse32_upto(d: u32, n: nat) -> u32
    decreases n,
{
    if n == 0 || n > 32 {
        0u32
    } else {
        reverse32_upto(d, (n - 1) as nat) | (((d >> ((n - 1) as u32)) & 1u32) << ((31 - (n - 1)) as u32))
    }
}

/// The byte `d` with its bit order reversed.
pub open spec fn spec_reverse8(d: u8) -> u8 {
    reverse8_upto(d, 8)
}

/// The word `d` with its bit order reversed.
pub open spec fn spec_reverse32(d: u32) -> u32 {
    reverse32_upto(d, 32)
}

/// Reverses the bit order of a byte.
pub fn reverse8(data: u8) -> (r: u8)
    ensures
        r == spec_reverse8(data),
{
    let mut i: u8 = 0;
    let mut temp: u8 = 0;
    while i < 8
        invariant
            i <= 8,
            temp == reverse8_upto(data, i as nat),
        decreases 8 - i,
    {
        temp |= ((data >> i) & 0x01) << (7 - i);
        i += 1;
    }
    return temp;
}

/// Reverses the bit order of a 32-bit word.
pub fn reverse32(data: u32) -> (r: u32)
    ensures
        r == spec_reverse32(data),
{
    let mut i: u32 = 0;
    let mut temp: u32 = 0;
    while i < 32
        invariant
            i <= 32,
            temp == reverse32_upto(data, i as nat),
        decreases 32 - i,
    {
        temp |= ((data >> i) & 0x01) << (31 - i);
        i += 1;
    }
    return temp;
}

proof fn lemma_reverse8_closed(d: u8)
    ensures
        spec_reverse8(d) == ((((d >> 0u8) & 1u8) << 7u8) | (((d >> 1u8) & 1u8) << 6u8) | (((d >> 2u8) & 1u8) << 5u8) | (((d >> 3u8) & 1u8) << 4u8) | (((d >> 4u8) & 1u8) << 3u8) | (((d >> 5u8) & 1u8) << 2u8) | (((d >> 6u8) & 1u8) << 1u8) | (((d >> 7u8) & 1u8) << 0u8)),
{
    reveal_with_fuel(reverse8_upto, 9);
    assert(spec_reverse8(d) == ((((d >> 0u8) & 1u8) << 7u8) | (((d >> 1u8) & 1u8) << 6u8) | (((d >> 2u8) & 1u8) << 5u8) | (((d >> 3u8) & 1u8) << 4u8) | (((d >> 4u8) & 1u8) << 3u8) | (((d >> 5u8) & 1u8) << 2u8) | (((d >> 6u8) & 1u8) << 1u8) | (((d >> 7u8) & 1u8) << 0u8))) by (bit_vector)
        requires spec_reverse8(d) == (((((((((0u8 | (((d >> 0u8) & 1u8) << 7u8)) | (((d >> 1u8) & 1u8) << 6u8)) | (((d >> 2u8) & 1u8) << 5u8)) | (((d >> 3u8) & 1u8) << 4u8)) | (((d >> 4u8) & 1u8) << 3u8)) | (((d >> 5u8) & 1u8) << 2u8)) | (((d >> 6u8) & 1u8) << 1u8)) | (((d >> 7u8) & 1u8) << 0u8)));
}

proof fn lemma_reverse32_closed(d: u32)
    ensures
        spec_reverse32(d) == ((((d >> 0u32) & 1u32) << 31u32) | (((d >> 1u32) & 1u32) << 30u32) | (((d >> 2u32) & 1u32) << 29u32) | (((d >> 3u32) & 1u32) << 28u32) | (((d >> 4u32) & 1u32) << 27u32) | (((d >> 5u32) & 1u32) << 26u32) | (((d >> 6u32) & 1u32) << 25u32) | (((d >> 7u32) & 1u32) << 24u32) | (((d >> 8u32) & 1u32) << 23u32) | (((d >> 9u32) & 1u32) << 22u32) | (((d >> 10u32) & 1u32) << 21u32) | (((d >> 11u32) & 1u32) << 20u32) | (((d >> 12u32) & 1u32) << 19u32) | (((d >> 13u32) & 1u32) << 18u32) | (((d >> 14u32) & 1u32) << 17u32) | (((d >> 15u32) & 1u32) << 16u32) | (((d >> 16u32) & 1u32) << 15u32) | (((d >> 17u32) & 1u32) << 14u32) | (((d >> 18u32) & 1u32) << 13u32) | (((d >> 19u32) & 1u32) << 12u32) | (((d >> 20u32) & 1u32) << 11u32) | (((d >> 21u32) & 1u32) << 10u32) | (((d >> 22u32) & 1u32) << 9u32) | (((d >> 23u32) & 1u32) << 8u32) | (((d >> 24u32) & 1u32) << 7u32) | (((d >> 25u32) & 1u32) << 6u32) | (((d >> 26u32) & 1u32) << 5u32) | (((d >> 27u32) & 1u32) << 4u32) | (((d >> 28u32) & 1u32) << 3u32) | (((d >> 29u32) & 1u32) << 2u32) | (((d >> 30u32) & 1u32) << 1u32) | (((d >> 31u32) & 1u32) << 0u32)),
{
    reveal_with_fuel(reverse32_upto, 33);
    let v = spec_reverse32(d);
    assert(v == ((((((((((((((((((((((((((((((((0u32 | (((d >> 0u32) & 1u32) << 31u32)) | (((d >> 1u32) & 1u32) << 30u32)) | (((d >> 2u32) & 1u32) << 29u32)) | (((d >> 3u32) & 1u32) << 28u32)) | (((d >> 4u32) & 1u32) << 27u32)) | (((d >> 5u32) & 1u32) << 26u32)) | (((d >> 6u32) & 1u32) << 25u32)) | (((d >> 7u32) & 1u32) << 24u32)) | (((d >> 8u32) & 1u32) << 23u32)) | (((d >> 9u32) & 1u32) << 22u32)) | (((d >> 10u32) & 1u32) << 21u32)) | (((d >> 11u32) & 1u32) << 20u32)) | (((d >> 12u32) & 1u32) << 19u32)) | (((d >> 13u32) & 1u32) << 18u32)) | (((d >> 14u32) & 1u32) << 17u32)) | (((d >> 15u32) & 1u32) << 16u32)) | (((d >> 16u32) & 1u32) << 15u32)) | (((d >> 17u32) & 1u32) << 14u32)) | (((d >> 18u32) & 1u32) << 13u32)) | (((d >> 19u32) & 1u32) << 12u32)) | (((d >> 20u32) & 1u32) << 11u32)) | (((d >> 21u32) & 1u32) << 10u32)) | (((d >> 22u32) & 1u32) << 9u32)) | (((d >> 23u32) & 1u32) << 8u32)) | (((d >> 24u32) & 1u32) << 7u32)) | (((d >> 25u32) & 1u32) << 6u32)) | (((d >> 26u32) & 1u32) << 5u32)) | (((d >> 27u32) & 1u32) << 4u32)) | (((d >> 28u32) & 1u32) << 3u32)) | (((d >> 29u32) & 1u32) << 2u32)) | (((d >> 30u32) & 1u32) << 1u32)) | (((d >> 31u32) & 1u32) << 0u32)));
    assert(v == ((((d >> 0u32) & 1u32) << 31u32) | (((d >> 1u32) & 1u32) << 30u32) | (((d >> 2u32) & 1u32) << 29u32) | (((d >> 3u32) & 1u32) << 28u32) | (((d >> 4u32) & 1u32) << 27u32) | (((d >> 5u32) & 1u32) << 26u32) | (((d >> 6u32) & 1u32) << 25u32) | (((d >> 7u32) & 1u32) << 24u32) | (((d >> 8u32) & 1u32) << 23u32) | (((d >> 9u32) & 1u32) << 22u32) | (((d >> 10u32) & 1u32) << 21u32) | (((d >> 11u32) & 1u32) << 20u32) | (((d >> 12u32) & 1u32) << 19u32) | (((d >> 13u32) & 1u32) << 18u32) | (((d >> 14u32) & 1u32) << 17u32) | (((d >> 15u32) & 1u32) << 16u32) | (((d >> 16u32) & 1u32) << 15u32) | (((d >> 17u32) & 1u32) << 14u32) | (((d >> 18u32) & 1u32) << 13u32) | (((d >> 19u32) & 1u32) << 12u32) | (((d >> 20u32) & 1u32) << 11u32) | (((d >> 21u32) & 1u32) << 10u32) | (((d >> 22u32) & 1u32) << 9u32) | (((d >> 23u32) & 1u32) << 8u32) | (((d >> 24u32) & 1u32) << 7u32) | (((d >> 25u32) & 1u32) << 6u32) | (((d >> 26u32) & 1u32) << 5u32) | (((d >> 27u32) & 1u32) << 4u32) | (((d >> 28u32) & 1u32) << 3u32) | (((d >> 29u32) & 1u32) << 2u32) | (((d >> 30u32) & 1u32) << 1u32) | (((d >> 31u32) & 1u32) << 0u32))) by (bit_vector)
        requires v == (((((((((((((((((((((((((((((((((0u32 | (((d >> 0u32) & 1u32) << 31u32)) | (((d >> 1u32) & 1u32) << 30u32)) | (((d >> 2u32) & 1u32) << 29u32)) | (((d >> 3u32) & 1u32) << 28u32)) | (((d >> 4u32) & 1u32) << 27u32)) | (((d >> 5u32) & 1u32) << 26u32)) | (((d >> 6u32) & 1u32) << 25u32)) | (((d >> 7u32) & 1u32) << 24u32)) | (((d >> 8u32) & 1u32) << 23u32)) | (((d >> 9u32) & 1u32) << 22u32)) | (((d >> 10u32) & 1u32) << 21u32)) | (((d >> 11u32) & 1u32) << 20u32)) | (((d >> 12u32) & 1u32) << 19u32)) | (((d >> 13u32) & 1u32) << 18u32)) | (((d >> 14u32) & 1u32) << 17u32)) | (((d >> 15u32) & 1u32) << 16u32)) | (((d >> 16u32) & 1u32) << 15u32)) | (((d >> 17u32) & 1u32) << 14u32)) | (((d >> 18u32) & 1u32) << 13u32)) | (((d >> 19u32) & 1u32) << 12u32)) | (((d >> 20u32) & 1u32) << 11u32)) | (((d >> 21u32) & 1u32) << 10u32)) | (((d >> 22u32) & 1u32) << 9u32)) | (((d >> 23u32) & 1u32) << 8u32)) | (((d >> 24u32) & 1u32) << 7u32)) | (((d >> 25u32) & 1u32) << 6u32)) | (((d >> 26u32) & 1u32) << 5u32)) | (((d >> 27u32) & 1u32) << 4u32)) | (((d >> 28u32) & 1u32) << 3u32)) | (((d >> 29u32) & 1u32) << 2u32)) | (((d >> 30u32) & 1u32) << 1u32)) | (((d >> 31u32) & 1u32) << 0u32)));
}

/// Reversing the bits of a byte twice gives it back.
pub proof fn lemma_reverse8_involutive(d: u8)
    ensures
        spec_reverse8(spec_reverse8(d)) == d,
{
    lemma_reverse8_closed(d);
    let r = spec_reverse8(d);
    lemma_reverse8_closed(r);
    assert(((((r >> 0u8) & 1u8) << 7u8) | (((r >> 1u8) & 1u8) << 6u8) | (((r >> 2u8) & 1u8) << 5u8) | (((r >> 3u8) & 1u8) << 4u8) | (((r >> 4u8) & 1u8) << 3u8) | (((r >> 5u8) & 1u8) << 2u8) | (((r >> 6u8) & 1u8) << 1u8) | (((r >> 7u8) & 1u8) << 0u8)) == d) by (bit_vector)
        requires r == ((((d >> 0u8) & 1u8) << 7u8) | (((d >> 1u8) & 1u8) << 6u8) | (((d >> 2u8) & 1u8) << 5u8) | (((d >> 3u8) & 1u8) << 4u8) | (((d >> 4u8) & 1u8) << 3u8) | (((d >> 5u8) & 1u8) << 2u8) | (((d >> 6u8) & 1u8) << 1u8) | (((d >> 7u8) & 1u8) << 0u8));
}

/// Reversing the bits of a word twice gives it back.
pub proof fn lemma_reverse32_involutive(d: u32)
    ensures
        spec_reverse32(spec_reverse32(d)) == d,
{
    lemma_reverse32_closed(d);
    let r = spec_reverse32(d);
    lemma_reverse32_closed(r);
    assert(((((r >> 0u32) & 1u32) << 31u32) | (((r >> 1u32) & 1u32) << 30u32) | (((r >> 2u32) & 1u32) << 29u32) | (((r >> 3u32) & 1u32) << 28u32) | (((r >> 4u32) & 1u32) << 27u32) | (((r >> 5u32) & 1u32) << 26u32) | (((r >> 6u32) & 1u32) << 25u32) | (((r >> 7u32) & 1u32) << 24u32) | (((r >> 8u32) & 1u32) << 23u32) | (((r >> 9u32) & 1u32) << 22u32) | (((r >> 10u32) & 1u32) << 21u32) | (((r >> 11u32) & 1u32) << 20u32) | (((r >> 12u32) & 1u32) << 19u32) | (((r >> 13u32) & 1u32) << 18u32) | (((r >> 14u32) & 1u32) << 17u32) | (((r >> 15u32) & 1u32) << 16u32) | (((r >> 16u32) & 1u32) << 15u32) | (((r >> 17u32) & 1u32) << 14u32) | (((r >> 18u32) & 1u32) << 13u32) | (((r >> 19u32) & 1u32) << 12u32) | (((r >> 20u32) & 1u32) << 11u32) | (((r >> 21u32) & 1u32) << 10u32) | (((r >> 22u32) & 1u32) << 9u32) | (((r >> 23u32) & 1u32) << 8u32) | (((r >> 24u32) & 1u32) << 7u32) | (((r >> 25u32) & 1u32) << 6u32) | (((r >> 26u32) & 1u32) << 5u32) | (((r >> 27u32) & 1u32) << 4u32) | (((r >> 28u32) & 1u32) << 3u32) | (((r >> 29u32) & 1u32) << 2u32) | (((r >> 30u32) & 1u32) << 1u32) | (((r >> 31u32) & 1u32) << 0u32)) == d) by (bit_vector)
        requires r == ((((d >> 0u32) & 1u32) << 31u32) | (((d >> 1u32) & 1u32) << 30u32) | (((d >> 2u32) & 1u32) << 29u32) | (((d >> 3u32) & 1u32) << 28u32) | (((d >> 4u32) & 1u32) << 27u32) | (((d >> 5u32) & 1u32) << 26u32) | (((d >> 6u32) & 1u32) << 25u32) | (((d >> 7u32) & 1u32) << 24u32) | (((d >> 8u32) & 1u32) << 23u32) | (((d >> 9u32) & 1u32) << 22u32) | (((d >> 10u32) & 1u32) << 21u32) | (((d >> 11u32) & 1u32) << 20u32) | (((d >> 12u32) & 1u32) << 19u32) | (((d >> 13u32) & 1u32) << 18u32) | (((d >> 14u32) & 1u32) << 17u32) | (((d >> 15u32) & 1u32) << 16u32) | (((d >> 16u32) & 1u32) << 15u32) | (((d >> 17u32) & 1u32) << 14u32) | (((d >> 18u32) & 1u32) << 13u32) | (((d >> 19u32) & 1u32) << 12u32) | (((d >> 20u32) & 1u32) << 11u32) | (((d >> 21u32) & 1u32) << 10u32) | (((d >> 22u32) & 1u32) << 9u32) | (((d >> 23u32) & 1u32) << 8u32) | (((d >> 24u32) & 1u32) << 7u32) | (((d >> 25u32) & 1u32) << 6u32) | (((d >> 26u32) & 1u32) << 5u32) | (((d >> 27u32) & 1u32) << 4u32) | (((d >> 28u32) & 1u32) << 3u32) | (((d >> 29u32) & 1u32) << 2u32) | (((d >> 30u32) & 1u32) << 1u32) | (((d >> 31u32) & 1u32) << 0u32));
}


/// One byte-at-a-time table step: the CRC shifted down a byte, mixed with
/// the entry of `t0` for its low byte combined with `byte`.
pub open spec fn crc_byte(crc: u32, byte: u8, t0: Seq<u32>) -> u32 {
    (crc >> 8u32) ^ t0[((crc ^ (byte as u32)) & 255u32) as int]
}

/// The CRC after the bytes of `s`, one at a time.
pub open spec fn crc_bytes(crc: u32, s: Seq<u8>, t0: Seq<u32>) -> u32
    decreases s.len(),
{
    if s.len() == 0 {
        crc
    } else {
        crc_bytes(crc_byte(crc, s[0], t0), s.drop_first(), t0)
    }
}

/// The little-endian 32-bit word at byte `at` of `s`.
pub open spec fn word_le(s: Seq<u8>, at: int) -> u32 {
    (s[at] as int + s[at + 1] as int * 0x100 + s[at + 2] as int * 0x10000 + s[at + 3] as int * 0x1000000) as u32
}

/// The table entry of `table[i]` for byte `k` (0 for the low byte) of `x`.
pub open spec fn slice(table: Seq<[u32; 256]>, i: int, x: u32, k: u32) -> u32 {
    table[i]@[((x >> (8 * k)) & 255u32) as int]
}

/// One eight-byte step of the sliced table method on the words `w1` and
/// `w2`.
pub open spec fn crc_block(crc: u32, w1: u32, w2: u32, table: Seq<[u32; 256]>) -> u32 {
    let q = crc ^ w1;
    (slice(table, 7, q, 0) ^ slice(table, 6, q, 1) ^ slice(table, 5, q, 2) ^ slice(table, 4, q, 3))
        ^ (slice(table, 3, w2, 0) ^ slice(table, 2, w2, 1) ^ slice(table, 1, w2, 2) ^ slice(table, 0, w2, 3))
}

/// The CRC after the first `n` eight-byte blocks of `s`.
pub open spec fn crc_blocks(crc: u32, s: Seq<u8>, n: nat, table: Seq<[u32; 256]>) -> u32
    decreases n,
{
    if n == 0 {
        crc
    } else {
        let c = crc_blocks(crc, s, (n - 1) as nat, table);
        crc_block(c, word_le(s, 8 * (n - 1)), word_le(s, 8 * (n - 1) + 4), table)
    }
}

/// The number of bytes taken one at a time before the blocks, for a
/// buffer at address `addr` of `len` bytes: while the length and the
/// address share one of their two low bits.
pub open spec fn crc_head_len(addr: usize, len: usize) -> nat
    decreases len,
{
    if len == 0 || (len & addr & 3usize) == 0 {
        0
    } else {
        1 + crc_head_len((addr + 1) as usize, (len - 1) as usize)
    }
}

/// The CRC of `buf` (at address `addr`) from `crc` as the sliced table
/// method computes it: the head bytes one at a time, then eight-byte
/// blocks, then the tail bytes one at a time.
pub open spec fn spec_crc32_body(crc: u32, buf: Seq<u8>, addr: usize, table: Seq<[u32; 256]>) -> u32 {
    let h = crc_head_len(addr, buf.len() as usize) as int;
    let rest = buf.subrange(h, buf.len() as int);
    let n = rest.len() / 8;
    let c1 = crc_bytes(crc, buf.subrange(0, h), table[0]@);
    let c2 = crc_blocks(c1, rest, n, table);
    crc_bytes(c2, rest.subrange(8 * (n as int), rest.len() as int), table[0]@)
}

proof fn lemma_crc_bytes_push(crc: u32, s: Seq<u8>, b: u8, t0: Seq<u32>)
    ensures
        crc_bytes(crc, s.push(b), t0) == crc_byte(crc_bytes(crc, s, t0), b, t0),
    decreases s.len(),
{
    if s.len() > 0 {
        assert(s.push(b).drop_first() =~= s.drop_first().push(b));
        assert(s.push(b)[0] == s[0]);
        lemma_crc_bytes_push(crc_byte(crc, s[0], t0), s.drop_first(), b, t0);
    } else {
        assert(s.push(b).drop_first() =~= Seq::<u8>::empty());
        assert(s.push(b)[0] == b);
        assert(crc_bytes(crc_byte(crc, b, t0), Seq::<u8>::empty(), t0) == crc_byte(crc, b, t0));
    }
}

proof fn lemma_byte_indices(x: u32)
    ensures
        (x & 255u32) < 256,
        ((x >> 8u32) & 255u32) < 256,
        ((x >> 16u32) & 255u32) < 256,
        ((x >> 24u32) & 255u32) < 256,
        (x >> (8u32 * 0u32)) == x,
        (x >> (8u32 * 1u32)) == (x >> 8u32),
        (x >> (8u32 * 2u32)) == (x >> 16u32),
        (x >> (8u32 * 3u32)) == (x >> 24u32),
{
    assert((x & 255u32) < 256 && ((x >> 8u32) & 255u32) < 256 && ((x >> 16u32) & 255u32) < 256 && ((x >> 24u32) & 255u32) < 256
        && (x >> (8u32 * 0u32)) == x && (x >> (8u32 * 1u32)) == (x >> 8u32) && (x >> (8u32 * 2u32)) == (x >> 16u32)
        && (x >> (8u32 * 3u32)) == (x >> 24u32)) by (bit_vector);
}

proof fn lemma_head_len_bound(addr: usize, len: usize)
    ensures
        crc_head_len(addr, len) <= len,
    decreases len,
{
    if len != 0 && (len & addr & 3usize) != 0 {
        lemma_head_len_bound((addr + 1) as usize, (len - 1) as usize);
    }
}

fn read_word_le(b: &[u8], at: usize) -> (v: u32)
    requires
        at + 4 <= b@.len(),
    ensures
        v == word_le(b@, at as int),
{
    (b[at] as u32) + (b[at + 1] as u32) * 0x100 + (b[at + 2] as u32) * 0x10000 + (b[at + 3] as u32) * 0x1000000
}

/// The CRC of `buf`, which lies at address `addr`, from `crc`, by the
/// sliced table method with the eight tables `table` (see
/// `spec_crc32_body`). The buffer must not run past the last address.
/// With the tables of a CRC (a linear byte table and the tables made from
/// it) the result is the byte-at-a-time CRC of the buffer; with those of
/// the reflected CRC of a polynomial it is the bit-by-bit CRC.
pub fn crc32_body(crc0: u32, buf: &[u8], addr: usize, table: &[[u32; 256]; 8]) -> (r: u32)
    requires
        addr + buf@.len() <= usize::MAX,
    ensures
        r == spec_crc32_body(crc0, buf@, addr, table@),
        tables_derived(table@) && table_linear(table@[0]@) ==> r == crc_bytes(crc0, buf@, table@[0]@),
        forall|poly: u32|
            tables_derived(table@) && #[trigger] poly_table(table@[0]@, poly) ==> r == crc_bits(crc0, buf@, poly),
{
    let ghost t0 = table@[0]@;
    let mut crc = crc0;
    let mut pos: usize = 0;
    let mut a: usize = addr;
    let mut len: usize = buf.len();
    proof {
        lemma_head_len_bound(addr, buf@.len() as usize);
    }
    while (len & a & 3) != 0
        invariant
            pos + len == buf@.len(),
            a == addr + pos,
            addr + buf@.len() <= usize::MAX,
            crc_head_len(addr, buf@.len() as usize) == pos + crc_head_len(a, len),
            crc == crc_bytes(crc0, buf@.subrange(0, pos as int), t0),
            t0 == table@[0]@,
        decreases len,
    {
        assert(len != 0) by (bit_vector) requires (len & a & 3usize) != 0usize;
        proof {
            lemma_crc_bytes_push(crc0, buf@.subrange(0, pos as int), buf@[pos as int], t0);
            assert(buf@.subrange(0, pos as int).push(buf@[pos as int]) =~= buf@.subrange(0, pos as int + 1));
        }
        proof {
            lemma_byte_indices(crc ^ (buf@[pos as int] as u32));
        }
        crc = (crc >> 8) ^ table[0][((crc ^ buf[pos] as u32) & 255) as usize];
        pos += 1;
        a += 1;
        len -= 1;
    }
    let ghost h = pos as int;
    let ghost rest = buf@.subrange(h, buf@.len() as int);
    let ghost c1 = crc;
    let rem_len = len & 7;
    let words = len >> 3;
    assert(rem_len == len % 8 && words == len / 8) by (bit_vector) requires rem_len == len & 7usize, words == len >> 3usize;
    assert(8 * words + rem_len == len) by (nonlinear_arith) requires rem_len == len % 8, words == len / 8;
    let mut var: usize = 0;
    while var < words
        invariant
            var <= words,
            8 * words + rem_len == len,
            buf@.len() == buf.len(),
            words == rest.len() / 8,
            rest == buf@.subrange(h, buf@.len() as int),
            h == pos,
            pos + len == buf@.len(),
            rest.len() == len,
            crc == crc_blocks(c1, rest, var as nat, table@),
        decreases words - var,
    {
        let q = crc ^ read_word_le(buf, pos + 8 * var);
        proof {
            lemma_byte_indices(q);
            assert(word_le(buf@, pos + 8 * var) == word_le(rest, 8 * var));
            assert(word_le(buf@, pos + 8 * var + 4) == word_le(rest, 8 * var + 4));
        }
        let c = table[7][(q & 255) as usize] ^ table[6][((q >> 8) & 255) as usize] ^ table[5][((q >> 16) & 255) as usize] ^ table[4][((q >> 24) & 255) as usize];
        let q2 = read_word_le(buf, pos + 8 * var + 4);
        proof {
            lemma_byte_indices(q2);
        }
        crc = c ^ (table[3][(q2 & 255) as usize] ^ table[2][((q2 >> 8) & 255) as usize] ^ table[1][((q2 >> 16) & 255) as usize] ^ table[0][((q2 >> 24) & 255) as usize]);
        var += 1;
    }
    let ghost c2 = crc;
    let tail_start: usize = pos + 8 * words;
    let mut i: usize = 0;
    while i < rem_len
        invariant
            i <= rem_len,
            buf@.len() == buf.len(),
            tail_start + rem_len == buf@.len(),
            tail_start == pos + 8 * words,
            rest == buf@.subrange(h, buf@.len() as int),
            crc == crc_bytes(c2, buf@.subrange(tail_start as int, tail_start + i), t0),
            t0 == table@[0]@,
        decreases rem_len - i,
    {
        proof {
            lemma_crc_bytes_push(c2, buf@.subrange(tail_start as int, tail_start + i), buf@[tail_start + i], t0);
            assert(buf@.subrange(tail_start as int, tail_start + i).push(buf@[tail_start + i])
                =~= buf@.subrange(tail_start as int, tail_start + i + 1));
        }
        proof {
            lemma_byte_indices(crc ^ (buf@[tail_start + i] as u32));
        }
        crc = (crc >> 8) ^ table[0][((crc ^ buf[tail_start + i] as u32) & 255) as usize];
        i += 1;
    }
    proof {
        assert(rest.subrange(8 * ((rest.len() / 8) as int), rest.len() as int) =~= buf@.subrange(tail_start as int, tail_start + rem_len));
        assert(crc_head_len(a, len) == 0);
        if tables_derived(table@) && table_linear(table@[0]@) {
            lemma_crc32_body_bytewise(crc0, buf@, addr, table@);
        }
        assert forall|poly: u32| tables_derived(table@) && #[trigger] poly_table(table@[0]@, poly) implies crc
            == crc_bits(crc0, buf@, poly) by {
            lemma_crc32_body_bitwise(crc0, buf@, addr, table@, poly);
        }
    }
    crc
}


/// One step of the byte table `t0` on a register `x`: the register shifted
/// down a byte, mixed with the entry for its low byte.
pub open spec fn table_step(x: u32, t0: Seq<u32>) -> u32 {
    (x >> 8u32) ^ t0[(x & 255u32) as int]
}

/// `n` steps of the byte table `t0` on `x`.
pub open spec fn table_steps(x: u32, n: nat, t0: Seq<u32>) -> u32
    decreases n,
{
    if n == 0 {
        x
    } else {
        table_steps(table_step(x, t0), (n - 1) as nat, t0)
    }
}

/// The byte table is linear: the entry of the exclusive or of two bytes is
/// the exclusive or of their entries, as it is for the table of any CRC.
pub open spec fn table_linear(t0: Seq<u32>) -> bool {
    &&& t0.len() == 256
    &&& forall|a: u32, b: u32| a < 256 && b < 256 ==> #[trigger] t0[(a ^ b) as int] == t0[a as int] ^ t0[b as int]
}

/// Each of the eight tables after the first is the one before it taken one
/// more table step, which is how the sliced tables are made from the byte
/// table.
pub open spec fn tables_derived(table: Seq<[u32; 256]>) -> bool {
    &&& table.len() == 8
    &&& forall|k: int, i: int| 1 <= k < 8 && 0 <= i < 256 ==> #[trigger] table[k]@[i] == table_step(table[k - 1]@[i], table[0]@)
}

proof fn lemma_crc_bits(x: u32, y: u32, z: u32, u: u32, b0: u8, b1: u8, b2: u8, b3: u8, w: u32)
    by (bit_vector)
    ensures
        (x ^ y) >> 8u32 == (x >> 8u32) ^ (y >> 8u32),
        (x ^ y) & 255u32 == (x & 255u32) ^ (y & 255u32),
        (x ^ y) ^ (z ^ u) == (x ^ z) ^ (y ^ u),
        x ^ 0u32 == x,
        0u32 ^ x == x,
        x ^ x == 0u32,
        x ^ z == (x ^ (z & 255u32)) ^ ((z >> 8u32) << 8u32),
        ((z >> 8u32) << 8u32) & 255u32 == 0u32,
        ((z >> 8u32) << 8u32) >> 8u32 == z >> 8u32,
        y < 256u32 ==> (x ^ y) >> 8u32 == x >> 8u32 && y & 255u32 == y && y >> 8u32 == 0u32,
        x == (((x & 255u32) ^ (((x >> 8u32) & 255u32) << 8u32)) ^ (((x >> 16u32) & 255u32) << 16u32))
            ^ (((x >> 24u32) & 255u32) << 24u32),
        z < 256u32 ==> ((z << 8u32) >> 8u32 == z && (z << 8u32) & 255u32 == 0u32
            && (z << 16u32) >> 8u32 == z << 8u32 && (z << 16u32) & 255u32 == 0u32
            && (z << 24u32) >> 8u32 == z << 16u32 && (z << 24u32) & 255u32 == 0u32),
        ((((x >> 8u32) >> 8u32) >> 8u32) >> 8u32) == 0u32,
        x >> 16u32 == (x >> 8u32) >> 8u32,
        x >> 24u32 == ((x >> 8u32) >> 8u32) >> 8u32,
        w == (b0 as u32) + (b1 as u32) * 0x100u32 + (b2 as u32) * 0x10000u32 + (b3 as u32) * 0x1000000u32 ==> (
            w & 255u32 == b0 as u32 && (w >> 8u32) & 255u32 == b1 as u32
            && ((w >> 8u32) >> 8u32) & 255u32 == b2 as u32 && (((w >> 8u32) >> 8u32) >> 8u32) & 255u32 == b3 as u32),
{
}

proof fn lemma_t0_zero(t0: Seq<u32>)
    requires
        table_linear(t0),
    ensures
        t0[0] == 0,
{
    lemma_crc_bits(0, 0, 0, 0, 0, 0, 0, 0, 0);
    assert(t0[(0u32 ^ 0u32) as int] == t0[0u32 as int] ^ t0[0u32 as int]);
    lemma_crc_bits(t0[0], 0, 0, 0, 0, 0, 0, 0, 0);
}

proof fn lemma_step_linear(x: u32, y: u32, t0: Seq<u32>)
    requires
        table_linear(t0),
    ensures
        table_step(x ^ y, t0) == table_step(x, t0) ^ table_step(y, t0),
{
    let a = x & 255u32;
    let b = y & 255u32;
    lemma_byte_indices(x);
    lemma_byte_indices(y);
    lemma_crc_bits(x, y, 0, 0, 0, 0, 0, 0, 0);
    assert(t0[(a ^ b) as int] == t0[a as int] ^ t0[b as int]);
    lemma_crc_bits(x >> 8u32, y >> 8u32, t0[a as int], t0[b as int], 0, 0, 0, 0, 0);
}

proof fn lemma_steps_linear(x: u32, y: u32, n: nat, t0: Seq<u32>)
    requires
        table_linear(t0),
    ensures
        table_steps(x ^ y, n, t0) == table_steps(x, n, t0) ^ table_steps(y, n, t0),
    decreases n,
{
    if n > 0 {
        lemma_step_linear(x, y, t0);
        lemma_steps_linear(table_step(x, t0), table_step(y, t0), (n - 1) as nat, t0);
    }
}

proof fn lemma_steps_last(x: u32, n: nat, t0: Seq<u32>)
    ensures
        table_steps(x, n + 1, t0) == table_step(table_steps(x, n, t0), t0),
    decreases n,
{
    if n > 0 {
        lemma_steps_last(table_step(x, t0), (n - 1) as nat, t0);
    } else {
        reveal_with_fuel(table_steps, 2);
    }
}

proof fn lemma_steps_add(x: u32, m: nat, n: nat, t0: Seq<u32>)
    ensures
        table_steps(table_steps(x, m, t0), n, t0) == table_steps(x, m + n, t0),
    decreases m,
{
    if m > 0 {
        lemma_steps_add(table_step(x, t0), (m - 1) as nat, n, t0);
    }
}

proof fn lemma_table_entry(table: Seq<[u32; 256]>, k: int, i: int)
    requires
        tables_derived(table),
        table_linear(table[0]@),
        0 <= k < 8,
        0 <= i < 256,
    ensures
        table[k]@[i] == table_steps(i as u32, (k + 1) as nat, table[0]@),
    decreases k,
{
    let t0 = table[0]@;
    if k == 0 {
        lemma_crc_bits(0, i as u32, t0[i], 0, 0, 0, 0, 0, 0);
        lemma_crc_bits(t0[i], 0, 0, 0, 0, 0, 0, 0, 0);
        lemma_steps_last(i as u32, 0, t0);
    } else {
        lemma_table_entry(table, k - 1, i);
        lemma_steps_last(i as u32, k as nat, t0);
    }
}

proof fn lemma_step_shifted(z: u32, t0: Seq<u32>)
    requires
        table_linear(t0),
        z < 256,
    ensures
        table_step(z << 8u32, t0) == z,
        table_step(z << 16u32, t0) == z << 8u32,
        table_step(z << 24u32, t0) == z << 16u32,
{
    lemma_t0_zero(t0);
    lemma_crc_bits(0, 0, z, 0, 0, 0, 0, 0, 0);
    lemma_crc_bits(z, 0, 0, 0, 0, 0, 0, 0, 0);
    lemma_crc_bits(z << 8u32, 0, 0, 0, 0, 0, 0, 0, 0);
    lemma_crc_bits(z << 16u32, 0, 0, 0, 0, 0, 0, 0, 0);
}

proof fn lemma_byte_feed(c: u32, v: u32, b: u8, t0: Seq<u32>)
    requires
        table_linear(t0),
        b as u32 == v & 255u32,
    ensures
        table_step(c ^ v, t0) == crc_byte(c, b, t0) ^ (v >> 8u32),
{
    let lo = c ^ (v & 255u32);
    let hi = (v >> 8u32) << 8u32;
    lemma_t0_zero(t0);
    lemma_crc_bits(c, b as u32, v, 0, 0, 0, 0, 0, 0);
    lemma_step_linear(lo, hi, t0);
    lemma_crc_bits(v >> 8u32, 0, 0, 0, 0, 0, 0, 0, 0);
}

/// The CRC after the four bytes of `s` at `at` is `table_steps` of the
/// register mixed with their little-endian word.
proof fn lemma_word_feed(c: u32, s: Seq<u8>, at: int, t0: Seq<u32>)
    requires
        table_linear(t0),
        0 <= at,
        at + 4 <= s.len(),
    ensures
        crc_bytes(c, s.subrange(at, at + 4), t0) == table_steps(c ^ word_le(s, at), 4, t0),
{
    let w = word_le(s, at);
    let b0 = s[at];
    let b1 = s[at + 1];
    let b2 = s[at + 2];
    let b3 = s[at + 3];
    assert(w == (b0 as u32) + (b1 as u32) * 0x100u32 + (b2 as u32) * 0x10000u32 + (b3 as u32) * 0x1000000u32);
    lemma_crc_bits(w, 0, 0, 0, b0, b1, b2, b3, w);
    let v1 = w >> 8u32;
    let v2 = v1 >> 8u32;
    let v3 = v2 >> 8u32;
    let s1 = crc_byte(c, b0, t0);
    let s2 = crc_byte(s1, b1, t0);
    let s3 = crc_byte(s2, b2, t0);
    let s4 = crc_byte(s3, b3, t0);
    assert(s.subrange(at, at + 4) =~= seq![b0].push(b1).push(b2).push(b3));
    assert(seq![b0] =~= Seq::<u8>::empty().push(b0));
    lemma_crc_bytes_push(c, Seq::<u8>::empty(), b0, t0);
    lemma_crc_bytes_push(c, seq![b0], b1, t0);
    lemma_crc_bytes_push(c, seq![b0].push(b1), b2, t0);
    lemma_crc_bytes_push(c, seq![b0].push(b1).push(b2), b3, t0);
    lemma_byte_feed(c, w, b0, t0);
    lemma_byte_feed(s1, v1, b1, t0);
    lemma_byte_feed(s2, v2, b2, t0);
    lemma_byte_feed(s3, v3, b3, t0);
    lemma_steps_last(c ^ w, 0, t0);
    lemma_steps_last(c ^ w, 1, t0);
    lemma_steps_last(c ^ w, 2, t0);
    lemma_steps_last(c ^ w, 3, t0);
    lemma_crc_bits(s4, 0, 0, 0, 0, 0, 0, 0, 0);
    lemma_crc_bits(w, 0, 0, 0, 0, 0, 0, 0, 0);
}

proof fn lemma_crc_bytes_concat(c: u32, a: Seq<u8>, b: Seq<u8>, t0: Seq<u32>)
    ensures
        crc_bytes(c, a + b, t0) == crc_bytes(crc_bytes(c, a, t0), b, t0),
    decreases a.len(),
{
    if a.len() == 0 {
        assert(a + b =~= b);
    } else {
        assert((a + b).drop_first() =~= a.drop_first() + b);
        assert((a + b)[0] == a[0]);
        lemma_crc_bytes_concat(crc_byte(c, a[0], t0), a.drop_first(), b, t0);
    }
}

proof fn lemma_word_steps(x: u32, n: nat, table: Seq<[u32; 256]>)
    requires
        tables_derived(table),
        table_linear(table[0]@),
        n == 4 || n == 8,
    ensures
        table_steps(x, n, table[0]@) == (((slice(table, n - 1, x, 0) ^ slice(table, n - 2, x, 1))
            ^ slice(table, n - 3, x, 2)) ^ slice(table, n - 4, x, 3)),
{
    let t0 = table[0]@;
    lemma_byte_indices(x);
    lemma_crc_bits(x, 0, 0, 0, 0, 0, 0, 0, 0);
    let x0 = x & 255u32;
    let x1 = (x >> 8u32) & 255u32;
    let x2 = (x >> 16u32) & 255u32;
    let x3 = (x >> 24u32) & 255u32;
    let a = x0 ^ (x1 << 8u32);
    let b = a ^ (x2 << 16u32);
    lemma_steps_linear(b, x3 << 24u32, n, t0);
    lemma_steps_linear(a, x2 << 16u32, n, t0);
    lemma_steps_linear(x0, x1 << 8u32, n, t0);
    lemma_step_shifted(x1, t0);
    lemma_step_shifted(x2, t0);
    lemma_step_shifted(x3, t0);
    lemma_table_entry(table, n - 1, x0 as int);
    lemma_table_entry(table, n - 2, x1 as int);
    lemma_table_entry(table, n - 3, x2 as int);
    lemma_table_entry(table, n - 4, x3 as int);
    let m = (n - 1) as nat;
    assert(table_steps(x1 << 8u32, n, t0) == table_steps(x1, m, t0));
    assert(table_steps(x2 << 16u32, n, t0) == table_steps(x2 << 8u32, m, t0));
    assert(table_steps(x2 << 8u32, m, t0) == table_steps(x2, (m - 1) as nat, t0));
    assert(table_steps(x3 << 24u32, n, t0) == table_steps(x3 << 16u32, m, t0));
    assert(table_steps(x3 << 16u32, m, t0) == table_steps(x3 << 8u32, (m - 1) as nat, t0));
    assert(table_steps(x3 << 8u32, (m - 1) as nat, t0) == table_steps(x3, (m - 2) as nat, t0));
}

/// One eight-byte block of the sliced method is the byte-at-a-time CRC of
/// its eight bytes.
proof fn lemma_block_bytes(c: u32, s: Seq<u8>, at: int, table: Seq<[u32; 256]>)
    requires
        tables_derived(table),
        table_linear(table[0]@),
        0 <= at,
        at + 8 <= s.len(),
    ensures
        crc_bytes(c, s.subrange(at, at + 8), table[0]@) == crc_block(c, word_le(s, at), word_le(s, at + 4), table),
{
    let t0 = table[0]@;
    let w1 = word_le(s, at);
    let w2 = word_le(s, at + 4);
    let q = c ^ w1;
    assert(s.subrange(at, at + 8) =~= s.subrange(at, at + 4) + s.subrange(at + 4, at + 8));
    lemma_crc_bytes_concat(c, s.subrange(at, at + 4), s.subrange(at + 4, at + 8), t0);
    lemma_word_feed(c, s, at, t0);
    let s4 = table_steps(q, 4, t0);
    lemma_word_feed(s4, s, at + 4, t0);
    lemma_steps_linear(s4, w2, 4, t0);
    lemma_steps_add(q, 4, 4, t0);
    lemma_word_steps(q, 8, table);
    lemma_word_steps(w2, 4, table);
}

proof fn lemma_blocks_bytes(c: u32, s: Seq<u8>, n: nat, table: Seq<[u32; 256]>)
    requires
        tables_derived(table),
        table_linear(table[0]@),
        8 * n <= s.len(),
    ensures
        crc_blocks(c, s, n, table) == crc_bytes(c, s.subrange(0, 8 * (n as int)), table[0]@),
    decreases n,
{
    if n == 0 {
        assert(s.subrange(0, 0) =~= Seq::<u8>::empty());
    } else {
        let m = (n - 1) as nat;
        let e = 8 * (m as int);
        lemma_blocks_bytes(c, s, m, table);
        lemma_block_bytes(crc_bytes(c, s.subrange(0, e), table[0]@), s, e, table);
        assert(s.subrange(0, 8 * (n as int)) =~= s.subrange(0, e) + s.subrange(e, e + 8));
        lemma_crc_bytes_concat(c, s.subrange(0, e), s.subrange(e, e + 8), table[0]@);
    }
}

/// With tables made from a linear byte table, the sliced table method
/// gives the byte-at-a-time CRC of the whole buffer, whatever the address
/// of the buffer.
pub proof fn lemma_crc32_body_bytewise(crc: u32, buf: Seq<u8>, addr: usize, table: Seq<[u32; 256]>)
    requires
        tables_derived(table),
        table_linear(table[0]@),
        buf.len() <= usize::MAX,
    ensures
        spec_crc32_body(crc, buf, addr, table) == crc_bytes(crc, buf, table[0]@),
{
    let t0 = table[0]@;
    lemma_head_len_bound(addr, buf.len() as usize);
    let h = crc_head_len(addr, buf.len() as usize) as int;
    let rest = buf.subrange(h, buf.len() as int);
    let n = rest.len() / 8;
    assert(8 * n <= rest.len()) by (nonlinear_arith) requires n == rest.len() / 8;
    let c1 = crc_bytes(crc, buf.subrange(0, h), t0);
    lemma_blocks_bytes(c1, rest, n, table);
    assert(buf =~= buf.subrange(0, h) + rest);
    assert(rest =~= rest.subrange(0, 8 * (n as int)) + rest.subrange(8 * (n as int), rest.len() as int));
    lemma_crc_bytes_concat(crc, buf.subrange(0, h), rest, t0);
    lemma_crc_bytes_concat(c1, rest.subrange(0, 8 * (n as int)), rest.subrange(8 * (n as int), rest.len() as int), t0);
}


/// One bit of the reflected CRC shift register with polynomial `poly`: the
/// register shifted down a bit, mixed with the polynomial when the bit
/// shifted out was set.
pub open spec fn poly_step(x: u32, poly: u32) -> u32 {
    (x >> 1u32) ^ (if x & 1u32 == 1u32 { poly } else { 0u32 })
}

/// `n` bits of the reflected CRC shift register with polynomial `poly`.
pub open spec fn poly_steps(x: u32, poly: u32, n: nat) -> u32
    decreases n,
{
    if n == 0 {
        x
    } else {
        poly_steps(poly_step(x, poly), poly, (n - 1) as nat)
    }
}

/// The reflected CRC with polynomial `poly` of the bytes of `s` from the
/// register `crc`, bit by bit: each byte is mixed into the low byte of the
/// register, then eight bits are shifted out.
pub open spec fn crc_bits(crc: u32, s: Seq<u8>, poly: u32) -> u32
    decreases s.len(),
{
    if s.len() == 0 {
        crc
    } else {
        crc_bits(poly_steps(crc ^ (s[0] as u32), poly, 8), s.drop_first(), poly)
    }
}

/// `t0` is the byte table of the reflected CRC with polynomial `poly`:
/// the entry of each byte is the register after shifting that byte out.
pub open spec fn poly_table(t0: Seq<u32>, poly: u32) -> bool {
    &&& t0.len() == 256
    &&& forall|i: int| 0 <= i < 256 ==> #[trigger] t0[i] == poly_steps(i as u32, poly, 8)
}

proof fn lemma_poly_bits(x: u32, y: u32, p: u32, m: u32, k: u32)
    by (bit_vector)
    ensures
        poly_step(x ^ y, p) == poly_step(x, p) ^ poly_step(y, p),
        x < 256u32 && y < 256u32 ==> x ^ y < 256u32,
        k == m * 2 + 1 && y & k == 0u32 ==> poly_step(y, p) == y >> 1u32 && (y >> 1u32) & m == 0u32,
        y >> 8u32 == (((((((y >> 1u32) >> 1u32) >> 1u32) >> 1u32) >> 1u32) >> 1u32) >> 1u32) >> 1u32,
{
}

proof fn lemma_poly_steps_linear(x: u32, y: u32, p: u32, n: nat)
    ensures
        poly_steps(x ^ y, p, n) == poly_steps(x, p, n) ^ poly_steps(y, p, n),
    decreases n,
{
    if n > 0 {
        lemma_poly_bits(x, y, p, 0, 0);
        lemma_poly_steps_linear(poly_step(x, p), poly_step(y, p), p, (n - 1) as nat);
    }
}

proof fn lemma_poly_steps_high(y: u32, p: u32)
    requires
        y & 255u32 == 0,
    ensures
        poly_steps(y, p, 8) == y >> 8u32,
{
    let y1 = y >> 1u32;
    let y2 = y1 >> 1u32;
    let y3 = y2 >> 1u32;
    let y4 = y3 >> 1u32;
    let y5 = y4 >> 1u32;
    let y6 = y5 >> 1u32;
    let y7 = y6 >> 1u32;
    lemma_poly_bits(0, y, p, 127, 255);
    lemma_poly_bits(0, y1, p, 63, 127);
    lemma_poly_bits(0, y2, p, 31, 63);
    lemma_poly_bits(0, y3, p, 15, 31);
    lemma_poly_bits(0, y4, p, 7, 15);
    lemma_poly_bits(0, y5, p, 3, 7);
    lemma_poly_bits(0, y6, p, 1, 3);
    lemma_poly_bits(0, y7, p, 0, 1);
    reveal_with_fuel(poly_steps, 9);
}

/// The byte table of a reflected CRC is linear.
pub proof fn lemma_poly_table_linear(t0: Seq<u32>, poly: u32)
    requires
        poly_table(t0, poly),
    ensures
        table_linear(t0),
{
    assert forall|a: u32, b: u32| a < 256 && b < 256 implies #[trigger] t0[(a ^ b) as int] == t0[a as int] ^ t0[b as int] by {
        lemma_poly_bits(a, b, poly, 0, 0);
        lemma_poly_steps_linear(a, b, poly, 8);
    }
}

proof fn lemma_crc_byte_bits(c: u32, b: u8, t0: Seq<u32>, poly: u32)
    requires
        poly_table(t0, poly),
    ensures
        crc_byte(c, b, t0) == poly_steps(c ^ (b as u32), poly, 8),
{
    let v = c ^ (b as u32);
    let lo = v & 255u32;
    let hi = (v >> 8u32) << 8u32;
    lemma_byte_indices(v);
    lemma_crc_bits(0, 0, v, 0, 0, 0, 0, 0, 0);
    lemma_crc_bits(v, 0, 0, 0, 0, 0, 0, 0, 0);
    lemma_crc_bits(lo, 0, 0, 0, 0, 0, 0, 0, 0);
    lemma_crc_bits(c, b as u32, 0, 0, 0, 0, 0, 0, 0);
    lemma_poly_steps_linear(lo, hi, poly, 8);
    lemma_poly_steps_high(hi, poly);
    lemma_crc_bits(0, c >> 8u32, t0[lo as int], 0, 0, 0, 0, 0, 0);
    lemma_crc_bits(t0[lo as int], 0, 0, 0, 0, 0, 0, 0, 0);
    lemma_crc_bits(c >> 8u32, 0, 0, 0, 0, 0, 0, 0, 0);
}

/// With the byte table of a reflected CRC, the byte-at-a-time CRC is the
/// bit-by-bit CRC.
pub proof fn lemma_crc_bytes_bits(crc: u32, s: Seq<u8>, t0: Seq<u32>, poly: u32)
    requires
        poly_table(t0, poly),
    ensures
        crc_bytes(crc, s, t0) == crc_bits(crc, s, poly),
    decreases s.len(),
{
    if s.len() > 0 {
        lemma_crc_byte_bits(crc, s[0], t0, poly);
        lemma_crc_bytes_bits(crc_byte(crc, s[0], t0), s.drop_first(), t0, poly);
    }
}

/// The bit-by-bit CRC of two byte strings one after the other is that of
/// the second from the CRC of the first.
pub proof fn lemma_crc_bits_concat(crc: u32, a: Seq<u8>, b: Seq<u8>, poly: u32)
    ensures
        crc_bits(crc, a + b, poly) == crc_bits(crc_bits(crc, a, poly), b, poly),
    decreases a.len(),
{
    if a.len() == 0 {
        assert(a + b =~= b);
    } else {
        assert((a + b).drop_first() =~= a.drop_first() + b);
        assert((a + b)[0] == a[0]);
        lemma_crc_bits_concat(poly_steps(crc ^ (a[0] as u32), poly, 8), a.drop_first(), b, poly);
    }
}

/// With the byte table of the reflected CRC of `poly` and the tables made
/// from it, the sliced table method gives the bit-by-bit CRC of the whole
/// buffer, whatever the address of the buffer.
pub proof fn lemma_crc32_body_bitwise(crc: u32, buf: Seq<u8>, addr: usize, table: Seq<[u32; 256]>, poly: u32)
    requires
        tables_derived(table),
        poly_table(table[0]@, poly),
        buf.len() <= usize::MAX,
    ensures
        spec_crc32_body(crc, buf, addr, table) == crc_bits(crc, buf, poly),
{
    lemma_poly_table_linear(table[0]@, poly);
    lemma_crc32_body_bytewise(crc, buf, addr, table);
    lemma_crc_bytes_bits(crc, buf, table[0]@, poly);
}


/// The four bytes of `x` in the opposite order.
pub open spec fn spec_swap32(x: u32) -> u32 {
    ((x & 0x000000ff) << 24u32) | ((x & 0x0000ff00) << 8u32) | ((x & 0x00ff0000) >> 8u32) | ((x & 0xff000000) >> 24u32)
}

/// The four bytes of `x` in the opposite order.
pub fn swap32(x: u32) -> (r: u32)
    ensures
        r == spec_swap32(x),
{
    ((x & 0x000000ff) << 24) | ((x & 0x0000ff00) << 8) | ((x & 0x00ff0000) >> 8) | ((x & 0xff000000) >> 24)
}

/// CRC32C of `buf` (at address `addr`) from `crc` in little-endian order,
/// by the sliced table method. The instruction-set path (when SSE4.2 was
/// found) is not written in this kernel, so it must not be taken.
pub fn crc32c_le_generic(crc: u32, buf: &[u8], addr: usize, tab: &[[u32; 256]; 8], sse4_2: bool) -> (r: u32)
    requires
        !sse4_2,
        addr + buf@.len() <= usize::MAX,
    ensures
        r == spec_crc32_body(crc, buf@, addr, tab@),
        forall|poly: u32| tables_derived(tab@) && #[trigger] poly_table(tab@[0]@, poly) ==> r == crc_bits(crc, buf@, poly),
{
    crc32_body(crc, buf, addr, tab)
}

/// The reflected polynomial of CRC32C (Castagnoli).
pub const CRC32C_POLY_LE: u32 = 0x82F6_3B78;

/// The register after shifting the byte `i` out, bit by bit, with `poly`.
fn poly_byte(i: u32, poly: u32) -> (r: u32)
    ensures
        r == poly_steps(i, poly, 8),
{
    let mut c = i;
    let mut n: u32 = 0;
    while n < 8
        invariant
            n <= 8,
            poly_steps(i, poly, 8) == poly_steps(c, poly, (8 - n) as nat),
        decreases 8 - n,
    {
        c = (c >> 1) ^ (if c & 1 == 1 { poly } else { 0 });
        n += 1;
    }
    c
}

/// The table one table step after `prev`, with the byte table `t0`.
fn next_table(prev: &[u32; 256], t0: &[u32; 256]) -> (r: [u32; 256])
    ensures
        forall|i: int| 0 <= i < 256 ==> #[trigger] r@[i] == table_step(prev@[i], t0@),
{
    let mut r = [0u32; 256];
    let mut i: usize = 0;
    while i < 256
        invariant
            i <= 256,
            forall|j: int| 0 <= j < i ==> #[trigger] r@[j] == table_step(prev@[j], t0@),
        decreases 256 - i,
    {
        proof {
            lemma_byte_indices(prev@[i as int]);
        }
        r[i] = (prev[i] >> 8) ^ t0[(prev[i] & 255) as usize];
        i += 1;
    }
    r
}

/// The eight tables of the sliced method for the reflected CRC of `poly`:
/// the byte table, and each further table one table step after the one
/// before it.
pub fn crc32_tables(poly: u32) -> (t: [[u32; 256]; 8])
    ensures
        tables_derived(t@),
        poly_table(t@[0]@, poly),
{
    let mut t0 = [0u32; 256];
    let mut i: usize = 0;
    while i < 256
        invariant
            i <= 256,
            forall|j: int| 0 <= j < i ==> #[trigger] t0@[j] == poly_steps(j as u32, poly, 8),
        decreases 256 - i,
    {
        t0[i] = poly_byte(i as u32, poly);
        i += 1;
    }
    let t1 = next_table(&t0, &t0);
    let t2 = next_table(&t1, &t0);
    let t3 = next_table(&t2, &t0);
    let t4 = next_table(&t3, &t0);
    let t5 = next_table(&t4, &t0);
    let t6 = next_table(&t5, &t0);
    let t7 = next_table(&t6, &t0);
    let t = [t0, t1, t2, t3, t4, t5, t6, t7];
    assert(t@ =~= seq![t0, t1, t2, t3, t4, t5, t6, t7]);
    t
}

/// CRC32C of `buf` (at address `addr`) from `crc` in little-endian order,
/// with the tables of the Castagnoli polynomial: the bit-by-bit reflected
/// CRC of the buffer. The instruction-set path is not written in this
/// kernel, so it must not be taken.
pub fn crc32c_le(crc: u32, buf: &[u8], addr: usize, sse4_2: bool) -> (r: u32)
    requires
        !sse4_2,
        addr + buf@.len() <= usize::MAX,
    ensures
        r == crc_bits(crc, buf@, CRC32C_POLY_LE),
{
    let tab = crc32_tables(CRC32C_POLY_LE);
    crc32c_le_generic(crc, buf, addr, &tab, sse4_2)
}

/// CRC32C of `buf` (at address `addr`) from `crc` in big-endian order:
/// the sliced table method on the byte-swapped CRC, swapped back. The
/// instruction-set path is not written in this kernel.
pub fn crc32c_be_generic(crc: u32, buf: &[u8], addr: usize, tab: &[[u32; 256]; 8], sse4_2: bool) -> (r: u32)
    requires
        !sse4_2,
        addr + buf@.len() <= usize::MAX,
    ensures
        r == spec_swap32(spec_crc32_body(spec_swap32(crc), buf@, addr, tab@)),
{
    let c = swap32(crc);
    let c = crc32_body(c, buf, addr, tab);
    swap32(c)
}

/// Swapping the bytes of a word twice gives it back.
pub proof fn lemma_swap32_involutive(x: u32)
    ensures
        spec_swap32(spec_swap32(x)) == x,
{
    assert(spec_swap32(spec_swap32(x)) == x) by (bit_vector);
}

} // verus!
