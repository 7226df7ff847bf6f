//! How integer samples lie in bytes.
//!
//! A signed sample is written in two's complement. Its byte `k`, counted from
//! the least significant, is `floor(x / 256^k) mod 256`; that holds for
//! negative `x` too, and for any width.

use vstd::endian::Endian;
use vstd::prelude::*;

verus! {

/// Byte `k` of `x` in two's complement, counted from the least significant.
pub open spec fn byte_at(x: int, k: nat) -> u8
    decreases k,
{
    if k == 0 {
        (x % 256) as u8
    } else {
        byte_at(x / 256, (k - 1) as nat)
    }
}

/// The `width` low bytes of `x`, least significant first.
pub open spec fn le_bytes(x: int, width: nat) -> Seq<u8> {
    Seq::new(width, |k: int| byte_at(x, k as nat))
}

/// The `width` low bytes of `x`, most significant first.
pub open spec fn be_bytes(x: int, width: nat) -> Seq<u8> {
    Seq::new(width, |k: int| byte_at(x, (width - 1 - k) as nat))
}

/// The `width` low bytes of `x` in the given byte order.
pub open spec fn word_bytes(x: int, width: nat, order: Endian) -> Seq<u8> {
    match order {
        Endian::Little => le_bytes(x, width),
        Endian::Big => be_bytes(x, width),
    }
}

/// The bytes of a run of words of `width` bytes each, one word after the
/// other with nothing between them: byte `i` is byte `i % width` of word
/// `i / width`.
pub open spec fn words_bytes(words: Seq<int>, width: nat, order: Endian) -> Seq<u8> {
    Seq::new(
        words.len() * width,
        |i: int| word_bytes(words[i / (width as int)], width, order)[i % (width as int)],
    )
}

/// The bytes of a run of three-byte groups, one group after the other.
pub open spec fn triples_bytes(triples: Seq<[u8; 3]>) -> Seq<u8> {
    Seq::new(triples.len() * 3, |i: int| triples[i / 3]@[i % 3])
}

/// The signed 24-bit integer that three bytes hold, least significant first.
pub open spec fn i24_value(bytes: Seq<u8>) -> int
    recommends
        bytes.len() == 3,
{
    let raw = bytes[0] + 256 * bytes[1] + 65536 * bytes[2];
    if raw >= 0x80_0000 {
        raw - 0x100_0000
    } else {
        raw
    }
}

/// The three low bytes of `x`, each by one division.
proof fn lemma_low_bytes(x: int)
    ensures
        byte_at(x, 0) == x % 256,
        byte_at(x, 1) == (x / 256) % 256,
        byte_at(x, 2) == (x / 65536) % 256,
{
    reveal_with_fuel(byte_at, 3);
    assert((x / 256) / 256 == x / 65536);
}

/// Adding `2^32` to `x` leaves its three low bytes as they are.
proof fn lemma_low_bytes_wrap(x: int, w: int)
    requires
        w == x + 0x1_0000_0000,
    ensures
        w % 256 == x % 256,
        (w / 256) % 256 == (x / 256) % 256,
        (w / 65536) % 256 == (x / 65536) % 256,
{
    assert(w / 256 == x / 256 + 0x100_0000);
    assert(w / 65536 == x / 65536 + 0x1_0000);
}

/// Packs the low 24 bits of `value` into three bytes, least significant
/// first.
pub fn pack_i24(value: i32) -> (bytes: [u8; 3])
    ensures
        bytes@ == le_bytes(value as int, 3),
{
    let word: u32 = if value >= 0 {
        value as u32
    } else {
        ((value as i64) + 0x1_0000_0000) as u32
    };
    let low: u8 = (word % 256) as u8;
    let mid: u8 = ((word / 256) % 256) as u8;
    let high: u8 = ((word / 65536) % 256) as u8;
    proof {
        lemma_low_bytes(value as int);
        if value < 0 {
            lemma_low_bytes_wrap(value as int, word as int);
        }
        assert(low == byte_at(value as int, 0));
        assert(mid == byte_at(value as int, 1));
        assert(high == byte_at(value as int, 2));
    }
    let bytes: [u8; 3] = [low, mid, high];
    assert(bytes@ =~= le_bytes(value as int, 3));
    bytes
}

/// Reads three bytes, least significant first, as a signed 24-bit integer.
pub fn unpack_i24(bytes: [u8; 3]) -> (value: i32)
    ensures
        value == i24_value(bytes@),
        -0x80_0000 <= value < 0x80_0000,
{
    let raw: i32 = (bytes[0] as i32) + 256 * (bytes[1] as i32) + 65536 * (bytes[2] as i32);
    if raw >= 0x80_0000 {
        raw - 0x100_0000
    } else {
        raw
    }
}

/// Packing loses nothing: the three bytes of a signed 24-bit integer hold
/// that integer.
pub proof fn lemma_i24_round_trip(value: int)
    requires
        -0x80_0000 <= value < 0x80_0000,
    ensures
        le_bytes(value, 3).len() == 3,
        i24_value(le_bytes(value, 3)) == value,
{
    lemma_low_bytes(value);
}

/// Three bytes are the packed form of the integer that they hold.
pub proof fn lemma_i24_bytes_round_trip(bytes: Seq<u8>)
    requires
        bytes.len() == 3,
    ensures
        -0x80_0000 <= i24_value(bytes) < 0x80_0000,
        le_bytes(i24_value(bytes), 3) == bytes,
{
    let v = i24_value(bytes);
    let raw = bytes[0] + 256 * bytes[1] + 65536 * bytes[2];
    lemma_low_bytes(v);
    assert(v == raw || v == raw - 0x100_0000);
    assert(v % 256 == bytes[0]);
    assert(v / 256 == bytes[1] + 256 * bytes[2] || v / 256 == bytes[1] + 256 * bytes[2] - 0x1_0000);
    assert((v / 256) % 256 == bytes[1]);
    assert(v / 65536 == bytes[2] || v / 65536 == bytes[2] - 0x100);
    assert((v / 65536) % 256 == bytes[2]);
    assert(le_bytes(v, 3) =~= bytes);
}

/// A run of `n` words of `width` bytes has `n * width` bytes, in either byte
/// order: nothing stands between the words.
pub proof fn lemma_words_bytes_len(words: Seq<int>, width: nat, order: Endian)
    ensures
        words_bytes(words, width, order).len() == words.len() * width,
{
}

/// A run of `n` three-byte groups has `3 * n` bytes.
pub proof fn lemma_triples_bytes_len(triples: Seq<[u8; 3]>)
    ensures
        triples_bytes(triples).len() == 3 * triples.len(),
{
}

/// A run of three-byte groups that each hold a word, least significant byte
/// first, is the run of those words at width three in little-endian order.
pub proof fn lemma_triples_are_words(triples: Seq<[u8; 3]>, words: Seq<int>)
    requires
        triples.len() == words.len(),
        forall|i: int| 0 <= i < words.len() ==> (#[trigger] triples[i])@ == le_bytes(words[i], 3),
    ensures
        triples_bytes(triples) == words_bytes(words, 3, Endian::Little),
{
    assert(triples_bytes(triples) =~= words_bytes(words, 3, Endian::Little)) by {
        assert forall|i: int| 0 <= i < triples.len() * 3 implies triples_bytes(triples)[i]
            == words_bytes(words, 3, Endian::Little)[i] by {
            assert(triples[i / 3]@ == le_bytes(words[i / 3], 3));
        }
    }
}

} // verus!
