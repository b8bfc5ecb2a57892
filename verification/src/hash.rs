//! The hash engine: 40-bit hashes of strings.
//!
//! The hash of a string is made of its UTF-8 bytes: it is their CRC-32, in
//! which ASCII capitals count as small letters, with the low eight bits of
//! the number of bytes placed above the 32 bits of the checksum.

use vstd::prelude::*;
use vstd::string::*;
use vstd::utf8::encode_utf8;

verus! {

/// Exclusive upper bound of every identifier value: two to the fortieth.
pub const HASH_LIMIT: u64 = 0x100_0000_0000;

/// Mask that keeps the low 40 bits of a word.
pub const HASH_MASK: u64 = 0xff_ffff_ffff;

/// The polynomial of CRC-32, with its bits in reverse order.
pub const CRC_POLYNOMIAL: u32 = 0xedb8_8320;

/// The checksum before the first byte.
pub const CRC_START: u32 = 0xffff_ffff;

/// A byte with an ASCII capital replaced by its small letter.
pub open spec fn lower(byte: u8) -> u8 {
    if 65 <= byte <= 90 {
        (byte + 32) as u8
    } else {
        byte
    }
}

/// One step of the checksum: a division by two, after which the polynomial
/// is added where a bit was shifted out.
pub open spec fn crc_shift(word: u32) -> u32 {
    if word & 1 == 1 {
        (word >> 1) ^ CRC_POLYNOMIAL
    } else {
        word >> 1
    }
}

/// The checksum after one more byte: the byte is added to the low bits, and
/// eight steps follow.
pub open spec fn crc_byte(crc: u32, byte: u8) -> u32 {
    crc_shift(
        crc_shift(
            crc_shift(
                crc_shift(crc_shift(crc_shift(crc_shift(crc_shift(crc ^ (byte as u32)))))),
            ),
        ),
    )
}

/// The checksum after a sequence of bytes, each taken in lower case.
pub open spec fn crc_bytes(crc: u32, bytes: Seq<u8>) -> u32
    decreases bytes.len(),
{
    if bytes.len() == 0 {
        crc
    } else {
        crc_byte(crc_bytes(crc, bytes.drop_last()), lower(bytes.last()))
    }
}

/// The 40-bit hash of a sequence of bytes.
pub open spec fn hash40_bytes(bytes: Seq<u8>) -> u64 {
    (!crc_bytes(CRC_START, bytes)) as u64 | (((bytes.len() % 256) as u64) << 32)
}

/// The 40-bit hash of a string: that of its UTF-8 bytes.
pub open spec fn hash40(text: Seq<char>) -> u64 {
    hash40_bytes(encode_utf8(text))
}

/// Every hash lies below `HASH_LIMIT`.
pub proof fn lemma_hash40_bytes_bound(bytes: Seq<u8>)
    ensures
        hash40_bytes(bytes) < HASH_LIMIT,
{
    let sum: u32 = !crc_bytes(CRC_START, bytes);
    let count: u64 = (bytes.len() % 256) as u64;
    assert(count < 256 ==> (sum as u64) | (count << 32) < 0x100_0000_0000) by (bit_vector);
}

/// Every hash lies below `HASH_LIMIT`.
pub proof fn lemma_hash40_bound(text: Seq<char>)
    ensures
        hash40(text) < HASH_LIMIT,
{
    lemma_hash40_bytes_bound(encode_utf8(text));
}

/// One step of the checksum.
fn shift(word: u32) -> (next: u32)
    ensures
        next == crc_shift(word),
{
    if word & 1 == 1 {
        (word >> 1) ^ CRC_POLYNOMIAL
    } else {
        word >> 1
    }
}

/// Computes the 40-bit hash of a sequence of bytes.
pub fn hash_bytes(data: &[u8]) -> (h: u64)
    ensures
        h == hash40_bytes(data@),
        h < HASH_LIMIT,
{
    let mut crc: u32 = CRC_START;
    let mut i: usize = 0;
    assert(data@.take(0) =~= Seq::<u8>::empty());
    while i < data.len()
        invariant
            i <= data.len(),
            crc == crc_bytes(CRC_START, data@.take(i as int)),
        decreases data.len() - i,
    {
        let byte: u8 = data[i];
        let low: u8 = if 65 <= byte && byte <= 90 {
            byte + 32
        } else {
            byte
        };
        proof {
            let more = data@.take(i + 1);
            assert(more.drop_last() =~= data@.take(i as int));
            assert(more.last() == byte);
        }
        crc = shift(shift(shift(shift(shift(shift(shift(shift(crc ^ (low as u32)))))))));
        i = i + 1;
    }
    proof {
        assert(data@.take(data.len() as int) =~= data@);
        lemma_hash40_bytes_bound(data@);
    }
    (!crc) as u64 | (((data.len() % 256) as u64) << 32)
}

/// Computes the 40-bit hash of `text`. Total and deterministic: the result
/// depends on the characters of `text` alone.
pub fn hash(text: &str) -> (h: u64)
    ensures
        h == hash40(text@),
        h < HASH_LIMIT,
{
    hash_bytes(text.as_bytes())
}

} // verus!
