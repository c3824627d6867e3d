//! Words as the bytes that a GPU buffer takes.

use vstd::arithmetic::div_mod::lemma_fundamental_div_mod_converse;
use vstd::endian::{endianness, Endian};
use vstd::prelude::*;

verus! {

/// Byte `i` of `x`, counted from the least significant.
pub open spec fn byte_of(x: int, i: nat) -> u8
    decreases i,
{
    if i == 0 {
        (x % 256) as u8
    } else {
        byte_of(x / 256, (i - 1) as nat)
    }
}

/// The bytes of `words`, `size` bytes for each word, from the least significant byte of a word
/// up if `little`, else from the most significant down.
pub open spec fn laid_out(words: Seq<int>, size: nat, little: bool) -> Seq<u8> {
    Seq::new(
        words.len() * size,
        |j: int|
            {
                let i = j % (size as int);
                byte_of(words[j / (size as int)], (if little { i } else { size - 1 - i }) as nat)
            },
    )
}

/// Whether `bytes` are `words` in memory, in the byte order of the machine.
pub open spec fn in_memory(bytes: Seq<u8>, words: Seq<int>, size: nat) -> bool {
    bytes == laid_out(words, size, endianness() == Endian::Little)
}

/// A byte is the digit of its place in base 256.
proof fn lemma_byte_of(x: int)
    requires
        0 <= x,
    ensures
        byte_of(x, 0) == x % 256,
        byte_of(x, 1) == x / 256 % 256,
        byte_of(x, 2) == x / 256 / 256 % 256,
        byte_of(x, 3) == x / 256 / 256 / 256 % 256,
        byte_of(x, 4) == byte_of(x / 256 / 256 / 256 / 256, 0),
        byte_of(x, 5) == byte_of(x / 256 / 256 / 256 / 256, 1),
        byte_of(x, 6) == byte_of(x / 256 / 256 / 256 / 256, 2),
        byte_of(x, 7) == byte_of(x / 256 / 256 / 256 / 256, 3),
{
    reveal_with_fuel(byte_of, 8);
}

/// The four bytes of a 32-bit number are its digits in base 256.
pub proof fn four_bytes_make_the_number(x: int)
    requires
        0 <= x < 0x1_0000_0000,
    ensures
        x == byte_of(x, 0) + 0x100 * byte_of(x, 1) + 0x1_0000 * byte_of(x, 2) + 0x100_0000
            * byte_of(x, 3),
{
    lemma_byte_of(x);
}

/// A number below 256 is its own lowest byte, and the other seven bytes of 64 bits are zero.
pub proof fn small_numbers_are_one_byte(x: int, i: nat)
    requires
        0 <= x < 256,
        i < 8,
    ensures
        byte_of(x, i) == if i == 0 { x } else { 0 },
{
    lemma_byte_of(x);
    lemma_byte_of(0);
}

/// Byte `b` of word `i` is `b` bytes behind the start of the word where the least significant
/// byte comes first, else `b` bytes before its end; the words follow each other without gaps.
pub proof fn words_follow_each_other(words: Seq<int>, size: nat, little: bool, i: int, b: int)
    requires
        0 <= i < words.len(),
        0 <= b < size,
    ensures
        laid_out(words, size, little).len() == size * words.len(),
        0 <= size * i,
        size * i + size <= size * words.len(),
        little ==> laid_out(words, size, little)[size * i + b] == byte_of(words[i], b as nat),
        !little ==> laid_out(words, size, little)[size * i + size - 1 - b] == byte_of(
            words[i],
            b as nat,
        ),
{
    let n = words.len() as int;
    let s = size as int;
    assert(n * s == s * n && s * i == i * s) by (nonlinear_arith);
    assert(0 <= i * s && i * s + s <= n * s) by (nonlinear_arith)
        requires
            0 <= i < n,
            0 < s,
    ;
    lemma_fundamental_div_mod_converse(i * s + b, s, i, b);
    lemma_fundamental_div_mod_converse(i * s + (s - 1 - b), s, i, s - 1 - b);
}

/// The numbers in `words`.
pub open spec fn u32_words(words: [u32; 3]) -> Seq<int> {
    Seq::new(3, |j: int| words[j] as int)
}

/// The numbers in `rows`, row after row.
pub open spec fn u64_words(rows: Seq<[u64; 4]>) -> Seq<int> {
    Seq::new(4 * rows.len(), |j: int| rows[j / 4][j % 4] as int)
}

/// `bytemuck::bytes_of`: the memory of three 32-bit words. The order of the bytes in a word is
/// the machine's, which `vstd::endian::endianness` names.
#[verifier::external_body]
pub(crate) fn bytes_of(words: &[u32; 3]) -> (bytes: &[u8])
    ensures
        bytes@ == laid_out(u32_words(*words), 4, endianness() == Endian::Little),
{
    bytemuck::bytes_of(words)
}

/// `bytemuck::cast_slice`: the memory of rows of four 64-bit words. The order of the bytes in
/// a word is the machine's, which `vstd::endian::endianness` names.
#[verifier::external_body]
pub(crate) fn cast_slice(rows: &[[u64; 4]]) -> (bytes: &[u8])
    ensures
        bytes@ == laid_out(u64_words(rows@), 8, endianness() == Endian::Little),
{
    bytemuck::cast_slice(rows)
}

/// The number whose bytes, from the most significant down, are `bytes`.
pub open spec fn big_endian(bytes: Seq<u8>) -> int
    decreases bytes.len(),
{
    if bytes.len() == 0 {
        0
    } else {
        256 * big_endian(bytes.drop_last()) + bytes.last()
    }
}

/// One more byte shifts the number up by a byte; no bytes make zero.
pub proof fn big_endian_takes_bytes_one_by_one(bytes: Seq<u8>, next: u8)
    ensures
        big_endian(Seq::empty()) == 0,
        big_endian(bytes.push(next)) == 256 * big_endian(bytes) + next,
{
    assert(bytes.push(next).drop_last() =~= bytes);
}

/// A number is zero if and only if each of its bytes is.
pub proof fn big_endian_is_zero(bytes: Seq<u8>)
    ensures
        big_endian(bytes) >= 0,
        big_endian(bytes) == 0 <==> forall|i: int| 0 <= i < bytes.len() ==> bytes[i] == 0,
    decreases bytes.len(),
{
    if bytes.len() > 0 {
        let rest = bytes.drop_last();
        big_endian_is_zero(rest);
        if big_endian(bytes) == 0 {
            assert forall|i: int| 0 <= i < bytes.len() implies bytes[i] == 0 by {
                if i < rest.len() {
                    assert(rest[i] == bytes[i]);
                }
            }
        }
        if forall|i: int| 0 <= i < bytes.len() ==> bytes[i] == 0 {
            assert forall|i: int| 0 <= i < rest.len() implies rest[i] == 0 by {
                assert(rest[i] == bytes[i]);
            }
        }
    }
}

/// The 32-bit number whose bytes, from the most significant down, are `bytes`.
pub fn u32_from_be_bytes(bytes: &[u8]) -> (x: u32)
    requires
        bytes@.len() == 4,
    ensures
        x == big_endian(bytes@),
        x == 0x100_0000 * bytes@[0] + 0x1_0000 * bytes@[1] + 0x100 * bytes@[2] + bytes@[3],
{
    proof {
        reveal_with_fuel(big_endian, 5);
        assert(bytes@.drop_last().drop_last().drop_last().drop_last() =~= Seq::<u8>::empty());
    }
    ((bytes[0] as u32 * 256 + bytes[1] as u32) * 256 + bytes[2] as u32) * 256 + bytes[3] as u32
}

} // verus!
