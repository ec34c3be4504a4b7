//! Fixed-width Base64 encoding over an order-preserving alphabet.
//!
//! | Values | Characters
//! | :----- | :---------
//! | 0      | `-`
//! | 1-10   | `0123456789`
//! | 11-36  | `ABCDEFGHIJKLMNOPQRSTUVWXYZ`
//! | 37     | `_`
//! | 38-63  | `abcdefghijklmnopqrstuvwxyz`
//!
//! Only inputs whose length is a multiple of three are encoded, so no padding
//! character is ever written.

use vstd::prelude::*;
use crate::text::{ascii_chars, ascii_str, is_ascii_bytes};

verus! {

/// URL-safe character set whose codes increase with the value encoded.
pub const ALPHABET: [u8; 64] = [
    // `-`
    45,
    // `0` to `9`
    48, 49, 50, 51, 52, 53, 54, 55, 56, 57,
    // `A` to `Z`
    65, 66, 67, 68, 69, 70, 71, 72, 73, 74, 75, 76, 77,
    78, 79, 80, 81, 82, 83, 84, 85, 86, 87, 88, 89, 90,
    // `_`
    95,
    // `a` to `z`
    97, 98, 99, 100, 101, 102, 103, 104, 105, 106, 107, 108, 109,
    110, 111, 112, 113, 114, 115, 116, 117, 118, 119, 120, 121, 122,
];

/// Length of the encoding of a 39-byte input.
pub const LEN_39: usize = 52;

/// Length of the encoding of a 42-byte input.
pub const LEN_42: usize = 56;

/// The number that the `k`-th group of three bytes spells in base 256.
pub open spec fn group_value(bytes: Seq<u8>, k: int) -> int {
    bytes[3 * k] * 65536 + bytes[3 * k + 1] * 256 + bytes[3 * k + 2]
}

/// Digit `r` of `t` written in base 64 with four digits, most significant
/// first.
pub open spec fn digit(t: int, r: int) -> int {
    if r == 0 {
        t / 262144
    } else if r == 1 {
        (t / 4096) % 64
    } else if r == 2 {
        (t / 64) % 64
    } else {
        t % 64
    }
}

/// The `j`-th base-64 digit of `bytes`: digit `j % 4`, most significant
/// first, of the group of three bytes numbered `j / 4`.
pub open spec fn sextet(bytes: Seq<u8>, j: int) -> int {
    digit(group_value(bytes, j / 4), j % 4)
}

/// Number of characters that encode `n` bytes, for `n` a multiple of three.
pub open spec fn encoded_len(n: int) -> int {
    n / 3 * 4
}

/// The Base64 text of `bytes`, as ASCII codes: one alphabet symbol per
/// base-64 digit, without padding.
pub open spec fn encoded(bytes: Seq<u8>) -> Seq<u8>
    recommends
        bytes.len() % 3 == 0,
{
    Seq::new(encoded_len(bytes.len() as int) as nat, |j: int| ALPHABET[sextet(bytes, j)])
}

/// The Base64 text of `bytes`, as characters.
pub open spec fn encoded_text(bytes: Seq<u8>) -> Seq<char>
    recommends
        bytes.len() % 3 == 0,
{
    ascii_chars(encoded(bytes))
}

/// Every base-64 digit lies in `0..64`.
pub proof fn lemma_sextet_range(bytes: Seq<u8>, j: int)
    requires
        0 <= j < encoded_len(bytes.len() as int),
    ensures
        0 <= sextet(bytes, j) < 64,
{
    let k = j / 4;
    assert(0 <= 3 * k && 3 * k + 2 < bytes.len());
    let t = group_value(bytes, k);
    assert(0 <= t < 16777216);
}

proof fn lemma_group_bit_slices(b0: u8, b1: u8, b2: u8)
    by (bit_vector)
    ensures
        ((b0 as u32) * 65536 + (b1 as u32) * 256 + (b2 as u32)) / 262144 == b0 >> 2,
        (((b0 as u32) * 65536 + (b1 as u32) * 256 + (b2 as u32)) / 4096) % 64 == (b0 & 0x03) << 4
            | b1 >> 4,
        (((b0 as u32) * 65536 + (b1 as u32) * 256 + (b2 as u32)) / 64) % 64 == (b1 & 0x0F) << 2
            | b2 >> 6,
        ((b0 as u32) * 65536 + (b1 as u32) * 256 + (b2 as u32)) % 64 == b2 & 0x3F,
{
}

/// The four digits of a group of three bytes are the four slices of six
/// bits of the 24 bits that the bytes hold: the way in which Base64 is
/// commonly laid down.
pub proof fn lemma_sextet_bit_slices(bytes: Seq<u8>, k: int)
    requires
        0 <= k,
        3 * k + 3 <= bytes.len(),
    ensures
        sextet(bytes, 4 * k) == bytes[3 * k] >> 2,
        sextet(bytes, 4 * k + 1) == (bytes[3 * k] & 0x03) << 4 | bytes[3 * k + 1] >> 4,
        sextet(bytes, 4 * k + 2) == (bytes[3 * k + 1] & 0x0F) << 2 | bytes[3 * k + 2] >> 6,
        sextet(bytes, 4 * k + 3) == bytes[3 * k + 2] & 0x3F,
{
    lemma_group_bit_slices(bytes[3 * k], bytes[3 * k + 1], bytes[3 * k + 2]);
    let t = group_value(bytes, k);
    assert(sextet(bytes, 4 * k) == digit(t, 0));
    assert(sextet(bytes, 4 * k + 1) == digit(t, 1));
    assert(sextet(bytes, 4 * k + 2) == digit(t, 2));
    assert(sextet(bytes, 4 * k + 3) == digit(t, 3));
}

/// The alphabet is strictly increasing by character code.
pub proof fn lemma_alphabet_increasing()
    ensures
        forall|i: int, j: int| 0 <= i < j < 64 ==> ALPHABET[i] < ALPHABET[j],
{
}

/// `c` is the ASCII code of `-`, of `_`, of a digit or of a letter.
pub open spec fn is_symbol(c: u8) -> bool {
    c == 45 || (48 <= c <= 57) || (65 <= c <= 90) || c == 95 || (97 <= c <= 122)
}

/// Every entry of the alphabet is such a symbol.
pub proof fn lemma_alphabet_symbols()
    ensures
        forall|i: int| 0 <= i < 64 ==> is_symbol(#[trigger] ALPHABET[i]),
{
}

/// Base64 text holds nothing but symbols of the alphabet, which are ASCII.
pub proof fn lemma_encoded_symbols(bytes: Seq<u8>)
    requires
        bytes.len() % 3 == 0,
    ensures
        forall|j: int| 0 <= j < encoded(bytes).len() ==> is_symbol(#[trigger] encoded(bytes)[j]),
        is_ascii_bytes(encoded(bytes)),
{
    lemma_alphabet_symbols();
    assert forall|j: int| 0 <= j < encoded(bytes).len() implies is_symbol(
        #[trigger] encoded(bytes)[j],
    ) by {
        lemma_sextet_range(bytes, j);
    }
}

/// Mask that keeps the lowest six bits of a word.
pub const LOW_SIX_BITS: u64 = 0x3F;

/// The big-endian 64-bit word whose upper 48 bits are the six bytes given
/// and whose lower 16 bits are zero.
pub open spec fn word_of_six(b0: u8, b1: u8, b2: u8, b3: u8, b4: u8, b5: u8) -> u64 {
    (b0 as u64) << 56 | (b1 as u64) << 48 | (b2 as u64) << 40 | (b3 as u64) << 32 | (b4 as u64)
        << 24 | (b5 as u64) << 16
}

/// The big-endian 32-bit word whose upper 24 bits are the three bytes given
/// and whose lowest byte is zero.
pub open spec fn word_of_three(b0: u8, b1: u8, b2: u8) -> u32 {
    (b0 as u32) << 24 | (b1 as u32) << 16 | (b2 as u32) << 8
}

fn read_six(b0: u8, b1: u8, b2: u8, b3: u8, b4: u8, b5: u8) -> (w: u64)
    ensures
        w == word_of_six(b0, b1, b2, b3, b4, b5),
{
    (b0 as u64) << 56 | (b1 as u64) << 48 | (b2 as u64) << 40 | (b3 as u64) << 32 | (b4 as u64)
        << 24 | (b5 as u64) << 16
}

fn read_three(b0: u8, b1: u8, b2: u8) -> (w: u32)
    ensures
        w == word_of_three(b0, b1, b2),
{
    (b0 as u32) << 24 | (b1 as u32) << 16 | (b2 as u32) << 8
}

/// The alphabet symbol for the six bits of `word` that start at bit `shift`.
fn symbol_at(word: u64, shift: u64) -> (c: u8)
    requires
        shift < 64,
    ensures
        c == ALPHABET[((word >> shift) & 0x3F) as int],
{
    let v: u64 = (word >> shift) & LOW_SIX_BITS;
    assert(v < 64) by (bit_vector)
        requires
            v == (word >> shift) & 0x3F,
    ;
    ALPHABET[v as usize]
}

/// The shifts 58, 52, ..., 16 of a six-byte word read off the base-64 digits
/// of its two groups of three bytes, most significant first.
proof fn lemma_word_of_six_digits(b0: u8, b1: u8, b2: u8, b3: u8, b4: u8, b5: u8, w: u64)
    by (bit_vector)
    requires
        w == (b0 as u64) << 56 | (b1 as u64) << 48 | (b2 as u64) << 40 | (b3 as u64) << 32 | (
        b4 as u64) << 24 | (b5 as u64) << 16,
    ensures
        (w >> 58) & 0x3F == ((b0 as u64) * 65536 + (b1 as u64) * 256 + (b2 as u64)) / 262144,
        (w >> 52) & 0x3F == (((b0 as u64) * 65536 + (b1 as u64) * 256 + (b2 as u64)) / 4096) % 64,
        (w >> 46) & 0x3F == (((b0 as u64) * 65536 + (b1 as u64) * 256 + (b2 as u64)) / 64) % 64,
        (w >> 40) & 0x3F == ((b0 as u64) * 65536 + (b1 as u64) * 256 + (b2 as u64)) % 64,
        (w >> 34) & 0x3F == ((b3 as u64) * 65536 + (b4 as u64) * 256 + (b5 as u64)) / 262144,
        (w >> 28) & 0x3F == (((b3 as u64) * 65536 + (b4 as u64) * 256 + (b5 as u64)) / 4096) % 64,
        (w >> 22) & 0x3F == (((b3 as u64) * 65536 + (b4 as u64) * 256 + (b5 as u64)) / 64) % 64,
        (w >> 16) & 0x3F == ((b3 as u64) * 65536 + (b4 as u64) * 256 + (b5 as u64)) % 64,
{
}

/// The alphabet symbol for the six bits of a 32-bit `word` that start at bit
/// `shift`.
fn symbol_at_32(word: u32, shift: u32) -> (c: u8)
    requires
        shift < 32,
    ensures
        c == ALPHABET[((word >> shift) & 0x3F) as int],
{
    let v: u32 = (word >> shift) & 0x3F;
    assert(v < 64) by (bit_vector)
        requires
            v == (word >> shift) & 0x3F,
    ;
    ALPHABET[v as usize]
}

/// The shifts 26, 20, 14, 8 of a three-byte word read off the base-64 digits
/// of its group, most significant first.
proof fn lemma_word_of_three_digits(b0: u8, b1: u8, b2: u8, w: u32)
    by (bit_vector)
    requires
        w == (b0 as u32) << 24 | (b1 as u32) << 16 | (b2 as u32) << 8,
    ensures
        (w >> 26) & 0x3F == ((b0 as u32) * 65536 + (b1 as u32) * 256 + (b2 as u32)) / 262144,
        (w >> 20) & 0x3F == (((b0 as u32) * 65536 + (b1 as u32) * 256 + (b2 as u32)) / 4096) % 64,
        (w >> 14) & 0x3F == (((b0 as u32) * 65536 + (b1 as u32) * 256 + (b2 as u32)) / 64) % 64,
        (w >> 8) & 0x3F == ((b0 as u32) * 65536 + (b1 as u32) * 256 + (b2 as u32)) % 64,
{
}

/// The eight digits of the `g`-th group of six bytes, read off the word
/// that holds the group.
proof fn lemma_six_sextets(bytes: Seq<u8>, g: int, w: u64)
    requires
        0 <= g,
        6 * g + 6 <= bytes.len(),
        w == word_of_six(
            bytes[6 * g],
            bytes[6 * g + 1],
            bytes[6 * g + 2],
            bytes[6 * g + 3],
            bytes[6 * g + 4],
            bytes[6 * g + 5],
        ),
    ensures
        sextet(bytes, 8 * g) == (w >> 58) & 0x3F,
        sextet(bytes, 8 * g + 1) == (w >> 52) & 0x3F,
        sextet(bytes, 8 * g + 2) == (w >> 46) & 0x3F,
        sextet(bytes, 8 * g + 3) == (w >> 40) & 0x3F,
        sextet(bytes, 8 * g + 4) == (w >> 34) & 0x3F,
        sextet(bytes, 8 * g + 5) == (w >> 28) & 0x3F,
        sextet(bytes, 8 * g + 6) == (w >> 22) & 0x3F,
        sextet(bytes, 8 * g + 7) == (w >> 16) & 0x3F,
{
    lemma_word_of_six_digits(
        bytes[6 * g],
        bytes[6 * g + 1],
        bytes[6 * g + 2],
        bytes[6 * g + 3],
        bytes[6 * g + 4],
        bytes[6 * g + 5],
        w,
    );
    let lo = group_value(bytes, 2 * g);
    let hi = group_value(bytes, 2 * g + 1);
    assert(lo == bytes[6 * g] * 65536 + bytes[6 * g + 1] * 256 + bytes[6 * g + 2]);
    assert(hi == bytes[6 * g + 3] * 65536 + bytes[6 * g + 4] * 256 + bytes[6 * g + 5]);
    assert(sextet(bytes, 8 * g) == digit(lo, 0));
    assert(sextet(bytes, 8 * g + 1) == digit(lo, 1));
    assert(sextet(bytes, 8 * g + 2) == digit(lo, 2));
    assert(sextet(bytes, 8 * g + 3) == digit(lo, 3));
    assert(sextet(bytes, 8 * g + 4) == digit(hi, 0));
    assert(sextet(bytes, 8 * g + 5) == digit(hi, 1));
    assert(sextet(bytes, 8 * g + 6) == digit(hi, 2));
    assert(sextet(bytes, 8 * g + 7) == digit(hi, 3));
}

/// The four digits of a last group of three bytes that follows `g` groups
/// of six, read off the word that holds the group.
proof fn lemma_three_sextets(bytes: Seq<u8>, g: int, w: u32)
    requires
        0 <= g,
        6 * g + 3 <= bytes.len(),
        w == word_of_three(bytes[6 * g], bytes[6 * g + 1], bytes[6 * g + 2]),
    ensures
        sextet(bytes, 8 * g) == (w >> 26) & 0x3F,
        sextet(bytes, 8 * g + 1) == (w >> 20) & 0x3F,
        sextet(bytes, 8 * g + 2) == (w >> 14) & 0x3F,
        sextet(bytes, 8 * g + 3) == (w >> 8) & 0x3F,
{
    lemma_word_of_three_digits(bytes[6 * g], bytes[6 * g + 1], bytes[6 * g + 2], w);
    let lo = group_value(bytes, 2 * g);
    assert(lo == bytes[6 * g] * 65536 + bytes[6 * g + 1] * 256 + bytes[6 * g + 2]);
    assert(sextet(bytes, 8 * g) == digit(lo, 0));
    assert(sextet(bytes, 8 * g + 1) == digit(lo, 1));
    assert(sextet(bytes, 8 * g + 2) == digit(lo, 2));
    assert(sextet(bytes, 8 * g + 3) == digit(lo, 3));
}

/// Writes the eight symbols of the six-byte word `w` at `buf[o..o + 8]`.
fn put_six<const M: usize>(buf: &mut [u8; M], o: usize, w: u64)
    requires
        o + 8 <= M,
    ensures
        forall|j: int| 0 <= j < o ==> final(buf)@[j] == old(buf)@[j],
        final(buf)@[o as int] == ALPHABET[((w >> 58) & 0x3F) as int],
        final(buf)@[o + 1] == ALPHABET[((w >> 52) & 0x3F) as int],
        final(buf)@[o + 2] == ALPHABET[((w >> 46) & 0x3F) as int],
        final(buf)@[o + 3] == ALPHABET[((w >> 40) & 0x3F) as int],
        final(buf)@[o + 4] == ALPHABET[((w >> 34) & 0x3F) as int],
        final(buf)@[o + 5] == ALPHABET[((w >> 28) & 0x3F) as int],
        final(buf)@[o + 6] == ALPHABET[((w >> 22) & 0x3F) as int],
        final(buf)@[o + 7] == ALPHABET[((w >> 16) & 0x3F) as int],
{
    buf[o] = symbol_at(w, 58);
    buf[o + 1] = symbol_at(w, 52);
    buf[o + 2] = symbol_at(w, 46);
    buf[o + 3] = symbol_at(w, 40);
    buf[o + 4] = symbol_at(w, 34);
    buf[o + 5] = symbol_at(w, 28);
    buf[o + 6] = symbol_at(w, 22);
    buf[o + 7] = symbol_at(w, 16);
}

/// Writes the four symbols of the three-byte word `w` at `buf[o..o + 4]`.
fn put_three<const M: usize>(buf: &mut [u8; M], o: usize, w: u32)
    requires
        o + 4 <= M,
    ensures
        forall|j: int| 0 <= j < o ==> final(buf)@[j] == old(buf)@[j],
        final(buf)@[o as int] == ALPHABET[((w >> 26) & 0x3F) as int],
        final(buf)@[o + 1] == ALPHABET[((w >> 20) & 0x3F) as int],
        final(buf)@[o + 2] == ALPHABET[((w >> 14) & 0x3F) as int],
        final(buf)@[o + 3] == ALPHABET[((w >> 8) & 0x3F) as int],
{
    buf[o] = symbol_at_32(w, 26);
    buf[o + 1] = symbol_at_32(w, 20);
    buf[o + 2] = symbol_at_32(w, 14);
    buf[o + 3] = symbol_at_32(w, 8);
}

/// Writes the Base64 text of `bytes` into `buf`.
///
/// The input is taken six bytes at a time, each group read as one big-endian
/// word and written as eight symbols; three bytes left over at the end are
/// read as a shorter word and written as four.
pub fn encode_groups<const N: usize, const M: usize>(bytes: &[u8; N], buf: &mut [u8; M])
    requires
        N % 3 == 0,
        M == N / 3 * 4,
    ensures
        final(buf)@ == encoded(bytes@),
{
    let mut i: usize = 0;
    let mut o: usize = 0;
    while N - i >= 6
        invariant
            i <= N,
            i % 6 == 0,
            o == i / 6 * 8,
            N % 3 == 0,
            M == N / 3 * 4,
            forall|j: int| 0 <= j < o ==> buf@[j] == #[trigger] encoded(bytes@)[j],
        decreases N - i,
    {
        let w: u64 = read_six(
            bytes[i],
            bytes[i + 1],
            bytes[i + 2],
            bytes[i + 3],
            bytes[i + 4],
            bytes[i + 5],
        );
        let ghost before = buf@;
        put_six(buf, o, w);
        proof {
            lemma_six_sextets(bytes@, i as int / 6, w);
            assert forall|j: int| 0 <= j < o + 8 implies buf@[j] == #[trigger] encoded(
                bytes@,
            )[j] by {
                if j < o {
                    assert(buf@[j] == before[j]);
                }
            }
        }
        i += 6;
        o += 8;
    }
    if N - i == 3 {
        let w: u32 = read_three(bytes[i], bytes[i + 1], bytes[i + 2]);
        let ghost before = buf@;
        put_three(buf, o, w);
        proof {
            lemma_three_sextets(bytes@, i as int / 6, w);
            assert forall|j: int| 0 <= j < o + 4 implies buf@[j] == #[trigger] encoded(
                bytes@,
            )[j] by {
                if j < o {
                    assert(buf@[j] == before[j]);
                }
            }
        }
    }
    assert(buf@ =~= encoded(bytes@));
}

/// Encodes the 39 `bytes` into `buf` as Base64, returning the encoded text.
pub fn encode_base8_39<'a>(bytes: &[u8; 39], buf: &'a mut [u8; LEN_39]) -> (text: &'a str)
    ensures
        final(buf)@ == encoded(bytes@),
        text@ == encoded_text(bytes@),
{
    encode_groups(bytes, buf);
    proof {
        lemma_encoded_symbols(bytes@);
    }
    ascii_str(buf.as_slice())
}

/// Encodes the 42 `bytes` into `buf` as Base64, returning the encoded text.
pub fn encode_42<'a>(bytes: &[u8; 42], buf: &'a mut [u8; LEN_42]) -> (text: &'a str)
    ensures
        final(buf)@ == encoded(bytes@),
        text@ == encoded_text(bytes@),
{
    encode_groups(bytes, buf);
    proof {
        lemma_encoded_symbols(bytes@);
    }
    ascii_str(buf.as_slice())
}

} // verus!
