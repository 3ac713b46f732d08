//! Content hashes: what is hashed, and how a hash is spelled.
use sha2::Digest;
use vstd::prelude::*;
use vstd::slice::slice_to_vec;
use vstd::string::*;
use vstd::utf8::{encode_utf8, encode_utf8_decode_utf8};

use crate::text::concat_assoc;

verus! {

// ── the hashed message ─────────────────────────────────────

/// What every hashed message starts with.
pub const TAG: &'static str = "nichy.v1\0";

/// The lowest 32 bits of a number, least significant byte first.
pub open spec fn le_bytes(n: nat) -> Seq<u8> {
    seq![
        (n % 256) as u8,
        (n / 256 % 256) as u8,
        (n / 65536 % 256) as u8,
        (n / 16777216 % 256) as u8,
    ]
}

/// A text behind its length in bytes.
pub open spec fn framed(s: Seq<char>) -> Seq<u8> {
    le_bytes(encode_utf8(s).len()) + encode_utf8(s)
}

/// The message whose digest identifies an input.
pub open spec fn message(is_type_expr: bool, content: Seq<char>, target: Seq<char>) -> Seq<u8> {
    encode_utf8(TAG@) + seq![
        if is_type_expr {
            1u8
        } else {
            0u8
        },
    ] + framed(target) + framed(content)
}

fn push_framed(out: &mut Vec<u8>, s: &str)
    ensures
        final(out)@ == old(out)@ + framed(s@),
{
    let bytes = s.as_bytes();
    let n = bytes.len();
    out.push((n % 256) as u8);
    out.push((n / 256 % 256) as u8);
    out.push((n / 65536 % 256) as u8);
    out.push((n / 16777216 % 256) as u8);
    assert(out@ =~= old(out)@ + le_bytes(encode_utf8(s@).len()));
    let mut copy = slice_to_vec(bytes);
    out.append(&mut copy);
    proof {
        concat_assoc(old(out)@, le_bytes(encode_utf8(s@).len()), encode_utf8(s@));
    }
}

fn build_message(is_type_expr: bool, content: &str, target: &str) -> (r: Vec<u8>)
    ensures
        r@ == message(is_type_expr, content@, target@),
{
    let mut out = slice_to_vec(TAG.as_bytes());
    let kind: u8 = if is_type_expr {
        1
    } else {
        0
    };
    out.push(kind);
    assert(out@ =~= encode_utf8(TAG@) + seq![kind]);
    push_framed(&mut out, target);
    push_framed(&mut out, content);
    out
}

// ── the digest ─────────────────────────────────────────────

/// The SHA-256 digest of a message.
pub uninterp spec fn sha256(message: Seq<u8>) -> Seq<u8>;

/// Calls `sha2::Sha256::digest`.  The digest depends on the message alone, and is 32 bytes
/// long.
#[verifier::external_body]
fn digest(message: &[u8]) -> (r: Vec<u8>)
    ensures
        r@ == sha256(message@),
        r@.len() == 32,
{
    sha2::Sha256::digest(message).to_vec()
}

// ── spelling ───────────────────────────────────────────────

/// The letters of a hash, by the value of the five bits they stand for.
pub const ALPHABET: &'static str = "abcdefghijklmnopqrstuvwxyz234567";

/// The letter that stands for a value.
pub open spec fn letter(value: int) -> char {
    ALPHABET@[value]
}

/// Bit `i` of the bytes, counted from the most significant bit of the first byte.  Behind
/// the last byte there are zeros.
pub open spec fn bit(bytes: Seq<u8>, i: int) -> int {
    if 0 <= i / 8 < bytes.len() {
        let b = bytes[i / 8];
        let at = i % 8;
        if at == 0 {
            b as int / 128
        } else if at == 1 {
            b as int / 64 % 2
        } else if at == 2 {
            b as int / 32 % 2
        } else if at == 3 {
            b as int / 16 % 2
        } else if at == 4 {
            b as int / 8 % 2
        } else if at == 5 {
            b as int / 4 % 2
        } else if at == 6 {
            b as int / 2 % 2
        } else {
            b as int % 2
        }
    } else {
        0
    }
}

/// The value of the five bits of group `i`.
pub open spec fn group(bytes: Seq<u8>, i: int) -> int {
    16 * bit(bytes, 5 * i) + 8 * bit(bytes, 5 * i + 1) + 4 * bit(bytes, 5 * i + 2) + 2 * bit(
        bytes,
        5 * i + 3,
    ) + bit(bytes, 5 * i + 4)
}

/// The bytes in letters, five bits to the letter.
pub open spec fn letters(bytes: Seq<u8>) -> Seq<char> {
    Seq::new(((bytes.len() * 8 + 4) / 5) as nat, |i: int| letter(group(bytes, i)))
}

proof fn lemma_bit(bytes: Seq<u8>, i: int)
    ensures
        bit(bytes, i) == 0 || bit(bytes, i) == 1,
{
}

fn bit_at(bytes: &[u8], i: usize) -> (r: u8)
    ensures
        r == bit(bytes@, i as int),
{
    let at = i / 8;
    if at >= bytes.len() {
        return 0;
    }
    let b = bytes[at];
    match i % 8 {
        0 => b / 128,
        1 => b / 64 % 2,
        2 => b / 32 % 2,
        3 => b / 16 % 2,
        4 => b / 8 % 2,
        5 => b / 4 % 2,
        6 => b / 2 % 2,
        _ => b % 2,
    }
}

/// Spells bytes in letters.
pub fn base32(bytes: &[u8]) -> (r: String)
    requires
        bytes@.len() * 8 + 8 <= usize::MAX,
    ensures
        r@ == letters(bytes@),
{
    proof {
        reveal_strlit("abcdefghijklmnopqrstuvwxyz234567");
    }
    let n: usize = (bytes.len() * 8 + 4) / 5;
    let mut out = String::new();
    for i in 0..n
        invariant
            n == (bytes@.len() * 8 + 4) / 5,
            bytes@.len() * 8 + 8 <= usize::MAX,
            ALPHABET@.len() == 32,
            out@ == letters(bytes@).take(i as int),
    {
        proof {
            lemma_bit(bytes@, 5 * i);
            lemma_bit(bytes@, 5 * i + 1);
            lemma_bit(bytes@, 5 * i + 2);
            lemma_bit(bytes@, 5 * i + 3);
            lemma_bit(bytes@, 5 * i + 4);
        }
        let value: u8 = 16 * bit_at(bytes, 5 * i) + 8 * bit_at(bytes, 5 * i + 1) + 4 * bit_at(
            bytes,
            5 * i + 2,
        ) + 2 * bit_at(bytes, 5 * i + 3) + bit_at(bytes, 5 * i + 4);
        out.push(ALPHABET.get_char(value as usize));
        assert(out@ =~= letters(bytes@).take(i + 1));
    }
    assert(letters(bytes@).take(n as int) =~= letters(bytes@));
    out
}

/// The hash of an input: the digest of its message, in letters.
pub open spec fn hash_of(is_type_expr: bool, content: Seq<char>, target: Seq<char>) -> Seq<char> {
    letters(sha256(message(is_type_expr, content, target)))
}

/// Hashes an input.
pub fn content_hash(is_type_expr: bool, content: &str, target: &str) -> (r: String)
    ensures
        r@ == hash_of(is_type_expr, content@, target@),
        r@.len() == 52,
        forall|i: int| 0 <= i < r@.len() ==> ALPHABET@.contains(#[trigger] r@[i]),
{
    let message = build_message(is_type_expr, content, target);
    let bytes = digest(&message);
    proof {
        law_letters_are_of_the_alphabet(bytes@);
    }
    base32(&bytes)
}

// ── laws ───────────────────────────────────────────────────

/// A spelling is made of letters of the alphabet, as many as it takes to hold all bits.
pub proof fn law_letters_are_of_the_alphabet(bytes: Seq<u8>)
    ensures
        letters(bytes).len() == (bytes.len() * 8 + 4) / 5,
        forall|i: int| 0 <= i < letters(bytes).len() ==> ALPHABET@.contains(#[trigger] letters(bytes)[i]),
{
    reveal_strlit("abcdefghijklmnopqrstuvwxyz234567");
    assert forall|i: int| 0 <= i < letters(bytes).len() implies ALPHABET@.contains(
        #[trigger] letters(bytes)[i],
    ) by {
        let g = group(bytes, i);
        lemma_bit(bytes, 5 * i);
        lemma_bit(bytes, 5 * i + 1);
        lemma_bit(bytes, 5 * i + 2);
        lemma_bit(bytes, 5 * i + 3);
        lemma_bit(bytes, 5 * i + 4);
        assert(0 <= g < 32);
        assert(letters(bytes)[i] == ALPHABET@[g]);
    }
}

/// Two letters of the alphabet are equal only where they stand for the same value.
proof fn lemma_letter_injective(a: int, b: int)
    requires
        0 <= a < 32,
        0 <= b < 32,
        letter(a) == letter(b),
    ensures
        a == b,
{
    reveal_strlit("abcdefghijklmnopqrstuvwxyz234567");
}

proof fn lemma_same_bit(a: Seq<u8>, b: Seq<u8>, i: int)
    requires
        a.len() == b.len(),
        letters(a) == letters(b),
        0 <= i < a.len() * 8,
    ensures
        bit(a, i) == bit(b, i),
{
    let g = i / 5;
    assert(0 <= g < (a.len() * 8 + 4) / 5);
    assert(letters(a)[g] == letter(group(a, g)));
    assert(letters(b)[g] == letter(group(b, g)));
    lemma_bit(a, 5 * g);
    lemma_bit(a, 5 * g + 1);
    lemma_bit(a, 5 * g + 2);
    lemma_bit(a, 5 * g + 3);
    lemma_bit(a, 5 * g + 4);
    lemma_bit(b, 5 * g);
    lemma_bit(b, 5 * g + 1);
    lemma_bit(b, 5 * g + 2);
    lemma_bit(b, 5 * g + 3);
    lemma_bit(b, 5 * g + 4);
    lemma_letter_injective(group(a, g), group(b, g));
}

/// Spellings are equal only where the bytes are.
pub proof fn law_letters_tell_bytes_apart(a: Seq<u8>, b: Seq<u8>)
    requires
        letters(a) == letters(b),
    ensures
        a == b,
{
    let x = a.len() as int;
    let y = b.len() as int;
    assert(letters(a).len() == (x * 8 + 4) / 5);
    assert(letters(b).len() == (y * 8 + 4) / 5);
    assert(x == y);
    assert forall|k: int| 0 <= k < a.len() implies a[k] == b[k] by {
        lemma_same_bit(a, b, 8 * k);
        lemma_same_bit(a, b, 8 * k + 1);
        lemma_same_bit(a, b, 8 * k + 2);
        lemma_same_bit(a, b, 8 * k + 3);
        lemma_same_bit(a, b, 8 * k + 4);
        lemma_same_bit(a, b, 8 * k + 5);
        lemma_same_bit(a, b, 8 * k + 6);
        lemma_same_bit(a, b, 8 * k + 7);
        lemma_byte(a[k]);
        lemma_byte(b[k]);
    }
    assert(a =~= b);
}

proof fn lemma_byte(b: u8)
    ensures
        b as int == 128 * (b as int / 128) + 64 * (b as int / 64 % 2) + 32 * (b as int / 32 % 2)
            + 16 * (b as int / 16 % 2) + 8 * (b as int / 8 % 2) + 4 * (b as int / 4 % 2) + 2 * (
        b as int / 2 % 2) + b as int % 2,
{
    assert(b == 128 * (b / 128) + 64 * (b / 64 % 2) + 32 * (b / 32 % 2) + 16 * (b / 16 % 2) + 8 * (b
        / 8 % 2) + 4 * (b / 4 % 2) + 2 * (b / 2 % 2) + b % 2) by (bit_vector);
}

/// Inputs have one message only where kind, content and target are the same: no text moves
/// from one field to the other.  Targets whose lengths differ by a multiple of four gigabytes
/// are left out, since the length before a text is counted in 32 bits.
pub proof fn law_messages_tell_inputs_apart(
    type1: bool,
    content1: Seq<char>,
    target1: Seq<char>,
    type2: bool,
    content2: Seq<char>,
    target2: Seq<char>,
)
    requires
        message(type1, content1, target1) == message(type2, content2, target2),
        encode_utf8(target1).len() == encode_utf8(target2).len() || encode_utf8(target1).len()
            % 4294967296 != encode_utf8(target2).len() % 4294967296,
    ensures
        type1 == type2,
        content1 == content2,
        target1 == target2,
{
    let m1 = message(type1, content1, target1);
    let m2 = message(type2, content2, target2);
    lemma_message_parts(type1, content1, target1);
    lemma_message_parts(type2, content2, target2);
    lemma_le_bytes(encode_utf8(target1).len());
    lemma_le_bytes(encode_utf8(target2).len());
    assert(encode_utf8(target1).len() == encode_utf8(target2).len());
    encode_utf8_decode_utf8(target1);
    encode_utf8_decode_utf8(target2);
    encode_utf8_decode_utf8(content1);
    encode_utf8_decode_utf8(content2);
}

/// Where the parts of a message stand.
proof fn lemma_message_parts(is_type_expr: bool, content: Seq<char>, target: Seq<char>)
    ensures
        ({
            let m = message(is_type_expr, content, target);
            let n = encode_utf8(TAG@).len() as int;
            let t = encode_utf8(target);
            let c = encode_utf8(content);
            &&& m[n] == (if is_type_expr {
                1u8
            } else {
                0u8
            })
            &&& m.subrange(n + 1, n + 5) == le_bytes(t.len())
            &&& m.subrange(n + 5, n + 5 + t.len()) == t
            &&& m.skip(n + 9 + t.len()) == c
        }),
{
    let m = message(is_type_expr, content, target);
    let n = encode_utf8(TAG@).len() as int;
    let t = encode_utf8(target);
    let c = encode_utf8(content);
    assert(le_bytes(t.len()).len() == 4);
    assert(le_bytes(c.len()).len() == 4);
    assert(framed(target).len() == 4 + t.len());
    assert(m.subrange(n + 1, n + 5) =~= le_bytes(t.len()));
    assert(m.subrange(n + 5, n + 5 + t.len()) =~= t);
    assert(m.skip(n + 9 + t.len()) =~= c);
}

proof fn lemma_le_bytes(n: nat)
    ensures
        n % 4294967296 == le_bytes(n)[0] + 256 * le_bytes(n)[1] + 65536 * le_bytes(n)[2] + 16777216
            * le_bytes(n)[3],
{
    let a = n / 256;
    let b = a / 256;
    let c = b / 256;
    let d = c / 256;
    assert(n / 65536 == b);
    assert(n / 16777216 == c);
    assert(n == 4294967296 * d + 16777216 * (c % 256) + 65536 * (b % 256) + 256 * (a % 256) + n % 256);
}

/// Two inputs have one hash exactly where they have one digest: the spelling adds no
/// collision.
pub proof fn law_hashes_tell_digests_apart(
    type1: bool,
    content1: Seq<char>,
    target1: Seq<char>,
    type2: bool,
    content2: Seq<char>,
    target2: Seq<char>,
)
    ensures
        hash_of(type1, content1, target1) == hash_of(type2, content2, target2) <==> sha256(
            message(type1, content1, target1),
        ) == sha256(message(type2, content2, target2)),
{
    let a = sha256(message(type1, content1, target1));
    let b = sha256(message(type2, content2, target2));
    if letters(a) == letters(b) {
        law_letters_tell_bytes_apart(a, b);
    }
}

// ── reading a spelling ─────────────────────────────────────

/// The value that a letter stands for.
pub open spec fn letter_value(c: char) -> int {
    if 'a' <= c <= 'z' {
        c as int - 'a' as int
    } else {
        c as int - '2' as int + 26
    }
}

/// Bit `i` of a spelling, five to the letter, the highest first.
#[verifier::opaque]
pub open spec fn letter_bit(s: Seq<char>, i: int) -> int {
    let v = letter_value(s[i / 5]);
    let at = i % 5;
    if at == 0 {
        v / 16 % 2
    } else if at == 1 {
        v / 8 % 2
    } else if at == 2 {
        v / 4 % 2
    } else if at == 3 {
        v / 2 % 2
    } else {
        v % 2
    }
}

/// The bytes that a spelling holds.  Bits at its end that make no whole byte are dropped.
pub open spec fn unspelled(s: Seq<char>) -> Seq<u8> {
    Seq::new(
        (s.len() * 5 / 8) as nat,
        |k: int|
            (128 * letter_bit(s, 8 * k) + 64 * letter_bit(s, 8 * k + 1) + 32 * letter_bit(
                s,
                8 * k + 2,
            ) + 16 * letter_bit(s, 8 * k + 3) + 8 * letter_bit(s, 8 * k + 4) + 4 * letter_bit(
                s,
                8 * k + 5,
            ) + 2 * letter_bit(s, 8 * k + 6) + letter_bit(s, 8 * k + 7)) as u8,
    )
}

proof fn lemma_letter_value(v: int)
    requires
        0 <= v < 32,
    ensures
        letter_value(letter(v)) == v,
{
    reveal_strlit("abcdefghijklmnopqrstuvwxyz234567");
}

proof fn lemma_five_bits(a: int, b: int, c: int, d: int, e: int)
    requires
        0 <= a <= 1,
        0 <= b <= 1,
        0 <= c <= 1,
        0 <= d <= 1,
        0 <= e <= 1,
    ensures
        ({
            let v = 16 * a + 8 * b + 4 * c + 2 * d + e;
            &&& 0 <= v < 32
            &&& v / 16 % 2 == a
            &&& v / 8 % 2 == b
            &&& v / 4 % 2 == c
            &&& v / 2 % 2 == d
            &&& v % 2 == e
        }),
{
}

/// Every bit of a spelling is the bit of the bytes at its place, and zero behind the last byte.
proof fn lemma_letter_bit(bytes: Seq<u8>, i: int)
    requires
        0 <= i < 5 * letters(bytes).len(),
    ensures
        letter_bit(letters(bytes), i) == bit(bytes, i),
{
    reveal(letter_bit);
    let g = i / 5;
    let (a, b, c, d, e) = (
        bit(bytes, 5 * g),
        bit(bytes, 5 * g + 1),
        bit(bytes, 5 * g + 2),
        bit(bytes, 5 * g + 3),
        bit(bytes, 5 * g + 4),
    );
    lemma_bit(bytes, 5 * g);
    lemma_bit(bytes, 5 * g + 1);
    lemma_bit(bytes, 5 * g + 2);
    lemma_bit(bytes, 5 * g + 3);
    lemma_bit(bytes, 5 * g + 4);
    lemma_five_bits(a, b, c, d, e);
    lemma_letter_value(group(bytes, g));
    assert(letters(bytes)[g] == letter(group(bytes, g)));
    assert(i == 5 * g + i % 5);
}

/// The bits of a byte make up the byte.
proof fn lemma_byte_of_bits(bytes: Seq<u8>, k: int)
    requires
        0 <= k < bytes.len(),
    ensures
        bytes[k] as int == 128 * bit(bytes, 8 * k) + 64 * bit(bytes, 8 * k + 1) + 32 * bit(
            bytes,
            8 * k + 2,
        ) + 16 * bit(bytes, 8 * k + 3) + 8 * bit(bytes, 8 * k + 4) + 4 * bit(bytes, 8 * k + 5) + 2
            * bit(bytes, 8 * k + 6) + bit(bytes, 8 * k + 7),
{
    lemma_byte(bytes[k]);
    assert((8 * k) / 8 == k && (8 * k) % 8 == 0);
    assert((8 * k + 1) / 8 == k && (8 * k + 1) % 8 == 1);
    assert((8 * k + 2) / 8 == k && (8 * k + 2) % 8 == 2);
    assert((8 * k + 3) / 8 == k && (8 * k + 3) % 8 == 3);
    assert((8 * k + 4) / 8 == k && (8 * k + 4) % 8 == 4);
    assert((8 * k + 5) / 8 == k && (8 * k + 5) % 8 == 5);
    assert((8 * k + 6) / 8 == k && (8 * k + 6) % 8 == 6);
    assert((8 * k + 7) / 8 == k && (8 * k + 7) % 8 == 7);
}

proof fn lemma_unspelled_len(bytes: Seq<u8>)
    ensures
        letters(bytes).len() * 5 / 8 == bytes.len(),
        8 * bytes.len() <= 5 * letters(bytes).len(),
{
    let n = bytes.len() as int;
    assert(letters(bytes).len() == (8 * n + 4) / 5);
}

proof fn lemma_unspelled_byte(bytes: Seq<u8>, k: int)
    requires
        0 <= k < bytes.len(),
    ensures
        unspelled(letters(bytes))[k] == bytes[k],
{
    lemma_unspelled_len(bytes);
    lemma_letter_bit(bytes, 8 * k);
    lemma_letter_bit(bytes, 8 * k + 1);
    lemma_letter_bit(bytes, 8 * k + 2);
    lemma_letter_bit(bytes, 8 * k + 3);
    lemma_letter_bit(bytes, 8 * k + 4);
    lemma_letter_bit(bytes, 8 * k + 5);
    lemma_letter_bit(bytes, 8 * k + 6);
    lemma_letter_bit(bytes, 8 * k + 7);
    lemma_byte_of_bits(bytes, k);
}

/// Reading five bits per letter gives the bytes back, and the bits that are left over are zero.
pub proof fn law_spelling_is_read_back(bytes: Seq<u8>)
    ensures
        unspelled(letters(bytes)) == bytes,
        forall|i: int|
            8 * bytes.len() <= i < 5 * letters(bytes).len() ==> #[trigger] letter_bit(
                letters(bytes),
                i,
            ) == 0,
{
    let s = letters(bytes);
    lemma_unspelled_len(bytes);
    assert forall|k: int| 0 <= k < bytes.len() implies unspelled(s)[k] == bytes[k] by {
        lemma_unspelled_byte(bytes, k);
    }
    assert(unspelled(s) =~= bytes);
    assert forall|i: int| 8 * bytes.len() <= i < 5 * s.len() implies #[trigger] letter_bit(s, i)
        == 0 by {
        lemma_letter_bit(bytes, i);
    }
}

/// Whoever spells bytes gets letters of the alphabet from which the bytes are read back.
pub proof fn law_base32(bytes: &[u8], r: String)
    requires
        bytes@.len() * 8 + 8 <= usize::MAX,
        call_ensures(base32, (bytes,), r),
    ensures
        unspelled(r@) == bytes@,
        r@.len() == (8 * bytes@.len() + 4) / 5,
        forall|i: int|
            0 <= i < r@.len() ==> 'a' <= #[trigger] r@[i] <= 'z' || '2' <= r@[i] <= '7',
{
    law_spelling_is_read_back(bytes@);
    law_letters_are_of_the_alphabet(bytes@);
    reveal_strlit("abcdefghijklmnopqrstuvwxyz234567");
    assert forall|i: int| 0 <= i < r@.len() implies 'a' <= #[trigger] r@[i] <= 'z' || '2' <= r@[i]
        <= '7' by {
        assert(letters(bytes@)[i] == r@[i]);
        let k = ALPHABET@.index_of(r@[i]);
        assert(ALPHABET@.contains(r@[i]));
        assert(ALPHABET@[k] == r@[i]);
    }
}

/// Whoever hashes an input twice gets one hash, of 52 letters.
pub proof fn law_content_hash(is_type_expr: bool, content: &str, target: &str, a: String, b: String)
    requires
        call_ensures(content_hash, (is_type_expr, content, target), a),
        call_ensures(content_hash, (is_type_expr, content, target), b),
    ensures
        a@ == b@,
        a@.len() == 52,
{
}

} // verus!
