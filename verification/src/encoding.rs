use vstd::prelude::*;
use vstd::utf8::*;

verus! {

/// Number of bytes the UTF-8 encoding of one code point takes.
pub open spec fn char_bytes(c: char) -> nat {
    encode_scalar(c as u32).len()
}

/// Byte offset of the `i`-th code point inside the UTF-8 encoding of `chars`.
/// For `i == chars.len()` this is the total byte length.
pub open spec fn byte_index(chars: Seq<char>, i: int) -> int {
    encode_utf8(chars.take(i)).len() as int
}

/// An offset is a code-point boundary of `chars` when it is the byte index of
/// some code-point position.
pub open spec fn is_boundary(chars: Seq<char>, off: int) -> bool {
    exists|i: int| 0 <= i <= chars.len() && off == byte_index(chars, i)
}

/// The UTF-8 encoding of a concatenation is the concatenation of the
/// encodings.
pub proof fn lemma_encode_utf8_app(a: Seq<char>, b: Seq<char>)
    ensures
        encode_utf8(a + b) == encode_utf8(a) + encode_utf8(b),
    decreases a.len(),
{
    if a.len() == 0 {
        assert(a + b =~= b);
        assert(encode_utf8(a) + encode_utf8(b) =~= encode_utf8(b));
    } else {
        lemma_encode_utf8_app(a.drop_first(), b);
        assert((a + b).drop_first() =~= a.drop_first() + b);
        assert(encode_utf8(a) + encode_utf8(b) =~= encode_scalar(a[0] as u32) + (encode_utf8(
            a.drop_first(),
        ) + encode_utf8(b)));
    }
}

/// One code point advances the byte index by the length of its encoding.
pub proof fn lemma_byte_index_step(chars: Seq<char>, i: int)
    requires
        0 <= i < chars.len(),
    ensures
        byte_index(chars, i + 1) == byte_index(chars, i) + char_bytes(chars[i]),
{
    assert(chars.take(i + 1) =~= chars.take(i) + seq![chars[i]]);
    lemma_encode_utf8_app(chars.take(i), seq![chars[i]]);
    assert(encode_utf8(seq![chars[i]]) =~= encode_scalar(chars[i] as u32) + encode_utf8(
        seq![chars[i]].drop_first(),
    ));
    assert(seq![chars[i]].drop_first() =~= Seq::<char>::empty());
    assert(encode_utf8(seq![chars[i]]).len() == char_bytes(chars[i]));
}

/// Every code point encodes to between one and four bytes.
pub proof fn lemma_char_bytes_bounds(c: char)
    ensures
        1 <= char_bytes(c) <= 4,
{
    char_is_scalar(c);
}

/// Byte indices grow strictly with the code-point position.
pub proof fn lemma_byte_index_mono(chars: Seq<char>, i: int, j: int)
    requires
        0 <= i <= j <= chars.len(),
    ensures
        byte_index(chars, i) <= byte_index(chars, j),
        i < j ==> byte_index(chars, i) < byte_index(chars, j),
    decreases j - i,
{
    if i < j {
        lemma_byte_index_step(chars, i);
        lemma_char_bytes_bounds(chars[i]);
        lemma_byte_index_mono(chars, i + 1, j);
    }
}

/// The byte index of position 0 is 0.
pub proof fn lemma_byte_index_zero(chars: Seq<char>)
    ensures
        byte_index(chars, 0) == 0,
{
    assert(chars.take(0) =~= Seq::<char>::empty());
}

/// Byte indices within a suffix relate to byte indices of the whole sequence
/// by the offset where the suffix starts.
pub proof fn lemma_byte_index_suffix(chars: Seq<char>, k: int, i: int)
    requires
        0 <= k <= chars.len(),
        0 <= i <= chars.len() - k,
    ensures
        byte_index(chars.skip(k), i) == byte_index(chars, k + i) - byte_index(chars, k),
{
    assert(chars.take(k + i) =~= chars.take(k) + chars.skip(k).take(i));
    lemma_encode_utf8_app(chars.take(k), chars.skip(k).take(i));
}

/// A byte index of the code-point sequence is a char boundary of its UTF-8
/// encoding.
pub proof fn lemma_byte_index_is_char_boundary(chars: Seq<char>, i: int)
    requires
        0 <= i <= chars.len(),
    ensures
        is_char_boundary(encode_utf8(chars), byte_index(chars, i)),
    decreases i,
{
    broadcast use encode_utf8_valid_utf8;

    if i == 0 {
        lemma_byte_index_zero(chars);
    } else {
        let bytes = encode_utf8(chars);
        encode_utf8_first_scalar(chars);
        let len0 = char_bytes(chars[0]);
        assert(pop_first_scalar(bytes) =~= encode_utf8(chars.drop_first()));
        lemma_byte_index_is_char_boundary(chars.drop_first(), i - 1);
        assert(chars.drop_first().take(i - 1) =~= chars.take(i).drop_first());
        assert(chars.take(i).len() == i);
        assert(encode_utf8(chars.take(i)) =~= encode_scalar(chars.take(i)[0] as u32) + encode_utf8(
            chars.take(i).drop_first(),
        ));
        assert(byte_index(chars, i) == len0 + byte_index(chars.drop_first(), i - 1));
    }
}

/// Byte length of one code point, computed from its scalar value.
pub fn char_utf8_len(c: char) -> (n: usize)
    ensures
        n == char_bytes(c),
        1 <= n <= 4,
{
    let u = c as u32;
    proof {
        char_is_scalar(c);
    }
    if u < 0x80 {
        1
    } else if u < 0x800 {
        2
    } else if u < 0x10000 {
        3
    } else {
        4
    }
}

/// A sequence of code points takes at least one byte each.
pub proof fn lemma_len_le_bytes(chars: Seq<char>)
    ensures
        chars.len() <= byte_index(chars, chars.len() as int),
    decreases chars.len(),
{
    if chars.len() > 0 {
        let n = chars.len() as int;
        lemma_len_le_bytes(chars.take(n - 1));
        assert(chars.take(n - 1).take(n - 1) =~= chars.take(n - 1));
        lemma_byte_index_step(chars, n - 1);
        lemma_char_bytes_bounds(chars[n - 1]);
        assert(byte_index(chars.take(n - 1), n - 1) == byte_index(chars, n - 1)) by {
            assert(chars.take(n - 1).take(n - 1) =~= chars.take(n - 1));
        }
        assert(chars.take(n) =~= chars);
    } else {
        lemma_byte_index_zero(chars);
        assert(chars.take(0) =~= chars);
    }
}

/// A boundary of a suffix of the code points, shifted by the byte offset of
/// the suffix, is a boundary of the whole sequence.
pub proof fn lemma_suffix_boundary(chars: Seq<char>, k: int, r: int)
    requires
        0 <= k <= chars.len(),
        0 <= r,
        is_boundary(chars.skip(k), r),
    ensures
        is_boundary(chars, byte_index(chars, k) + r),
        byte_index(chars, k) + r <= byte_index(chars, chars.len() as int),
{
    let sub = chars.skip(k);
    let i = choose|i: int| 0 <= i <= sub.len() && byte_index(sub, i) == r;
    lemma_byte_index_suffix(chars, k, i);
    lemma_byte_index_mono(chars, k + i, chars.len() as int);
    assert(byte_index(chars, k + i) == byte_index(chars, k) + r);
}

/// A boundary in the code-point sense is a char boundary of the UTF-8
/// encoding, as `str` slicing wants it.
pub proof fn lemma_boundary_to_char_boundary(chars: Seq<char>, off: int)
    requires
        is_boundary(chars, off),
    ensures
        is_char_boundary(encode_utf8(chars), off),
{
    let i = choose|i: int| 0 <= i <= chars.len() && byte_index(chars, i) == off;
    lemma_byte_index_is_char_boundary(chars, i);
}

/// Splitting a valid UTF-8 byte sequence at a char boundary leaves a valid
/// suffix, and a later boundary of the whole sequence is a boundary of that
/// suffix.
pub proof fn lemma_boundary_shift(bytes: Seq<u8>, a: int, m: int)
    requires
        valid_utf8(bytes),
        is_char_boundary(bytes, a),
        is_char_boundary(bytes, m),
        0 <= a <= m <= bytes.len(),
    ensures
        valid_utf8(bytes.subrange(a, bytes.len() as int)),
        is_char_boundary(bytes.subrange(a, bytes.len() as int), m - a),
{
    valid_utf8_split(bytes, a);
    let suffix = bytes.subrange(a, bytes.len() as int);
    if m == a {
        is_char_boundary_start_end_of_seq(suffix);
    } else if m == bytes.len() {
        is_char_boundary_start_end_of_seq(suffix);
        assert(m - a == suffix.len());
    } else {
        is_char_boundary_iff_not_is_continuation_byte(bytes, m);
        is_char_boundary_iff_not_is_continuation_byte(suffix, m - a);
        assert(suffix[m - a] == bytes[m]);
    }
}

/// The code points of a string, in order.
pub fn chars_of(s: &str) -> (v: Vec<char>)
    ensures
        v@ == s@,
{
    let n = s.unicode_len();
    let mut v: Vec<char> = Vec::new();
    let mut i: usize = 0;
    while i < n
        invariant
            i <= n,
            n == s@.len(),
            v@ == s@.take(i as int),
        decreases n - i,
    {
        let c = s.get_char(i);
        v.push(c);
        i = i + 1;
        proof {
            assert(v@ =~= s@.take(i as int));
        }
    }
    proof {
        assert(s@.take(n as int) =~= s@);
    }
    v
}

} // verus!
