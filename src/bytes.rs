//! Where characters stand in a text's UTF-8 encoding.
use vstd::prelude::*;
use vstd::utf8::{char_is_scalar, encode_scalar, encode_utf8};

verus! {

/// How many bytes the UTF-8 encoding of `c` takes.
pub open spec fn width(c: char) -> nat {
    encode_scalar(c as u32).len()
}

/// The byte offset of the character at index `k` of `s`; an index past
/// the end counts as the end.
pub open spec fn byte_pos(s: Seq<char>, k: int) -> int {
    if k <= s.len() {
        encode_utf8(s.take(k)).len() as int
    } else {
        encode_utf8(s).len() as int
    }
}

pub fn utf8_width(c: char) -> (r: usize)
    ensures
        r == width(c),
        1 <= r <= 4,
{
    proof {
        char_is_scalar(c);
    }
    let u = c as u32;
    if u < 0x80 {
        1
    } else if u < 0x800 {
        2
    } else if u < 0x10000 {
        3
    } else {
        4
    }
}

/// The encoding of a concatenation is the concatenation of the encodings.
pub proof fn lemma_encode_concat(a: Seq<char>, b: Seq<char>)
    ensures
        encode_utf8(a + b) == encode_utf8(a) + encode_utf8(b),
    decreases a.len(),
{
    if a.len() == 0 {
        assert(a + b =~= b);
        assert(encode_utf8(a) + encode_utf8(b) =~= encode_utf8(b));
    } else {
        assert((a + b).drop_first() =~= a.drop_first() + b);
        assert((a + b)[0] == a[0]);
        lemma_encode_concat(a.drop_first(), b);
        assert(encode_utf8(a + b) =~= encode_utf8(a) + encode_utf8(b));
    }
}

pub proof fn lemma_encode_one(c: char)
    ensures
        encode_utf8(seq![c]) == encode_scalar(c as u32),
{
    let one = seq![c];
    assert(one.drop_first() =~= Seq::<char>::empty());
    assert(encode_utf8(Seq::<char>::empty()) == Seq::<u8>::empty());
    assert(one[0] == c);
    assert(encode_utf8(one) == encode_scalar(c as u32) + encode_utf8(one.drop_first()));
    assert(encode_utf8(one) =~= encode_scalar(c as u32));
}

pub proof fn lemma_byte_pos_step(s: Seq<char>, k: int)
    requires
        0 <= k < s.len(),
    ensures
        encode_utf8(s.take(k + 1)) == encode_utf8(s.take(k)) + encode_scalar(s[k] as u32),
        byte_pos(s, k + 1) == byte_pos(s, k) + width(s[k]),
{
    assert(s.take(k + 1) =~= s.take(k) + seq![s[k]]);
    lemma_encode_concat(s.take(k), seq![s[k]]);
    lemma_encode_one(s[k]);
}

pub proof fn lemma_byte_pos_mono(s: Seq<char>, k: int, m: int)
    requires
        0 <= k <= m <= s.len(),
    ensures
        0 <= byte_pos(s, k) <= byte_pos(s, m) <= encode_utf8(s).len(),
        byte_pos(s, s.len() as int) == encode_utf8(s).len(),
{
    assert(s.take(m) =~= s.take(k) + s.subrange(k, m));
    lemma_encode_concat(s.take(k), s.subrange(k, m));
    assert(s =~= s.take(m) + s.subrange(m, s.len() as int));
    lemma_encode_concat(s.take(m), s.subrange(m, s.len() as int));
    assert(s.take(s.len() as int) =~= s);
}

/// The bytes of the character at index `k` stand in the encoding of `s`
/// from its byte offset on.
pub proof fn lemma_byte_of_char(s: Seq<char>, k: int, j: int)
    requires
        0 <= k < s.len(),
        0 <= j < width(s[k]),
    ensures
        byte_pos(s, k) + j < byte_pos(s, k + 1) <= encode_utf8(s).len(),
        encode_utf8(s)[byte_pos(s, k) + j] == encode_scalar(s[k] as u32)[j],
{
    lemma_byte_pos_step(s, k);
    lemma_byte_pos_mono(s, k + 1, s.len() as int);
    assert(s =~= s.take(k + 1) + s.skip(k + 1));
    lemma_encode_concat(s.take(k + 1), s.skip(k + 1));
}

/// The byte offset of every character index of `s`, and of its end.
pub fn byte_offsets(s: &[char], total: usize) -> (r: Vec<usize>)
    requires
        encode_utf8(s@).len() == total,
    ensures
        r@.len() == s@.len() + 1,
        forall|k: int| 0 <= k <= s@.len() ==> r@[k] as int == byte_pos(s@, k),
{
    let mut r: Vec<usize> = Vec::new();
    let mut off: usize = 0;
    r.push(0);
    assert(s@.take(0) =~= Seq::<char>::empty());
    let mut k: usize = 0;
    while k < s.len()
        invariant
            k <= s@.len(),
            r@.len() == k + 1,
            off as int == byte_pos(s@, k as int),
            encode_utf8(s@).len() == total,
            forall|m: int| 0 <= m <= k ==> r@[m] as int == byte_pos(s@, m),
        decreases s@.len() - k,
    {
        proof {
            lemma_byte_pos_step(s@, k as int);
            lemma_byte_pos_mono(s@, k + 1, s@.len() as int);
        }
        off = off + utf8_width(s[k]);
        r.push(off);
        k += 1;
    }
    r
}

} // verus!
