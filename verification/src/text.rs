//! UTF-8 and UTF-16 measurements of text, and the string primitives that the
//! rest of the crate is built on.
use vstd::prelude::*;
use vstd::string::*;
use vstd::utf8::*;

verus! {

/// Bytes that UTF-8 needs for one scalar.
pub open spec fn scalar_width(c: char) -> nat {
    if (c as u32) <= 0x7f {
        1
    } else if (c as u32) <= 0x7ff {
        2
    } else if (c as u32) <= 0xffff {
        3
    } else {
        4
    }
}

/// Code units that UTF-16 needs for one scalar.
pub open spec fn utf16_width(c: char) -> nat {
    if (c as u32) <= 0xffff {
        1
    } else {
        2
    }
}

/// Bytes that UTF-8 needs for a text.
pub open spec fn utf8_len(s: Seq<char>) -> nat
    decreases s.len(),
{
    if s.len() == 0 {
        0
    } else {
        utf8_len(s.drop_last()) + scalar_width(s.last())
    }
}

/// Appends one scalar: `String::push` leaves the old text followed by it.
pub assume_specification[ std::string::String::push ](text: &mut std::string::String, c: char)
    ensures
        final(text)@ == old(text)@.push(c),
;

pub proof fn lemma_encode_concat(a: Seq<char>, b: Seq<char>)
    ensures
        encode_utf8(a + b) == encode_utf8(a) + encode_utf8(b),
    decreases a.len(),
{
    if a.len() == 0 {
        assert(a + b =~= b);
        assert(encode_utf8(a) + encode_utf8(b) =~= encode_utf8(b));
    } else {
        lemma_encode_concat(a.drop_first(), b);
        assert((a + b).drop_first() =~= a.drop_first() + b);
        assert(encode_utf8(a + b) =~= encode_scalar(a[0] as u32) + (encode_utf8(a.drop_first())
            + encode_utf8(b)));
        assert(encode_utf8(a + b) =~= encode_utf8(a) + encode_utf8(b));
    }
}

/// `utf8_len` is the length of the UTF-8 encoding.
pub proof fn lemma_encode_len(s: Seq<char>)
    ensures
        encode_utf8(s).len() == utf8_len(s),
    decreases s.len(),
{
    if s.len() > 0 {
        let last = seq![s.last()];
        lemma_encode_len(s.drop_last());
        lemma_encode_concat(s.drop_last(), last);
        assert(s.drop_last() + last =~= s);
        reveal_with_fuel(encode_utf8, 2);
        assert(last.drop_first() =~= Seq::<char>::empty());
        char_is_scalar(s.last());
        assert(encode_utf8(last) =~= encode_scalar(s.last() as u32));
    }
}

pub proof fn lemma_utf8_len_concat(a: Seq<char>, b: Seq<char>)
    ensures
        utf8_len(a + b) == utf8_len(a) + utf8_len(b),
    decreases b.len(),
{
    if b.len() == 0 {
        assert(a + b =~= a);
    } else {
        lemma_utf8_len_concat(a, b.drop_last());
        assert((a + b).drop_last() =~= a + b.drop_last());
    }
}

pub proof fn lemma_utf8_len_push(a: Seq<char>, c: char)
    ensures
        utf8_len(a.push(c)) == utf8_len(a) + scalar_width(c),
{
    assert(a.push(c).drop_last() =~= a);
}

/// A text never has more scalars than bytes, nor more bytes than four times its scalars.
pub proof fn lemma_utf8_len_bounds(s: Seq<char>)
    ensures
        s.len() <= utf8_len(s) <= 4 * s.len(),
    decreases s.len(),
{
    if s.len() > 0 {
        lemma_utf8_len_bounds(s.drop_last());
    }
}

/// The part of a text before a cut is no longer than the text.
pub proof fn lemma_utf8_len_take(s: Seq<char>, k: int)
    requires
        0 <= k <= s.len(),
    ensures
        utf8_len(s.take(k)) + utf8_len(s.skip(k)) == utf8_len(s),
        k < s.len() ==> utf8_len(s.take(k + 1)) == utf8_len(s.take(k)) + scalar_width(s[k]),
{
    lemma_utf8_len_concat(s.take(k), s.skip(k));
    assert(s.take(k) + s.skip(k) =~= s);
    if k < s.len() {
        assert(s.take(k + 1).drop_last() =~= s.take(k));
    }
}

pub proof fn lemma_utf8_len_monotone(s: Seq<char>, j: int, k: int)
    requires
        0 <= j <= k <= s.len(),
    ensures
        utf8_len(s.take(j)) <= utf8_len(s.take(k)),
        j < k ==> utf8_len(s.take(j)) < utf8_len(s.take(k)),
    decreases k - j,
{
    if j < k {
        lemma_utf8_len_monotone(s, j, k - 1);
        lemma_utf8_len_take(s, k - 1);
    }
}

/// The end of every prefix is a character boundary of the encoding.
pub proof fn lemma_prefix_boundary(s: Seq<char>, k: int)
    requires
        0 <= k <= s.len(),
    ensures
        is_char_boundary(encode_utf8(s), utf8_len(s.take(k)) as int),
    decreases s.len(),
{
    encode_utf8_valid_utf8(s);
    if k == 0 {
        assert(utf8_len(s.take(0)) == 0);
    } else {
        let bytes = encode_utf8(s);
        let rest = s.drop_first();
        encode_utf8_first_scalar(s);
        assert(pop_first_scalar(bytes) =~= encode_utf8(rest));
        lemma_prefix_boundary(rest, k - 1);
        assert(s.take(k) =~= seq![s[0]] + rest.take(k - 1));
        lemma_utf8_len_concat(seq![s[0]], rest.take(k - 1));
        assert(utf8_len(seq![s[0]]) == scalar_width(s[0])) by {
            lemma_utf8_len_push(Seq::empty(), s[0]);
            assert(Seq::<char>::empty().push(s[0]) =~= seq![s[0]]);
        }
        char_is_scalar(s[0]);
        assert(encode_scalar(s[0] as u32).len() == scalar_width(s[0]));
        lemma_encode_len(s);
        lemma_utf8_len_take(s, k);
        reveal_with_fuel(is_char_boundary, 2);
    }
}

/// Texts with one encoding are one text.
pub proof fn lemma_encode_injective(a: Seq<char>, b: Seq<char>)
    requires
        encode_utf8(a) == encode_utf8(b),
    ensures
        a == b,
{
    encode_utf8_decode_utf8(a);
    encode_utf8_decode_utf8(b);
}

/// Bytes that UTF-8 needs for `c`.
pub fn char_width(c: char) -> (width: usize)
    ensures
        width == scalar_width(c),
{
    let scalar = c as u32;
    if scalar <= 0x7f {
        1
    } else if scalar <= 0x7ff {
        2
    } else if scalar <= 0xffff {
        3
    } else {
        4
    }
}

/// Code units that UTF-16 needs for `c`.
pub fn char_utf16_width(c: char) -> (width: u32)
    ensures
        width == utf16_width(c),
{
    if (c as u32) <= 0xffff {
        1
    } else {
        2
    }
}

/// Length of a text in bytes.
pub fn byte_len(s: &str) -> (len: usize)
    ensures
        len == utf8_len(s@),
{
    proof {
        lemma_encode_len(s@);
    }
    s.as_bytes().len()
}

/// The first scalar of a text, if it has one.
pub fn first_char(s: &str) -> (first: Option<char>)
    ensures
        s@.len() == 0 ==> first is None,
        s@.len() > 0 ==> first == Some(s@[0]),
{
    let mut scalars = s.chars();
    scalars.next()
}

/// Cuts a text after its first `k` scalars, which take `at` bytes.
pub(crate) fn split_text<'a>(s: &'a str, at: usize, k: Ghost<int>) -> (parts: (&'a str, &'a str))
    requires
        0 <= k@ <= s@.len(),
        at == utf8_len(s@.take(k@)),
    ensures
        parts.0@ == s@.take(k@),
        parts.1@ == s@.skip(k@),
{
    proof {
        lemma_prefix_boundary(s@, k@);
    }
    let parts = s.split_at(at);
    proof {
        let head = s@.take(k@);
        let tail = s@.skip(k@);
        lemma_encode_concat(head, tail);
        assert(head + tail =~= s@);
        lemma_encode_len(head);
        assert(encode_utf8(s@).subrange(0, at as int) =~= encode_utf8(head));
        assert(encode_utf8(s@).subrange(at as int, encode_utf8(s@).len() as int) =~= encode_utf8(
            tail,
        ));
        lemma_encode_injective(parts.0@, head);
        lemma_encode_injective(parts.1@, tail);
    }
    parts
}

/// Whether two texts are the same.
pub fn same_text(a: &str, b: &str) -> (same: bool)
    ensures
        same == (a@ == b@),
{
    let left = a.as_bytes();
    let right = b.as_bytes();
    if left.len() != right.len() {
        return false;
    }
    let mut i: usize = 0;
    while i < left.len()
        invariant
            i <= left@.len(),
            left@.len() == right@.len(),
            left@ == encode_utf8(a@),
            right@ == encode_utf8(b@),
            left@.take(i as int) == right@.take(i as int),
        decreases left@.len() - i,
    {
        if left[i] != right[i] {
            assert(a@ != b@);
            return false;
        }
        assert(left@.take(i + 1) =~= left@.take(i as int).push(left@[i as int]));
        assert(right@.take(i + 1) =~= right@.take(i as int).push(right@[i as int]));
        i += 1;
    }
    proof {
        assert(left@.take(i as int) =~= left@);
        assert(right@.take(i as int) =~= right@);
        lemma_encode_injective(a@, b@);
    }
    true
}

/// The scalars of a text, in order.
pub fn chars_of(s: &str) -> (scalars: Vec<char>)
    ensures
        scalars@ == s@,
{
    let mut source = s.chars();
    let mut scalars: Vec<char> = Vec::new();
    let ghost mut taken: int = 0;
    loop
        invariant
            0 <= taken <= s@.len(),
            scalars@ == s@.take(taken),
            vstd::std_specs::iter::IteratorSpec::obeys_prophetic_iter_laws(&source),
            vstd::std_specs::iter::IteratorSpec::remaining(&source) == s@.skip(taken),
        ensures
            scalars@ == s@,
        decreases s@.len() - taken,
    {
        match source.next() {
            Some(c) => {
                scalars.push(c);
                proof {
                    assert(s@.take(taken + 1) =~= s@.take(taken).push(c));
                    assert(s@.skip(taken + 1) =~= s@.skip(taken).drop_first());
                    taken = taken + 1;
                }
            },
            None => {
                assert(s@.take(taken) =~= s@);
                break;
            },
        }
    }
    scalars
}

/// The text made of the given scalars.
pub fn text_of(scalars: &[char]) -> (text: String)
    ensures
        text@ == scalars@,
{
    let mut text = String::new();
    let mut i: usize = 0;
    while i < scalars.len()
        invariant
            i <= scalars@.len(),
            text@ == scalars@.take(i as int),
        decreases scalars@.len() - i,
    {
        text.push(scalars[i]);
        assert(scalars@.take(i + 1) =~= scalars@.take(i as int).push(scalars@[i as int]));
        i += 1;
    }
    assert(scalars@.take(i as int) =~= scalars@);
    text
}

} // verus!
