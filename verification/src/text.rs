//! Character-level building blocks shared by the parsers and the terminal
//! renderer: whitespace classification, UTF-8 byte widths, and string
//! construction with exact contracts.
use vstd::prelude::*;
use vstd::utf8::*;

verus! {

broadcast use vstd::seq_lib::group_seq_properties;

/// Unicode `White_Space` characters, the set that `char::is_whitespace`
/// (and therefore `str::split_whitespace` and `str::trim`) uses.
pub open spec fn is_ws(c: char) -> bool {
    ||| ('\u{9}' <= c && c <= '\u{d}')
    ||| c == ' '
    ||| c == '\u{85}'
    ||| c == '\u{a0}'
    ||| c == '\u{1680}'
    ||| ('\u{2000}' <= c && c <= '\u{200a}')
    ||| c == '\u{2028}'
    ||| c == '\u{2029}'
    ||| c == '\u{202f}'
    ||| c == '\u{205f}'
    ||| c == '\u{3000}'
}

/// True when every character of `s` is whitespace (so `s.trim()` is empty).
pub open spec fn all_ws(s: Seq<char>) -> bool {
    forall|i: int| 0 <= i < s.len() ==> is_ws(#[trigger] s[i])
}

/// Number of bytes of the UTF-8 encoding of `c`.
pub open spec fn char_width(c: char) -> nat {
    if (c as u32) < 0x80 {
        1
    } else if (c as u32) < 0x800 {
        2
    } else if (c as u32) < 0x10000 {
        3
    } else {
        4
    }
}

/// Byte length of the UTF-8 encoding of `s`.
pub open spec fn utf8_len(s: Seq<char>) -> nat {
    encode_utf8(s).len()
}

pub fn is_whitespace_char(c: char) -> (b: bool)
    ensures
        b == is_ws(c),
{
    ('\u{9}' <= c && c <= '\u{d}') || c == ' ' || c == '\u{85}' || c == '\u{a0}' || c
        == '\u{1680}' || ('\u{2000}' <= c && c <= '\u{200a}') || c == '\u{2028}' || c
        == '\u{2029}' || c == '\u{202f}' || c == '\u{205f}' || c == '\u{3000}'
}

pub fn char_utf8_width(c: char) -> (w: usize)
    ensures
        w == char_width(c),
{
    let v = c as u32;
    if v < 0x80 {
        1
    } else if v < 0x800 {
        2
    } else if v < 0x10000 {
        3
    } else {
        4
    }
}

/// The encoding of one character has `char_width` bytes.
pub proof fn lemma_encode_scalar_len(c: char)
    ensures
        encode_scalar(c as u32).len() == char_width(c),
{
    char_is_scalar(c);
}

/// UTF-8 encoding distributes over concatenation.
pub proof fn lemma_encode_concat(a: Seq<char>, b: Seq<char>)
    ensures
        encode_utf8(a + b) == encode_utf8(a) + encode_utf8(b),
    decreases a.len(),
{
    if a.len() == 0 {
        assert(a + b =~= b);
        assert(encode_utf8(a) =~= Seq::<u8>::empty());
        assert(encode_utf8(a) + encode_utf8(b) =~= encode_utf8(b));
    } else {
        assert((a + b).drop_first() =~= a.drop_first() + b);
        assert((a + b)[0] == a[0]);
        lemma_encode_concat(a.drop_first(), b);
        assert(encode_utf8(a + b) =~= encode_scalar(a[0] as u32) + encode_utf8(a.drop_first() + b));
        assert(encode_utf8(a) =~= encode_scalar(a[0] as u32) + encode_utf8(a.drop_first()));
    }
}

/// Byte length grows by the width of the appended character.
pub proof fn lemma_utf8_len_push(s: Seq<char>, c: char)
    ensures
        utf8_len(s.push(c)) == utf8_len(s) + char_width(c),
{
    lemma_encode_concat(s, seq![c]);
    assert(s.push(c) =~= s + seq![c]);
    assert(seq![c].drop_first() =~= Seq::<char>::empty());
    assert(encode_utf8(seq![c]) =~= encode_scalar(c as u32) + encode_utf8(Seq::<char>::empty()));
    lemma_encode_scalar_len(c);
}

/// The byte length of a sequence is at least its character count.
pub proof fn lemma_utf8_len_ge(s: Seq<char>)
    ensures
        utf8_len(s) >= s.len(),
        utf8_len(s) == s.len() ==> forall|i: int| 0 <= i < s.len() ==> char_width(#[trigger] s[i]) == 1,
    decreases s.len(),
{
    if s.len() > 0 {
        let p = s.drop_last();
        lemma_utf8_len_ge(p);
        assert(p.push(s.last()) =~= s);
        lemma_utf8_len_push(p, s.last());
        if utf8_len(s) == s.len() {
            assert forall|i: int| 0 <= i < s.len() implies char_width(#[trigger] s[i]) == 1 by {
                if i < p.len() {
                    assert(s[i] == p[i]);
                }
            }
        }
    } else {
        assert(encode_utf8(s) =~= Seq::<u8>::empty());
    }
}

/// Appends one character to a string (`String::push`).
#[verifier::external_body]
pub(crate) fn push_char(s: &mut String, c: char)
    ensures
        final(s)@ == old(s)@.push(c),
{
    s.push(c);
}

/// Appends a sequence of characters to a string.
pub fn push_chars(s: &mut String, cs: &Vec<char>)
    ensures
        final(s)@ == old(s)@ + cs@,
{
    let ghost start = s@;
    let mut i: usize = 0;
    while i < cs.len()
        invariant
            0 <= i <= cs.len(),
            s@ == start + cs@.take(i as int),
        decreases cs.len() - i,
    {
        push_char(s, cs[i]);
        assert(cs@.take(i + 1) =~= cs@.take(i as int).push(cs@[i as int]));
        i = i + 1;
    }
    assert(cs@.take(cs.len() as int) =~= cs@);
}

/// A string holding exactly the given characters.
pub fn string_of_chars(cs: &Vec<char>) -> (s: String)
    ensures
        s@ == cs@,
{
    let mut s = String::new();
    push_chars(&mut s, cs);
    assert(Seq::<char>::empty() + cs@ =~= cs@);
    s
}

/// The characters of a string slice, in order.
pub fn chars_of(s: &str) -> (v: Vec<char>)
    ensures
        v@ == s@,
{
    let mut v: Vec<char> = Vec::new();
    for c in it: s.chars()
        invariant
            v@ == it.seq().take(it.index() as int),
    {
        v.push(c);
    }
    v
}

/// Whether every character is whitespace.
pub fn is_blank(cs: &Vec<char>) -> (b: bool)
    ensures
        b == all_ws(cs@),
{
    let mut i: usize = 0;
    while i < cs.len()
        invariant
            0 <= i <= cs.len(),
            forall|j: int| 0 <= j < i ==> is_ws(#[trigger] cs@[j]),
        decreases cs.len() - i,
    {
        if !is_whitespace_char(cs[i]) {
            return false;
        }
        i = i + 1;
    }
    true
}

/// Byte length of the UTF-8 encoding of the characters, capped at `cap`,
/// together with its parity.
pub fn utf8_len_capped(cs: &Vec<char>, cap: usize) -> (r: (usize, bool))
    requires
        cap < usize::MAX - 4,
    ensures
        r.0 == (if utf8_len(cs@) < cap { utf8_len(cs@) } else { cap as nat }),
        r.1 == (utf8_len(cs@) % 2 == 1),
{
    let mut n: usize = 0;
    let mut odd = false;
    let mut i: usize = 0;
    proof {
        assert(cs@.take(0) =~= Seq::<char>::empty());
        assert(encode_utf8(Seq::<char>::empty()) =~= Seq::<u8>::empty());
    }
    while i < cs.len()
        invariant
            0 <= i <= cs.len(),
            cap < usize::MAX - 4,
            n == (if utf8_len(cs@.take(i as int)) < cap { utf8_len(cs@.take(i as int)) } else { cap as nat }),
            odd == (utf8_len(cs@.take(i as int)) % 2 == 1),
        decreases cs.len() - i,
    {
        let w = char_utf8_width(cs[i]);
        proof {
            assert(cs@.take(i + 1) =~= cs@.take(i as int).push(cs@[i as int]));
            lemma_utf8_len_push(cs@.take(i as int), cs@[i as int]);
        }
        n = if n + w < cap { n + w } else { cap };
        if w % 2 == 1 {
            odd = !odd;
        }
        i = i + 1;
    }
    assert(cs@.take(cs.len() as int) =~= cs@);
    (n, odd)
}

/// The byte length of a string (`String::len`), which is the length of
/// its UTF-8 encoding.
#[verifier::external_body]
pub(crate) fn string_byte_len(s: &String) -> (n: usize)
    ensures
        n == utf8_len(s@),
{
    s.len()
}

/// Removes the first `n` bytes of a string (`String::drain(..n)`); `n` must
/// fall on a character boundary, as `drain` demands.
#[verifier::external_body]
pub(crate) fn string_drain_front(s: &mut String, n: usize)
    requires
        n <= utf8_len(old(s)@),
        is_char_boundary(encode_utf8(old(s)@), n as int),
    ensures
        encode_utf8(final(s)@) == encode_utf8(old(s)@).skip(n as int),
{
    s.drain(..n);
}

/// The end of an encoded prefix is a character boundary.
pub proof fn lemma_prefix_boundary(a: Seq<char>, b: Seq<char>)
    ensures
        is_char_boundary(encode_utf8(a + b), utf8_len(a) as int),
    decreases a.len(),
{
    broadcast use encode_utf8_valid_utf8;

    let x = a + b;
    if a.len() == 0 {
        assert(encode_utf8(a) =~= Seq::<u8>::empty());
    } else {
        encode_utf8_first_scalar(x);
        assert(pop_first_scalar(encode_utf8(x)) =~= encode_utf8(x.drop_first()));
        assert(x.drop_first() =~= a.drop_first() + b);
        assert(x[0] == a[0]);
        lemma_prefix_boundary(a.drop_first(), b);
        assert(encode_utf8(a) =~= encode_scalar(a[0] as u32) + encode_utf8(a.drop_first()));
        lemma_encode_concat(a, b);
        assert(encode_utf8(x).len() >= utf8_len(a));
    }
}

/// Dropping the bytes of a prefix leaves exactly the rest.
pub proof fn lemma_drop_encoded_prefix(a: Seq<char>, b: Seq<char>, r: Seq<char>)
    requires
        encode_utf8(r) == encode_utf8(a + b).skip(utf8_len(a) as int),
    ensures
        r == b,
{
    broadcast use encode_utf8_decode_utf8;

    lemma_encode_concat(a, b);
    assert(encode_utf8(a + b).skip(utf8_len(a) as int) =~= encode_utf8(b));
    assert(decode_utf8(encode_utf8(r)) == r);
    assert(decode_utf8(encode_utf8(b)) == b);
}

} // verus!
