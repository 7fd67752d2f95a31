//! Character classes, UTF-8 byte views and the string operations that the engine builds on.
use vstd::prelude::*;
use vstd::string::StringSliceAdditionalSpecFns;
use vstd::utf8::*;

verus! {

/// The Unicode `White_Space` property, which `char::is_whitespace` tests.
pub open spec fn is_white_space(c: char) -> bool {
    ('\u{9}' <= c && c <= '\u{d}') || c == ' ' || c == '\u{85}' || c == '\u{a0}' || c == '\u{1680}'
        || ('\u{2000}' <= c && c <= '\u{200a}') || c == '\u{2028}' || c == '\u{2029}'
        || c == '\u{202f}' || c == '\u{205f}' || c == '\u{3000}'
}

/// Zero-width characters that documentation generators put inside anchor links:
/// ZERO WIDTH SPACE, ZERO WIDTH NO-BREAK SPACE, ZERO WIDTH NON-JOINER, ZERO WIDTH JOINER.
pub open spec fn is_zero_width(c: char) -> bool {
    c == '\u{200b}' || c == '\u{feff}' || c == '\u{200c}' || c == '\u{200d}'
}

/// A character that renders as nothing visible.
pub open spec fn is_blank_char(c: char) -> bool {
    is_white_space(c) || is_zero_width(c)
}

/// Every character of `s` is blank (true of the empty sequence).
pub open spec fn is_blank(s: Seq<char>) -> bool {
    forall|i: int| 0 <= i < s.len() ==> is_blank_char(#[trigger] s[i])
}

/// A sequence extended by one character is blank exactly when both parts are.
pub proof fn lemma_blank_push(s: Seq<char>, c: char)
    ensures
        is_blank(s.push(c)) == (is_blank(s) && is_blank_char(c)),
{
    if is_blank(s.push(c)) {
        assert(s.push(c)[s.len() as int] == c);
        assert forall|i: int| 0 <= i < s.len() implies is_blank_char(#[trigger] s[i]) by {
            assert(s.push(c)[i] == s[i]);
        }
    }
}

/// Tests the Unicode `White_Space` property.
pub fn white_space(c: char) -> (r: bool)
    ensures
        r == is_white_space(c),
{
    ('\u{9}' <= c && c <= '\u{d}') || c == ' ' || c == '\u{85}' || c == '\u{a0}' || c == '\u{1680}'
        || ('\u{2000}' <= c && c <= '\u{200a}') || c == '\u{2028}' || c == '\u{2029}'
        || c == '\u{202f}' || c == '\u{205f}' || c == '\u{3000}'
}

/// Whether `text` is empty or holds only whitespace and zero-width characters.
pub fn is_empty_or_invisible(text: &str) -> (r: bool)
    ensures
        r == is_blank(text@),
{
    let mut all = true;
    for c in it: text.chars()
        invariant
            it.seq() == text@,
            all == is_blank(text@.take(it.index() as int)),
    {
        let ghost k = it.index() as int;
        let blank = white_space(c) || c == '\u{200b}' || c == '\u{feff}' || c == '\u{200c}'
            || c == '\u{200d}';
        proof {
            assert(c == text@[k]);
            let pre = text@.take(k);
            assert(text@.take(k + 1) =~= pre.push(c));
            lemma_blank_push(pre, c);
        }
        all = all && blank;
    }
    proof {
        assert(text@.take(text@.len() as int) =~= text@);
    }
    all
}

/// Number of bytes in the UTF-8 encoding of `s`.
pub open spec fn byte_len(s: Seq<char>) -> nat {
    encode_utf8(s).len()
}

/// `s` with leading `White_Space` characters removed.
pub open spec fn trim_start_ws(s: Seq<char>) -> Seq<char>
    decreases s.len(),
{
    if s.len() > 0 && is_white_space(s[0]) {
        trim_start_ws(s.drop_first())
    } else {
        s
    }
}

/// `s` with trailing `White_Space` characters removed.
pub open spec fn trim_end_ws(s: Seq<char>) -> Seq<char>
    decreases s.len(),
{
    if s.len() > 0 && is_white_space(s.last()) {
        trim_end_ws(s.drop_last())
    } else {
        s
    }
}

/// `s` with leading and trailing `White_Space` characters removed.
pub open spec fn trim_ws(s: Seq<char>) -> Seq<char> {
    trim_end_ws(trim_start_ws(s))
}

/// The bytes `from..to` of `b` when both ends lie on character boundaries, in order and
/// within bounds: the cases in which `str::get(from..to)` succeeds.
pub open spec fn can_slice(b: Seq<u8>, from: int, to: int) -> bool {
    0 <= from <= to <= b.len() && is_char_boundary(b, from) && is_char_boundary(b, to)
}

/// Encoding distributes over concatenation.
pub proof fn lemma_encode_concat(a: Seq<char>, b: Seq<char>)
    ensures
        encode_utf8(a + b) == encode_utf8(a) + encode_utf8(b),
    decreases a.len(),
{
    if a.len() == 0 {
        assert(a + b =~= b);
        assert(encode_utf8(a) + encode_utf8(b) =~= encode_utf8(b));
    } else {
        assert((a + b).drop_first() =~= a.drop_first() + b);
        lemma_encode_concat(a.drop_first(), b);
        assert(encode_utf8(a + b) =~= encode_utf8(a) + encode_utf8(b));
    }
}

/// Only the empty sequence has an empty encoding.
pub proof fn lemma_encode_empty(s: Seq<char>)
    ensures
        (encode_utf8(s).len() == 0) == (s.len() == 0),
{
    if s.len() > 0 {
        assert(encode_scalar(s[0] as u32).len() > 0);
    }
}

/// A boundary of a valid sequence that lies inside a prefix ending on a boundary is a
/// boundary of that prefix.
pub proof fn lemma_boundary_in_prefix(b: Seq<u8>, to: int, i: int)
    requires
        valid_utf8(b),
        is_char_boundary(b, to),
        is_char_boundary(b, i),
        0 <= i <= to <= b.len(),
    ensures
        valid_utf8(b.subrange(0, to)),
        is_char_boundary(b.subrange(0, to), i),
{
    valid_utf8_split(b, to);
    let p = b.subrange(0, to);
    is_char_boundary_start_end_of_seq(p);
    if 0 < i < to {
        is_char_boundary_iff_not_is_continuation_byte(b, i);
        is_char_boundary_iff_not_is_continuation_byte(p, i);
        assert(p[i] == b[i]);
    }
}

/// The part of `s` between byte offsets `from` and `to`, or `None` where these are out of
/// order, out of bounds, or not on character boundaries.
pub fn slice_str(s: &str, from: usize, to: usize) -> (r: Option<&str>)
    ensures
        r is Some <==> can_slice(s.spec_bytes(), from as int, to as int),
        r matches Some(t) ==> t.spec_bytes() == s.spec_bytes().subrange(from as int, to as int),
{
    let bytes = s.as_bytes();
    if from <= to && to <= bytes.len() && s.is_char_boundary(from) && s.is_char_boundary(to) {
        proof {
            encode_utf8_valid_utf8(s@);
            lemma_boundary_in_prefix(s.spec_bytes(), to as int, from as int);
        }
        let (head, _) = s.split_at(to);
        let (_, mid) = head.split_at(from);
        proof {
            assert(mid.spec_bytes() =~= s.spec_bytes().subrange(from as int, to as int));
        }
        Some(mid)
    } else {
        None
    }
}

/// Relies on `String::push_str`: appends the characters of `t`.
#[verifier::external_body]
pub(crate) fn push_str(s: &mut String, t: &str)
    ensures
        final(s)@ == old(s)@ + t@,
{
    s.push_str(t)
}

/// Relies on `String::push`: appends one character.
#[verifier::external_body]
pub(crate) fn push_char(s: &mut String, c: char)
    ensures
        final(s)@ == old(s)@.push(c),
{
    s.push(c)
}

/// Relies on `str::trim`: removes leading and trailing characters with the Unicode
/// `White_Space` property.
#[verifier::external_body]
pub(crate) fn trim(s: &str) -> (r: &str)
    ensures
        r@ == trim_ws(s@),
{
    s.trim()
}

/// The characters of `s`.
pub fn chars_of(s: &str) -> (r: Vec<char>)
    ensures
        r@ == s@,
{
    let mut out: Vec<char> = Vec::new();
    for c in it: s.chars()
        invariant
            it.seq() == s@,
            it.index() <= s@.len(),
            out@ == s@.take(it.index() as int),
    {
        proof {
            assert(c == s@[it.index() as int]);
            assert(s@.take(it.index() + 1) =~= out@.push(c));
        }
        out.push(c);
    }
    proof {
        assert(s@.take(s@.len() as int) =~= s@);
    }
    out
}

/// Appends the characters `from..to` of `v`.
pub fn push_chars(s: &mut String, v: &Vec<char>, from: usize, to: usize)
    requires
        from <= to <= v@.len(),
    ensures
        final(s)@ == old(s)@ + v@.subrange(from as int, to as int),
{
    let mut k: usize = from;
    while k < to
        invariant
            from <= k <= to <= v@.len(),
            s@ == old(s)@ + v@.subrange(from as int, k as int),
        decreases to - k,
    {
        push_char(s, v[k]);
        proof {
            assert(s@ =~= old(s)@ + v@.subrange(from as int, k + 1));
        }
        k = k + 1;
    }
}

} // verus!
