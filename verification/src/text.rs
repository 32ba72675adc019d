//! Strings as sequences of characters.
use crate::search::{chars_at, find_chars, next_occurrence};
use vstd::prelude::*;
use vstd::utf8::{decode_utf8, is_ascii_chars, valid_utf8};

verus! {

/// `String::push`: appends one character at the end.
pub assume_specification[ String::push ](s: &mut String, c: char)
    ensures
        final(s)@ == old(s)@.push(c),
;

/// What `str::to_lowercase` makes of a string.
pub uninterp spec fn lowercase(s: Seq<char>) -> Seq<char>;

/// What `String::from_utf8_lossy` makes of bytes.
pub uninterp spec fn utf8_lossy(bytes: Seq<u8>) -> Seq<char>;

/// An ASCII capital as its small letter, any other character as it is.
pub open spec fn ascii_lower(c: char) -> char {
    if 'A' <= c <= 'Z' {
        (c as int + 32) as char
    } else {
        c
    }
}

/// Whether `part` stands anywhere in `s`.
pub open spec fn has_part(s: Seq<char>, part: Seq<char>) -> bool {
    next_occurrence(s, part, 0) is Some
}

/// The characters with the Unicode property `White_Space`.
pub open spec fn is_white_space(c: char) -> bool {
    ||| 0x09 <= c as u32 <= 0x0d
    ||| c as u32 == 0x20
    ||| c as u32 == 0x85
    ||| c as u32 == 0xa0
    ||| c as u32 == 0x1680
    ||| 0x2000 <= c as u32 <= 0x200a
    ||| c as u32 == 0x2028
    ||| c as u32 == 0x2029
    ||| c as u32 == 0x202f
    ||| c as u32 == 0x205f
    ||| c as u32 == 0x3000
}

/// `s` without the white space in front.
pub open spec fn trim_front(s: Seq<char>) -> Seq<char>
    decreases s.len(),
{
    if s.len() > 0 && is_white_space(s.first()) {
        trim_front(s.drop_first())
    } else {
        s
    }
}

/// `s` without the white space at the end.
pub open spec fn trim_back(s: Seq<char>) -> Seq<char>
    decreases s.len(),
{
    if s.len() > 0 && is_white_space(s.last()) {
        trim_back(s.drop_last())
    } else {
        s
    }
}

/// `s` without the white space around it.
pub open spec fn trimmed(s: Seq<char>) -> Seq<char> {
    trim_back(trim_front(s))
}

/// The index of the first `c` in `s` at or after `from`, or the length of `s`.
pub open spec fn index_of(s: Seq<char>, c: char, from: int) -> int
    decreases s.len() - from,
{
    if from < 0 || from >= s.len() {
        s.len() as int
    } else if s[from] == c {
        from
    } else {
        index_of(s, c, from + 1)
    }
}

/// The view of each item.
pub open spec fn views<T: View>(s: Seq<T>) -> Seq<T::V> {
    s.map_values(|x: T| x@)
}

/// The view of an optional item.
pub open spec fn opt_view<T: View>(o: Option<T>) -> Option<T::V> {
    match o {
        Some(x) => Some(x@),
        None => None,
    }
}

/// `str::to_lowercase`: its result depends on the characters alone, and on ASCII text
/// it is the text with its capitals as small letters. What it makes of other
/// characters is left to its name.
#[verifier::external_body]
pub(crate) fn to_lowercase(s: &str) -> (r: String)
    ensures
        r@ == lowercase(s@),
        is_ascii_chars(s@) ==> r@ == s@.map_values(|c: char| ascii_lower(c)),
{
    s.to_lowercase()
}

/// `String::from_utf8_lossy`: its result depends on the bytes alone, and valid UTF-8
/// comes out decoded. How invalid bytes are replaced is left to its name.
#[verifier::external_body]
pub(crate) fn from_utf8_lossy(bytes: &[u8]) -> (r: String)
    ensures
        r@ == utf8_lossy(bytes@),
        valid_utf8(bytes@) ==> r@ == decode_utf8(bytes@),
{
    String::from_utf8_lossy(bytes).into_owned()
}

/// The characters of `s`, in order.
pub fn to_chars(s: &str) -> (out: Vec<char>)
    ensures
        out@ == s@,
{
    let mut out: Vec<char> = Vec::new();
    for c in it: s.chars()
        invariant
            out@ == it.seq().take(it.index() as int),
            it.seq() == s@,
    {
        out.push(c);
    }
    out
}

/// The string of the characters of `chars` from `from` up to `to`.
pub fn from_chars_between(chars: &[char], from: usize, to: usize) -> (out: String)
    requires
        from <= to <= chars@.len(),
    ensures
        out@ == chars@.subrange(from as int, to as int),
{
    let mut out = String::new();
    for i in from..to
        invariant
            from <= to <= chars@.len(),
            out@ == chars@.subrange(from as int, i as int),
    {
        out.push(chars[i]);
    }
    out
}

/// Whether `a` and `b` are the same text.
pub fn same_text(a: &str, b: &str) -> (r: bool)
    ensures
        r == (a@ == b@),
{
    let x = to_chars(a);
    let y = to_chars(b);
    if x.len() != y.len() {
        return false;
    }
    let r = chars_at(&x, &y, 0);
    assert(x@.subrange(0, x@.len() as int) =~= x@);
    r
}

/// `a` followed by `b`.
pub fn join(a: &str, b: &str) -> (r: String)
    ensures
        r@ == a@ + b@,
{
    let mut r = a.to_string();
    r.append(b);
    r
}

/// Whether `s` begins with `prefix`.
pub fn begins_with(s: &str, prefix: &str) -> (r: bool)
    ensures
        r == prefix@.is_prefix_of(s@),
{
    let x = to_chars(s);
    let y = to_chars(prefix);
    chars_at(&x, &y, 0)
}

/// Whether `s` ends with `suffix`.
pub fn ends_with(s: &str, suffix: &str) -> (r: bool)
    ensures
        r == suffix@.is_suffix_of(s@),
{
    let x = to_chars(s);
    let y = to_chars(suffix);
    if y.len() > x.len() {
        return false;
    }
    chars_at(&x, &y, x.len() - y.len())
}

/// Whether `part` stands anywhere in `s`.
pub fn contains_text(s: &str, part: &str) -> (r: bool)
    ensures
        r == has_part(s@, part@),
{
    let x = to_chars(s);
    let y = to_chars(part);
    find_chars(&x, &y, 0).is_some()
}

/// The index of the first `c` in `s` at or after `from`, or the length of `s`.
pub fn find_char(s: &[char], c: char, from: usize) -> (r: usize)
    ensures
        r == index_of(s@, c, from as int),
        r <= s@.len(),
        from <= s@.len() ==> from <= r,
        forall|j: int| from <= j < r ==> s@[j] != c,
        r < s@.len() ==> s@[r as int] == c,
{
    let mut i: usize = from;
    while i < s.len()
        invariant
            from <= i,
            from <= s@.len() ==> i <= s@.len(),
            index_of(s@, c, from as int) == index_of(s@, c, i as int),
            forall|j: int| from <= j < i ==> s@[j] != c,
        decreases s.len() - i,
    {
        if s[i] == c {
            return i;
        }
        i += 1;
    }
    s.len()
}

/// Whether `c` has the Unicode property `White_Space`.
pub fn white_space(c: char) -> (r: bool)
    ensures
        r == is_white_space(c),
{
    let u = c as u32;
    (0x09 <= u && u <= 0x0d) || u == 0x20 || u == 0x85 || u == 0xa0 || u == 0x1680 || (0x2000 <= u
        && u <= 0x200a) || u == 0x2028 || u == 0x2029 || u == 0x202f || u == 0x205f || u == 0x3000
}

/// `s` without the white space around it.
pub fn trim(s: &str) -> (r: String)
    ensures
        r@ == trimmed(s@),
{
    let x = to_chars(s);
    let mut from: usize = 0;
    assert(x@.subrange(0, x@.len() as int) =~= x@);
    while from < x.len() && white_space(x[from])
        invariant
            from <= x@.len(),
            trim_front(x@) == trim_front(x@.subrange(from as int, x@.len() as int)),
        decreases x.len() - from,
    {
        assert(x@.subrange(from as int, x@.len() as int).drop_first() =~= x@.subrange(
            from + 1,
            x@.len() as int,
        ));
        from += 1;
    }
    let mut to: usize = x.len();
    while from < to && white_space(x[to - 1])
        invariant
            from <= to <= x@.len(),
            trimmed(x@) == trim_back(x@.subrange(from as int, to as int)),
        decreases to,
    {
        assert(x@.subrange(from as int, to as int).drop_last() =~= x@.subrange(
            from as int,
            to - 1,
        ));
        to -= 1;
    }
    from_chars_between(&x, from, to)
}

/// Trimmed text neither begins nor ends with white space, and trimming it again changes nothing.
pub proof fn law_trimmed_text_is_trim(s: Seq<char>)
    ensures
        trimmed(s).len() > 0 ==> !is_white_space(trimmed(s).first()) && !is_white_space(
            trimmed(s).last(),
        ),
        trimmed(trimmed(s)) == trimmed(s),
{
    lemma_trim_front(s);
    lemma_trim_back(trim_front(s));
}

proof fn lemma_trim_front(s: Seq<char>)
    ensures
        trim_front(s).len() > 0 ==> !is_white_space(trim_front(s).first()),
    decreases s.len(),
{
    if s.len() > 0 && is_white_space(s.first()) {
        lemma_trim_front(s.drop_first());
    }
}

proof fn lemma_trim_back(s: Seq<char>)
    ensures
        trim_back(s).len() > 0 ==> !is_white_space(trim_back(s).last()),
        trim_back(s).len() > 0 ==> trim_back(s).first() == s.first(),
        trim_back(s).len() <= s.len(),
    decreases s.len(),
{
    if s.len() > 0 && is_white_space(s.last()) {
        lemma_trim_back(s.drop_last());
    }
}

} // verus!
