//! Finding a run of items inside a longer run.
use vstd::prelude::*;

verus! {

/// Whether `p` stands in `s` at index `i`.
pub open spec fn occurs_at<T>(s: Seq<T>, p: Seq<T>, i: int) -> bool {
    0 <= i && i + p.len() <= s.len() && s.subrange(i, i + p.len()) == p
}

/// The first index at or after `from` at which `p` stands in `s`.
pub open spec fn next_occurrence<T>(s: Seq<T>, p: Seq<T>, from: int) -> Option<int>
    decreases s.len() + 1 - from,
{
    if from < 0 || from + p.len() > s.len() {
        None
    } else if occurs_at(s, p, from) {
        Some(from)
    } else {
        next_occurrence(s, p, from + 1)
    }
}

/// The indices at which `p` stands in `s` from `from` on, each taken after the
/// end of the one before it.
pub open spec fn occurrences<T>(s: Seq<T>, p: Seq<T>, from: int) -> Seq<int>
    decreases s.len() - from,
{
    proof {
        lemma_next_occurrence(s, p, from);
    }
    match next_occurrence(s, p, from) {
        Some(i) if p.len() > 0 => seq![i] + occurrences(s, p, i + p.len()),
        _ => Seq::empty(),
    }
}

/// An index of an item as a mathematical integer.
pub open spec fn as_int(o: Option<usize>) -> Option<int> {
    match o {
        Some(i) => Some(i as int),
        None => None,
    }
}

/// Indices of items as mathematical integers.
pub open spec fn as_ints(s: Seq<usize>) -> Seq<int> {
    s.map_values(|i: usize| i as int)
}

/// What `next_occurrence` gives is an occurrence, and no earlier one was passed over;
/// where it gives nothing, there is none.
pub proof fn lemma_next_occurrence<T>(s: Seq<T>, p: Seq<T>, from: int)
    ensures
        match next_occurrence(s, p, from) {
            Some(i) => from <= i && occurs_at(s, p, i) && forall|j: int|
                from <= j < i ==> !#[trigger] occurs_at(s, p, j),
            None => from >= 0 ==> forall|j: int| from <= j ==> !#[trigger] occurs_at(s, p, j),
        },
    decreases s.len() + 1 - from,
{
    if from < 0 || from + p.len() > s.len() {
    } else if occurs_at(s, p, from) {
    } else {
        lemma_next_occurrence(s, p, from + 1);
    }
}

/// Every index in `occurrences` is an occurrence at or after `from`.
pub proof fn lemma_occurrences<T>(s: Seq<T>, p: Seq<T>, from: int)
    ensures
        forall|k: int|
            0 <= k < occurrences(s, p, from).len() ==> from <= #[trigger] occurrences(
                s,
                p,
                from,
            )[k] && occurs_at(s, p, occurrences(s, p, from)[k]),
    decreases s.len() - from,
{
    lemma_next_occurrence(s, p, from);
    if let Some(i) = next_occurrence(s, p, from) {
        if p.len() > 0 {
            let rest = occurrences(s, p, i + p.len());
            lemma_occurrences(s, p, i + p.len());
            assert forall|k: int| 0 <= k < occurrences(s, p, from).len() implies from
                <= #[trigger] occurrences(s, p, from)[k] && occurs_at(
                s,
                p,
                occurrences(s, p, from)[k],
            ) by {
                if k > 0 {
                    assert(occurrences(s, p, from)[k] == rest[k - 1]);
                }
            }
        }
    }
}

/// Whether the bytes `needle` stand in `buf` at `i`.
pub fn bytes_at(buf: &[u8], needle: &[u8], i: usize) -> (r: bool)
    ensures
        r == occurs_at(buf@, needle@, i as int),
{
    if needle.len() > buf.len() || i > buf.len() - needle.len() {
        return false;
    }
    let mut k: usize = 0;
    while k < needle.len()
        invariant
            k <= needle.len(),
            i + needle.len() <= buf.len(),
            forall|j: int| 0 <= j < k ==> buf@[i + j] == needle@[j],
        decreases needle.len() - k,
    {
        if buf[i + k] != needle[k] {
            assert(buf@.subrange(i as int, i + needle@.len())[k as int] != needle@[k as int]);
            return false;
        }
        k += 1;
    }
    assert(buf@.subrange(i as int, i + needle@.len()) =~= needle@);
    true
}

/// Whether the bytes are the same.
pub fn same_bytes(a: &[u8], b: &[u8]) -> (r: bool)
    ensures
        r == (a@ == b@),
{
    if a.len() != b.len() {
        return false;
    }
    for i in 0..a.len()
        invariant
            a@.len() == b@.len(),
            forall|k: int| 0 <= k < i ==> a@[k] == b@[k],
    {
        if a[i] != b[i] {
            return false;
        }
    }
    assert(a@ =~= b@);
    true
}

/// The first offset at or after `from` at which the bytes `needle` stand in `buf`.
pub fn find_bytes(buf: &[u8], needle: &[u8], from: usize) -> (r: Option<usize>)
    ensures
        as_int(r) == next_occurrence(buf@, needle@, from as int),
{
    let mut i: usize = from;
    while needle.len() <= buf.len() && i <= buf.len() - needle.len()
        invariant
            from <= i,
            next_occurrence(buf@, needle@, from as int) == next_occurrence(
                buf@,
                needle@,
                i as int,
            ),
        decreases buf.len() - i,
    {
        if bytes_at(buf, needle, i) {
            return Some(i);
        }
        if i == buf.len() {
            assert(next_occurrence(buf@, needle@, i + 1) is None);
            return None;
        }
        i += 1;
    }
    None
}

/// The offsets at which the bytes `needle` stand in `buf`, each taken after the end of
/// the one before it.
pub fn all_occurrences(buf: &[u8], needle: &[u8]) -> (out: Vec<usize>)
    ensures
        as_ints(out@) == occurrences(buf@, needle@, 0),
{
    let mut out: Vec<usize> = Vec::new();
    let mut from: usize = 0;
    if needle.len() == 0 {
        assert(as_ints(out@) =~= occurrences(buf@, needle@, 0));
        return out;
    }
    loop
        invariant
            needle@.len() > 0,
            from <= buf@.len(),
            occurrences(buf@, needle@, 0) =~= as_ints(out@) + occurrences(
                buf@,
                needle@,
                from as int,
            ),
        decreases buf.len() - from,
    {
        proof {
            lemma_next_occurrence(buf@, needle@, from as int);
        }
        match find_bytes(buf, needle, from) {
            Some(i) => {
                let ghost before = as_ints(out@);
                out.push(i);
                assert(as_ints(out@) =~= before.push(i as int));
                from = i + needle.len();
            },
            None => {
                return out;
            },
        }
    }
}

/// Whether the characters `needle` stand in `s` at `i`.
pub fn chars_at(s: &[char], needle: &[char], i: usize) -> (r: bool)
    ensures
        r == occurs_at(s@, needle@, i as int),
{
    if needle.len() > s.len() || i > s.len() - needle.len() {
        return false;
    }
    let mut k: usize = 0;
    while k < needle.len()
        invariant
            k <= needle.len(),
            i + needle.len() <= s.len(),
            forall|j: int| 0 <= j < k ==> s@[i + j] == needle@[j],
        decreases needle.len() - k,
    {
        if s[i + k] != needle[k] {
            assert(s@.subrange(i as int, i + needle@.len())[k as int] != needle@[k as int]);
            return false;
        }
        k += 1;
    }
    assert(s@.subrange(i as int, i + needle@.len()) =~= needle@);
    true
}

/// The first index at or after `from` at which the characters `needle` stand in `s`.
pub fn find_chars(s: &[char], needle: &[char], from: usize) -> (r: Option<usize>)
    ensures
        as_int(r) == next_occurrence(s@, needle@, from as int),
{
    let mut i: usize = from;
    while needle.len() <= s.len() && i <= s.len() - needle.len()
        invariant
            from <= i,
            next_occurrence(s@, needle@, from as int) == next_occurrence(
                s@,
                needle@,
                i as int,
            ),
        decreases s.len() - i,
    {
        if chars_at(s, needle, i) {
            return Some(i);
        }
        if i == s.len() {
            assert(next_occurrence(s@, needle@, i + 1) is None);
            return None;
        }
        i += 1;
    }
    None
}

} // verus!
