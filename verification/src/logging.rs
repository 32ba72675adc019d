//! What the request log shows of a body.
use crate::text::{from_chars_between, from_utf8_lossy, to_chars, utf8_lossy};
use vstd::prelude::*;

verus! {

/// The characters of a body that the log shows.
pub const SHOWN_CHARS: usize = 4000;

/// The longest body that is read for the log, in bytes.
pub const MAX_BODY_BYTES: usize = 8_388_608;

/// `s`, cut behind `max` characters with a remark where it is longer.
pub open spec fn cut(s: Seq<char>, max: int) -> Seq<char> {
    if s.len() <= max {
        s
    } else {
        s.take(max) + "... [truncated]"@
    }
}

/// `s`, cut behind `max` characters with a remark where it is longer.
pub fn truncate(s: &str, max: usize) -> (r: String)
    ensures
        r@ == cut(s@, max as int),
{
    let chars = to_chars(s);
    if chars.len() <= max {
        s.to_string()
    } else {
        let mut out = from_chars_between(&chars, 0, max);
        assert(out@ =~= s@.take(max as int));
        out.append("... [truncated]");
        out
    }
}

/// What the log shows of a body.
pub fn body_preview(body: &[u8]) -> (r: String)
    ensures
        r@ == cut(utf8_lossy(body@), SHOWN_CHARS as int),
{
    truncate(&from_utf8_lossy(body), SHOWN_CHARS)
}

/// What is no longer than the limit is shown as it is, and the rest of a longer text does not
/// change what is shown of it.
pub proof fn law_cut_shows_the_front(a: Seq<char>, b: Seq<char>, max: int)
    requires
        0 <= max,
        a.len() > max,
        b.len() > max,
        a.take(max) == b.take(max),
    ensures
        cut(a, max) == cut(b, max),
        cut(a.take(max), max) == a.take(max),
        a.take(max).is_prefix_of(cut(a, max)),
{
    assert(cut(a, max).take(max) =~= a.take(max));
}

} // verus!
