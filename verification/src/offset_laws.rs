//! What the offsets of a build do to its memory, stated on bytes and texts.
use crate::code_laws::bytes_match;
use crate::numbers::in_base;
use crate::offsets::{
    action_for, cookie_action, padded, padded_units, pattern_action, probe_of, short_name, shown,
    steps_of, url_action, url_steps, ActionView, OffsetsFile, PatternEntry, SecurityCookieEntry,
    Step, UrlEntry,
};
use crate::scan_patterns::pattern_at;
use crate::search::{lemma_next_occurrence, next_occurrence, occurs_at};
use crate::utf16::{units_bytes, utf16_bytes, utf16_units};
use vstd::prelude::*;
use vstd::utf8::encode_utf8;

verus! {

/// What is written in place of a text takes exactly the bytes that it has room for: the
/// replacement as far as it fits, and zeros behind it.
pub proof fn law_replacement_is_cut_or_padded(bytes: Seq<u8>, len: nat)
    ensures
        padded(bytes, len).len() == len,
        bytes.len() <= len ==> padded(bytes, len) == bytes + Seq::new(
            (len - bytes.len()) as nat,
            |i: int| 0u8,
        ),
        bytes.len() > len ==> padded(bytes, len) == bytes.take(len as int),
{
    if bytes.len() <= len {
        assert(padded(bytes, len) =~= bytes + Seq::new((len - bytes.len()) as nat, |i: int| 0u8));
    } else {
        assert(padded(bytes, len) =~= bytes.take(len as int));
    }
}

/// In UTF-16 whole units are written, low byte first, as far as they fit; the rest is zero.
pub proof fn law_units_are_cut_or_padded(units: Seq<u16>, len: nat, k: int)
    requires
        0 <= k,
    ensures
        padded_units(units, len).len() == len,
        2 * k + 1 < len ==> padded_units(units, len)[2 * k] + 0x100 * padded_units(units, len)[2 * k
            + 1] == (if k < units.len() {
            units[k] as int
        } else {
            0
        }),
        2 * k + 1 == len ==> padded_units(units, len)[2 * k] == 0,
{
    if 2 * k + 1 < len {
        assert((2 * k) / 2 == k && (2 * k + 1) / 2 == k);
        if k < units.len() {
            assert(units_bytes(units)[2 * k] == (units[k] % 256) as u8);
            assert(units_bytes(units)[2 * k + 1] == (units[k] / 256) as u8);
        }
    }
}

/// The bytes of a text as an entry's encoding has them: UTF-16 where it says so, else UTF-8.
pub open spec fn encoded(u: UrlEntry, text: Seq<char>) -> Seq<u8> {
    if u.encoding@ == "utf16"@ {
        utf16_bytes(text)
    } else {
        encode_utf8(text)
    }
}

/// A URL is looked for at its offset; where exactly its bytes stand, its replacement is written in
/// the bytes that it takes, cut or padded; anything else is left alone.
pub proof fn law_urls_are_written_where_they_stand(u: UrlEntry, actual: Seq<u8>)
    ensures
        actual == encoded(u, u.original@) <==> url_action(u, actual) is Write,
        actual != encoded(u, u.original@) <==> url_action(u, actual) is Skip,
        actual == encoded(u, u.original@) ==> {
            &&& url_action(u, actual) matches ActionView::Write(at, bytes, _, _)
            &&& at == u.rva
            &&& bytes.len() == u.length
            &&& u.encoding@ != "utf16"@ ==> bytes == padded(
                encode_utf8(u.replacement@),
                u.length as nat,
            )
            &&& u.encoding@ == "utf16"@ ==> bytes == padded_units(
                utf16_units(u.replacement@),
                u.length as nat,
            )
        },
{
    law_replacement_is_cut_or_padded(encode_utf8(u.replacement@), u.length as nat);
    law_units_are_cut_or_padded(utf16_units(u.replacement@), u.length as nat, 0);
}

/// A signature is acted on where every byte that its mask asks for stands at its place: a hook is
/// hooked, and a patch is written whole at its offset behind the place.
pub proof fn law_signatures_are_applied_where_they_stand(p: PatternEntry, actual: Seq<u8>)
    requires
        p.pattern_mask@.len() <= p.pattern_bytes@.len(),
        actual.len() == p.pattern_mask@.len(),
    ensures
        ({
            let stands = bytes_match(actual, p.pattern_bytes@, p.pattern_mask@, 0);
            let act = pattern_action(p, actual);
            &&& !stands <==> act is Skip
            &&& stands && p.kind@ == "hook"@ <==> act is Hook
            &&& stands && p.kind@ == "bytepatch"@ && p.patch_offset is Some && p.patch_bytes is Some
                ==> {
                &&& act matches ActionView::Write(at, bytes, _, _)
                &&& at == (p.rva + p.patch_offset->0) % 0x1_0000_0000_0000_0000
                &&& bytes == p.patch_bytes->0@
            }
            &&& act is Write ==> stands && p.kind@ == "bytepatch"@ && p.patch_offset is Some
                && p.patch_bytes is Some
        }),
{
    reveal_strlit("hook");
    reveal_strlit("bytepatch");
    assert("hook"@[0] == 'h' && "bytepatch"@[0] == 'b');
    let mask = p.pattern_mask@;
    let pattern = p.pattern_bytes@;
    if bytes_match(actual, pattern, mask, 0) {
        assert forall|k: int| 0 <= k < mask.len() implies #[trigger] mask[k] == 0x3f || (k
            < pattern.len() && actual[0 + k] == pattern[k]) by {
            let b = pattern[k];
        }
        assert(pattern_at(actual, pattern, mask, 0));
    }
    if pattern_at(actual, pattern, mask, 0) {
        assert forall|k: int| 0 <= k < mask.len() && mask[k] != 0x3f implies actual[0 + k]
            == #[trigger] pattern[k] by {
            assert(mask[k] != 0x3f);
        }
    }
}

/// The jump of the security cookie is patched where exactly its bytes stand, and left alone
/// otherwise.
pub proof fn law_cookie_is_written_where_it_stands(c: SecurityCookieEntry, actual: Seq<u8>)
    ensures
        actual == c.original_opcode@ ==> {
            &&& cookie_action(c, actual) matches ActionView::Write(at, bytes, _, _)
            &&& at == c.jz_rva
            &&& bytes == c.patch_bytes@
        },
        actual != c.original_opcode@ ==> cookie_action(c, actual) is Skip,
{
}

/// For each step the place of its entry is read, in the length of what is looked for there, and
/// the entry decides.
pub proof fn law_steps_read_their_places(f: OffsetsFile, i: usize, actual: Seq<u8>)
    ensures
        i < f.urls@.len() ==> probe_of(f, Step::Url(i)) == (
            f.urls@[i as int].rva as int,
            encoded(f.urls@[i as int], f.urls@[i as int].original@).len() as int,
        ) && action_for(f, Step::Url(i), actual) == url_action(f.urls@[i as int], actual),
        i < f.patterns@.len() ==> probe_of(f, Step::Pattern(i)) == (
            f.patterns@[i as int].rva as int,
            f.patterns@[i as int].pattern_mask@.len() as int,
        ) && action_for(f, Step::Pattern(i), actual) == pattern_action(
            f.patterns@[i as int],
            actual,
        ),
        f.security_cookie matches Some(c) ==> probe_of(f, Step::Cookie) == (
            c.jz_rva as int,
            c.original_opcode@.len() as int,
        ) && action_for(f, Step::Cookie, actual) == cookie_action(c, actual),
{
}

/// The place of a step in the order of the offsets: the URLs, the signatures, the cookie.
pub open spec fn rank(f: OffsetsFile, s: Step) -> int {
    match s {
        Step::Url(i) => i as int,
        Step::Pattern(i) => f.urls@.len() + i,
        Step::Cookie => (f.urls@.len() + f.patterns@.len()) as int,
    }
}

proof fn lemma_url_ranks(f: OffsetsFile, n: int)
    requires
        0 <= n <= f.urls@.len() <= usize::MAX,
    ensures
        forall|k: int|
            0 <= k < url_steps(f.urls@, n).len() ==> rank(
                f,
                #[trigger] url_steps(f.urls@, n)[k],
            ) < n && url_steps(f.urls@, n)[k] is Url,
        forall|a: int, b: int|
            0 <= a < b < url_steps(f.urls@, n).len() ==> rank(
                f,
                #[trigger] url_steps(f.urls@, n)[a],
            ) < rank(f, #[trigger] url_steps(f.urls@, n)[b]),
    decreases n,
{
    if n > 0 {
        lemma_url_ranks(f, n - 1);
    }
}

/// The steps come in the order of the offsets, each entry at most once.
pub proof fn law_steps_come_in_order(f: OffsetsFile, a: int, b: int)
    requires
        0 <= a < b < steps_of(f).len(),
    ensures
        rank(f, steps_of(f)[a]) < rank(f, steps_of(f)[b]),
{
    assert(f.urls@.len() == f.urls.len());
    assert(f.patterns@.len() == f.patterns.len());
    let urls = url_steps(f.urls@, f.urls@.len() as int);
    lemma_url_ranks(f, f.urls@.len() as int);
    let all = steps_of(f);
    if b < urls.len() {
        assert(all[a] == urls[a] && all[b] == urls[b]);
    } else {
        if a < urls.len() {
            assert(all[a] == urls[a]);
        }
    }
}

/// A number is shown in hexadecimal behind `0x`.
pub proof fn law_numbers_are_shown_in_hex(n: nat)
    ensures
        shown(n as int) == "0x"@ + in_base(n, 16),
{
}

/// Whether `://` stands in a text at `i`.
pub open spec fn mark_at(s: Seq<char>, i: int) -> bool {
    0 <= i && i + 3 <= s.len() && s[i] == ':' && s[i + 1] == '/' && s[i + 2] == '/'
}

/// Whether `://` stands nowhere in a text.
pub open spec fn no_scheme_mark(s: Seq<char>) -> bool {
    forall|i: int| !#[trigger] mark_at(s, i)
}

proof fn lemma_mark(s: Seq<char>, i: int)
    ensures
        occurs_at(s, "://"@, i) <==> mark_at(s, i),
        "://"@.len() == 3,
{
    reveal_strlit("://");
    let m = "://"@;
    if 0 <= i && i + 3 <= s.len() {
        let t = s.subrange(i, i + 3);
        assert(t[0] == s[i] && t[1] == s[i + 1] && t[2] == s[i + 2]);
        if mark_at(s, i) {
            assert(t =~= m);
        }
    }
}

/// A URL is named by at most 24 characters of what stands behind its scheme, up to a second mark
/// where there is one; a text without a scheme by its own.
pub proof fn law_urls_are_named_behind_their_scheme(a: Seq<char>, b: Seq<char>, c: Seq<char>)
    requires
        no_scheme_mark(a),
        no_scheme_mark(a + seq![':', '/']),
        no_scheme_mark(b),
        no_scheme_mark(b + seq![':', '/']),
    ensures
        short_name(a) == (if a.len() <= 24 {
            a
        } else {
            a.take(24)
        }),
        short_name(a + "://"@ + b) == (if b.len() <= 24 {
            b
        } else {
            b.take(24)
        }),
        short_name(a + "://"@ + b + "://"@ + c) == (if b.len() <= 24 {
            b
        } else {
            b.take(24)
        }),
{
    reveal_strlit("://");
    let m = "://"@;
    lemma_no_mark(a, 0);
    let x = a.len() as int;
    let y = x + 3 + b.len();
    let s = a + m + b;
    assert(s.subrange(0, 0 + x) =~= a);
    assert(mark_at(s, x));
    lemma_first_mark(s, a, 0);
    assert(s.subrange(x + 3, s.len() as int) =~= b);
    lemma_mark_free_tail(s, b, x + 3);
    let t = a + m + b + m + c;
    assert(t.subrange(0, 0 + x) =~= a);
    assert(mark_at(t, x));
    lemma_first_mark(t, a, 0);
    assert(t.subrange(x + 3, x + 3 + b.len()) =~= b);
    assert(t[y] == m[0] && t[y + 1] == m[1] && t[y + 2] == m[2]);
    lemma_first_mark(t, b, x + 3);
}

proof fn lemma_no_mark(s: Seq<char>, from: int)
    requires
        no_scheme_mark(s),
        0 <= from,
    ensures
        next_occurrence(s, "://"@, from) is None,
{
    lemma_next_occurrence(s, "://"@, from);
    if let Some(i) = next_occurrence(s, "://"@, from) {
        lemma_mark(s, i);
        assert(!mark_at(s, i));
    }
}

/// A mark in a text that is the end of another stands there too.
proof fn lemma_mark_moved(s: Seq<char>, t: Seq<char>, i: int, d: int)
    requires
        mark_at(s, i),
        d <= i,
        i + 3 <= d + t.len(),
        0 <= d,
        d + t.len() <= s.len(),
        s.subrange(d, d + t.len()) == t,
    ensures
        mark_at(t, i - d),
{
    let u = s.subrange(d, d + t.len());
    assert(u[i - d] == s[i] && u[i - d + 1] == s[i + 1] && u[i - d + 2] == s[i + 2]);
}

/// In a text with `part` at `from` and a mark directly behind it, the first mark from `from` on
/// stands behind the part.
proof fn lemma_first_mark(s: Seq<char>, part: Seq<char>, from: int)
    requires
        0 <= from,
        from + part.len() + 3 <= s.len(),
        s.subrange(from, from + part.len()) == part,
        mark_at(s, from + part.len()),
        no_scheme_mark(part + seq![':', '/']),
    ensures
        next_occurrence(s, "://"@, from) == Some(from + part.len()),
{
    let x = from + part.len();
    lemma_next_occurrence(s, "://"@, from);
    lemma_mark(s, x);
    let i = next_occurrence(s, "://"@, from)->0;
    if i < x {
        lemma_mark(s, i);
        let e = part + seq![':', '/'];
        let u = s.subrange(from, from + e.len());
        assert(u =~= e) by {
            assert forall|k: int| 0 <= k < e.len() implies u[k] == e[k] by {
                if k < part.len() {
                    assert(s.subrange(from, from + part.len())[k] == part[k]);
                }
            }
        }
        lemma_mark_moved(s, e, i, from);
        assert(!mark_at(e, i - from));
    }
}

proof fn lemma_mark_free_tail(s: Seq<char>, b: Seq<char>, from: int)
    requires
        0 <= from,
        from + b.len() == s.len(),
        s.subrange(from, s.len() as int) == b,
        no_scheme_mark(b),
    ensures
        next_occurrence(s, "://"@, from) is None,
{
    lemma_next_occurrence(s, "://"@, from);
    if let Some(i) = next_occurrence(s, "://"@, from) {
        lemma_mark(s, i);
        lemma_mark_moved(s, b, i, from);
        assert(!mark_at(b, i - from));
    }
}

/// What is said of a URL, a signature and the cookie names the place, and for a URL what became of
/// it.
pub proof fn law_messages_name_the_place(
    u: UrlEntry,
    p: PatternEntry,
    c: SecurityCookieEntry,
    actual: Seq<u8>,
)
    ensures
        match url_action(u, actual) {
            ActionView::Skip(text) => text == "SKIP URL at rva 0x"@ + in_base(u.rva as nat, 16)
                + ": original not found (stale offsets?)"@,
            ActionView::Write(_, _, done, failed) => done == "Patched URL "@ + short_name(
                u.original@,
            ) + " -> "@ + u.replacement@ + " at 0x"@ + in_base(u.rva as nat, 16) && failed
                == "Failed to patch URL at rva 0x"@ + in_base(u.rva as nat, 16),
            _ => false,
        },
        match pattern_action(p, actual) {
            ActionView::Skip(text) => text == "SKIP "@ + p.name@ + " at rva 0x"@ + in_base(
                p.rva as nat,
                16,
            ) + ": pattern mismatch (stale offsets?)"@,
            ActionView::Write(_, _, done, failed) => done == "Patched "@ + p.name@ + " at rva 0x"@
                + in_base(p.rva as nat, 16) + " (+0x"@ + in_base(p.patch_offset->0 as nat, 16)
                + ")"@ && failed == "Failed to patch "@ + p.name@ + " at rva 0x"@ + in_base(
                p.rva as nat,
                16,
            ),
            _ => true,
        },
        match cookie_action(c, actual) {
            ActionView::Skip(text) => text == "SKIP security cookie at rva 0x"@ + in_base(
                c.jz_rva as nat,
                16,
            ) + ": opcode mismatch (stale offsets?)"@,
            ActionView::Write(_, _, done, failed) => done == "Patched security cookie JZ at rva 0x"@
                + in_base(c.jz_rva as nat, 16) && failed
                == "Failed to patch security cookie at rva 0x"@ + in_base(c.jz_rva as nat, 16),
            _ => false,
        },
{
    reveal_strlit("0x");
    reveal_strlit("SKIP URL at rva ");
    reveal_strlit("SKIP URL at rva 0x");
    assert("SKIP URL at rva 0x"@ =~= "SKIP URL at rva "@ + "0x"@);
    reveal_strlit(" at ");
    reveal_strlit(" at 0x");
    assert(" at 0x"@ =~= " at "@ + "0x"@);
    reveal_strlit("Failed to patch URL at rva ");
    reveal_strlit("Failed to patch URL at rva 0x");
    assert("Failed to patch URL at rva 0x"@ =~= "Failed to patch URL at rva "@ + "0x"@);
    reveal_strlit(" at rva ");
    reveal_strlit(" at rva 0x");
    assert(" at rva 0x"@ =~= " at rva "@ + "0x"@);
    reveal_strlit(" (+");
    reveal_strlit(" (+0x");
    assert(" (+0x"@ =~= " (+"@ + "0x"@);
    reveal_strlit("SKIP security cookie at rva ");
    reveal_strlit("SKIP security cookie at rva 0x");
    assert("SKIP security cookie at rva 0x"@ =~= "SKIP security cookie at rva "@ + "0x"@);
    reveal_strlit("Patched security cookie JZ at rva ");
    reveal_strlit("Patched security cookie JZ at rva 0x");
    assert("Patched security cookie JZ at rva 0x"@ =~= "Patched security cookie JZ at rva "@
        + "0x"@);
    reveal_strlit("Failed to patch security cookie at rva ");
    reveal_strlit("Failed to patch security cookie at rva 0x");
    assert("Failed to patch security cookie at rva 0x"@
        =~= "Failed to patch security cookie at rva "@ + "0x"@);
    let ru = in_base(u.rva as nat, 16);
    let rp = in_base(p.rva as nat, 16);
    let rc = in_base(c.jz_rva as nat, 16);
    match url_action(u, actual) {
        ActionView::Skip(text) => {
            assert(text =~= "SKIP URL at rva 0x"@ + ru
                + ": original not found (stale offsets?)"@);
        },
        ActionView::Write(_, _, done, failed) => {
            assert(done =~= "Patched URL "@ + short_name(u.original@) + " -> "@ + u.replacement@
                + " at 0x"@ + ru);
            assert(failed =~= "Failed to patch URL at rva 0x"@ + ru);
        },
        _ => {},
    }
    match pattern_action(p, actual) {
        ActionView::Skip(text) => {
            assert(text =~= "SKIP "@ + p.name@ + " at rva 0x"@ + rp
                + ": pattern mismatch (stale offsets?)"@);
        },
        ActionView::Write(_, _, done, failed) => {
            let ro = in_base(p.patch_offset->0 as nat, 16);
            assert(done =~= "Patched "@ + p.name@ + " at rva 0x"@ + rp + " (+0x"@ + ro + ")"@);
            assert(failed =~= "Failed to patch "@ + p.name@ + " at rva 0x"@ + rp);
        },
        _ => {},
    }
    match cookie_action(c, actual) {
        ActionView::Skip(text) => {
            assert(text =~= "SKIP security cookie at rva 0x"@ + rc
                + ": opcode mismatch (stale offsets?)"@);
        },
        ActionView::Write(_, _, done, failed) => {
            assert(done =~= "Patched security cookie JZ at rva 0x"@ + rc);
            assert(failed =~= "Failed to patch security cookie at rva 0x"@ + rc);
        },
        _ => {},
    }
}

} // verus!
