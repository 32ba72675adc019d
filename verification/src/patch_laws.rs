//! What holds of patching: what changes in memory, and what does not.
use crate::code::wrap;
use crate::cookie::{
    chain, cookie_entry, cookie_text, instr_at, instrs_at, is_je, jnz_bytes, jz_back, jz_before,
    jz_from, last_guarded, security_cookie, CookieView, Decoded,
};
use crate::offsets::{
    action_for, cookie_action, is_step, original_of, probe_of, steps_of, url_steps, ActionView,
    OffsetsFile, SecurityCookieEntry, Step,
};
use crate::scan_patterns::pattern_at;
use crate::scan_trust::{next_xref, wide_lea_to};
use crate::search::{lemma_next_occurrence, next_occurrence, occurs_at};
use vstd::prelude::*;
use vstd::utf8::encode_utf8;

verus! {

/// The memory of an image with bytes written at an offset, where they fit.
pub open spec fn written(mem: Seq<u8>, at: int, bytes: Seq<u8>) -> Seq<u8> {
    if 0 <= at && at + bytes.len() <= mem.len() {
        Seq::new(
            mem.len(),
            |i: int|
                if at <= i < at + bytes.len() {
                    bytes[i - at]
                } else {
                    mem[i]
                },
        )
    } else {
        mem
    }
}

/// The bytes that a step reads.
pub open spec fn read_for(f: OffsetsFile, s: Step, mem: Seq<u8>) -> Seq<u8> {
    mem.subrange(probe_of(f, s).0, probe_of(f, s).0 + probe_of(f, s).1)
}

/// The memory of an image after a step, when every write succeeds; a place outside the image is
/// left alone.
pub open spec fn after_step(f: OffsetsFile, s: Step, mem: Seq<u8>) -> Seq<u8> {
    if probe_of(f, s).0 + probe_of(f, s).1 > mem.len() {
        mem
    } else {
        match action_for(f, s, read_for(f, s, mem)) {
            ActionView::Write(at, bytes, _, _) => written(mem, at, bytes),
            _ => mem,
        }
    }
}

/// The memory of an image after steps, one after the other.
pub open spec fn after_steps(f: OffsetsFile, steps: Seq<Step>, mem: Seq<u8>) -> Seq<u8>
    decreases steps.len(),
{
    if steps.len() == 0 {
        mem
    } else {
        after_step(f, steps.last(), after_steps(f, steps.drop_last(), mem))
    }
}

/// Whether the place of a step holds what the offsets say.
pub open spec fn place_holds(f: OffsetsFile, s: Step, mem: Seq<u8>) -> bool {
    &&& probe_of(f, s).0 + probe_of(f, s).1 <= mem.len()
    &&& match s {
        Step::Url(i) => read_for(f, s, mem) == original_of(f.urls@[i as int]),
        Step::Pattern(i) => pattern_at(
            read_for(f, s, mem),
            f.patterns@[i as int].pattern_bytes@,
            f.patterns@[i as int].pattern_mask@,
            0,
        ),
        Step::Cookie => read_for(f, s, mem) == f.security_cookie->0.original_opcode@,
    }
}

/// The range of offsets that a step may write: its start and its length.
pub open spec fn range_of(f: OffsetsFile, s: Step) -> (int, int) {
    match s {
        Step::Url(i) => (f.urls@[i as int].rva as int, f.urls@[i as int].length as int),
        Step::Pattern(i) => match (
            f.patterns@[i as int].patch_offset,
            f.patterns@[i as int].patch_bytes,
        ) {
            (Some(o), Some(b)) => (wrap(f.patterns@[i as int].rva + o), b@.len() as int),
            _ => (0, 0),
        },
        Step::Cookie => (
            f.security_cookie->0.jz_rva as int,
            f.security_cookie->0.patch_bytes@.len() as int,
        ),
    }
}

/// A place that does not hold what the offsets say is left as it is.
pub proof fn law_stale_place_is_left(f: OffsetsFile, s: Step, mem: Seq<u8>)
    requires
        is_step(f, s),
        !place_holds(f, s, mem),
    ensures
        after_step(f, s, mem) == mem,
{
}

/// Offsets of another build, no place of which holds what they say, change nothing.
pub proof fn law_stale_offsets_change_nothing(f: OffsetsFile, steps: Seq<Step>, mem: Seq<u8>)
    requires
        forall|k: int|
            0 <= k < steps.len() ==> is_step(f, #[trigger] steps[k]) && !place_holds(
                f,
                steps[k],
                mem,
            ),
    ensures
        after_steps(f, steps, mem) == mem,
    decreases steps.len(),
{
    if steps.len() > 0 {
        assert forall|k: int| 0 <= k < steps.drop_last().len() implies is_step(
            f,
            #[trigger] steps.drop_last()[k],
        ) && !place_holds(f, steps.drop_last()[k], mem) by {
            assert(steps.drop_last()[k] == steps[k]);
        }
        law_stale_offsets_change_nothing(f, steps.drop_last(), mem);
        assert(is_step(f, steps[steps.len() - 1]));
        law_stale_place_is_left(f, steps.last(), mem);
    }
}

/// A step changes nothing outside the range that it may write, and never the size of the image.
pub proof fn law_step_keeps_the_rest(f: OffsetsFile, s: Step, mem: Seq<u8>, i: int)
    requires
        is_step(f, s),
        0 <= i < mem.len(),
        !(range_of(f, s).0 <= i < range_of(f, s).0 + range_of(f, s).1),
    ensures
        after_step(f, s, mem).len() == mem.len(),
        after_step(f, s, mem)[i] == mem[i],
{
}

/// Patching changes nothing outside the ranges that its steps may write, and never the size of
/// the image.
pub proof fn law_patching_keeps_the_rest(f: OffsetsFile, steps: Seq<Step>, mem: Seq<u8>, i: int)
    requires
        0 <= i < mem.len(),
        forall|k: int|
            0 <= k < steps.len() ==> is_step(f, #[trigger] steps[k]) && !(range_of(f, steps[k]).0
                <= i < range_of(f, steps[k]).0 + range_of(f, steps[k]).1),
    ensures
        after_steps(f, steps, mem).len() == mem.len(),
        after_steps(f, steps, mem)[i] == mem[i],
    decreases steps.len(),
{
    if steps.len() > 0 {
        let front = steps.drop_last();
        assert forall|k: int| 0 <= k < front.len() implies is_step(f, #[trigger] front[k]) && !(
        range_of(f, front[k]).0 <= i < range_of(f, front[k]).0 + range_of(f, front[k]).1) by {
            assert(front[k] == steps[k]);
        }
        law_patching_keeps_the_rest(f, front, mem, i);
        assert(is_step(f, steps[steps.len() - 1]));
        law_step_keeps_the_rest(f, steps.last(), after_steps(f, front, mem), i);
    }
}

/// A URL that is to be skipped has no step, and every other entry of the offsets has one.
pub proof fn law_steps_are_the_entries(f: OffsetsFile, s: Step)
    ensures
        steps_of(f).contains(s) <==> is_step(f, s) && match s {
            Step::Url(i) => !f.urls@[i as int].skipped,
            _ => true,
        },
{
    let urls = url_steps(f.urls@, f.urls@.len() as int);
    let patterns = Seq::new(f.patterns@.len(), |i: int| Step::Pattern(i as usize));
    let all = steps_of(f);
    assert(f.urls@.len() == f.urls.len());
    assert(f.patterns@.len() == f.patterns.len());
    lemma_url_steps(f, f.urls@.len() as int, s);
    if all.contains(s) {
        let k = choose|k: int| 0 <= k < all.len() && all[k] == s;
        if k < urls.len() {
            assert(urls[k] == s);
        } else if k < urls.len() + patterns.len() {
            assert(patterns[k - urls.len()] == s);
        }
    }
    match s {
        Step::Url(_) => {
            if urls.contains(s) {
                let k = choose|k: int| 0 <= k < urls.len() && urls[k] == s;
                assert(all[k] == s);
            }
        },
        Step::Pattern(i) => {
            if is_step(f, s) {
                assert(all[urls.len() + i] == s);
            }
        },
        Step::Cookie => {
            if is_step(f, s) {
                assert(all[all.len() - 1] == s);
            }
        },
    }
}

proof fn lemma_url_steps(f: OffsetsFile, n: int, s: Step)
    requires
        0 <= n <= f.urls@.len() <= usize::MAX,
    ensures
        url_steps(f.urls@, n).contains(s) <==> match s {
            Step::Url(i) => i < n && !f.urls@[i as int].skipped,
            _ => false,
        },
    decreases n,
{
    if n > 0 {
        lemma_url_steps(f, n - 1, s);
        let before = url_steps(f.urls@, n - 1);
        let step = Step::Url((n - 1) as usize);
        if before.contains(s) {
            let k = choose|k: int| 0 <= k < before.len() && before[k] == s;
            assert(before.push(step)[k] == s);
        }
        assert(before.push(step).last() == step);
    }
}

/// What holds of a chain of instructions: it begins at `pos`, each one begins where the one
/// before it ends, the last ends at `stop`, and all lie inside the image.
pub open spec fn is_chain(buf: Seq<u8>, base: int, places: Seq<int>, pos: int, stop: int) -> bool {
    &&& places.len() > 0
    &&& places[0] == pos
    &&& forall|k: int|
        0 <= k < places.len() ==> pos <= #[trigger] places[k] && places[k] + instr_at(
            buf,
            base,
            places[k],
        ).len <= buf.len() && places[k] + instr_at(buf, base, places[k]).len == (if k + 1
            < places.len() {
            places[k + 1]
        } else {
            stop
        })
}

proof fn lemma_chain(buf: Seq<u8>, base: int, pos: int, stop: int)
    requires
        chain(buf, base, pos, stop) is Some,
    ensures
        is_chain(buf, base, chain(buf, base, pos, stop)->0, pos, stop),
    decreases buf.len() - pos,
{
    let len = instr_at(buf, base, pos).len;
    if pos + len != stop {
        lemma_chain(buf, base, pos + len, stop);
        let rest = chain(buf, base, pos + len, stop)->0;
        let all = seq![pos] + rest;
        assert(chain(buf, base, pos, stop) == Some(all));
        assert forall|k: int| 0 <= k < all.len() implies pos <= #[trigger] all[k] && all[k]
            + instr_at(buf, base, all[k]).len <= buf.len() && all[k] + instr_at(
            buf,
            base,
            all[k],
        ).len == (if k + 1 < all.len() {
            all[k + 1]
        } else {
            stop
        }) by {
            if k > 0 {
                assert(all[k] == rest[k - 1]);
                assert(pos + len <= rest[k - 1]);
                if k + 1 < all.len() {
                    assert(all[k + 1] == rest[k]);
                }
            } else {
                assert(all[1] == rest[0]);
            }
        }
    }
}

proof fn lemma_chain_below(buf: Seq<u8>, base: int, places: Seq<int>, pos: int, stop: int, k: int)
    requires
        is_chain(buf, base, places, pos, stop),
        0 <= k < places.len(),
    ensures
        places[k] + instr_at(buf, base, places[k]).len <= stop,
    decreases places.len() - k,
{
    if k + 1 < places.len() {
        assert(places[k] + instr_at(buf, base, places[k]).len == places[k + 1]);
        lemma_chain_below(buf, base, places, pos, stop, k + 1);
    }
}

proof fn lemma_last_guarded(instrs: Seq<Decoded>, n: int)
    requires
        n <= instrs.len(),
        last_guarded(instrs, n) is Some,
    ensures
        last_guarded(instrs, n) matches Some(k) ==> 1 <= k < n && is_je(instrs[k]) && instrs[k
            - 1].compares,
    decreases n,
{
    if !(is_je(instrs[n - 1]) && instrs[n - 2].compares) {
        lemma_last_guarded(instrs, n - 1);
    }
}

/// Whether a `je` stands at `jz` directly behind a `cmp`, ends at `stop` or before it, and both
/// lie at or behind `low`.
pub open spec fn guarded_je(buf: Seq<u8>, base: int, jz: int, low: int, stop: int) -> bool {
    &&& is_je(instr_at(buf, base, jz))
    &&& jz + instr_at(buf, base, jz).len <= stop
    &&& jz + instr_at(buf, base, jz).len <= buf.len()
    &&& exists|c: int|
        low <= c <= jz && #[trigger] instr_at(buf, base, c).compares && c + instr_at(
            buf,
            base,
            c,
        ).len == jz
}

proof fn lemma_jz_from(buf: Seq<u8>, base: int, from: int, xref: int)
    requires
        jz_from(buf, base, from, xref) is Some,
    ensures
        guarded_je(buf, base, jz_from(buf, base, from, xref)->0, from, xref),
{
    lemma_chain(buf, base, from, xref);
    let places = chain(buf, base, from, xref)->0;
    let instrs = instrs_at(buf, base, places);
    lemma_last_guarded(instrs, places.len() as int);
    let k = last_guarded(instrs, places.len() as int)->0;
    assert(instrs[k] == instr_at(buf, base, places[k]));
    assert(instrs[k - 1] == instr_at(buf, base, places[k - 1]));
    assert(places[k - 1] + instr_at(buf, base, places[k - 1]).len == places[k]);
    lemma_chain_below(buf, base, places, from, xref, k);
    assert(instr_at(buf, base, places[k - 1]).compares);
}

proof fn lemma_jz_back(buf: Seq<u8>, base: int, from: int, low: int, xref: int)
    requires
        jz_back(buf, base, from, low, xref) is Some,
    ensures
        guarded_je(buf, base, jz_back(buf, base, from, low, xref)->0, low, xref),
    decreases from - low + 1,
{
    if jz_from(buf, base, from, xref) is Some {
        lemma_jz_from(buf, base, from, xref);
        let jz = jz_from(buf, base, from, xref)->0;
        let c = choose|c: int|
            from <= c <= jz && #[trigger] instr_at(buf, base, c).compares && c + instr_at(
                buf,
                base,
                c,
            ).len == jz;
        assert(instr_at(buf, base, c).compares);
    } else {
        lemma_jz_back(buf, base, from - 1, low, xref);
    }
}

proof fn lemma_first_lea(buf: Seq<u8>, rva: int, from: int)
    ensures
        next_xref(buf, rva, from) matches Some(x) ==> from <= x && x + 7 < buf.len() && wide_lea_to(
            buf,
            x,
            rva,
        ),
    decreases buf.len() - from,
{
    if from + 7 < buf.len() && !wide_lea_to(buf, from, rva) {
        lemma_first_lea(buf, rva, from + 1);
    }
}

/// The security-cookie check that is found is there: its text, the code that refers to it, and
/// within a hundred bytes before that code a `je` directly behind a `cmp`; the entry holds the
/// bytes of that jump, and its patch turns the jump into a `jne` and is no longer than it.
pub proof fn law_cookie_is_what_stands_there(buf: Seq<u8>, base: int)
    requires
        security_cookie(buf, base) is Some,
    ensures
        ({
            let e = security_cookie(buf, base)->0;
            &&& occurs_at(buf, encode_utf8(cookie_text()), e.string_rva)
            &&& wide_lea_to(buf, e.xref_rva, e.string_rva)
            &&& guarded_je(
                buf,
                base,
                e.jz_rva,
                if e.xref_rva < 100 {
                    0
                } else {
                    e.xref_rva - 100
                },
                e.xref_rva,
            )
            &&& e.opcode_len == e.original_opcode.len()
            &&& occurs_at(buf, e.original_opcode, e.jz_rva)
            &&& Some(e.patch_bytes) == jnz_bytes(e.original_opcode)
            &&& e.patch_bytes.len() <= e.original_opcode.len()
        }),
{
    let text = encode_utf8(cookie_text());
    lemma_next_occurrence(buf, text, 0);
    let s = next_occurrence(buf, text, 0)->0;
    lemma_first_lea(buf, s, 0);
    let x = next_xref(buf, s, 0)->0;
    let low = if x < 100 {
        0
    } else {
        x - 100
    };
    lemma_jz_back(buf, base, x - 5, low, x);
    let jz = jz_before(buf, base, x)->0;
    let opcode = buf.subrange(jz, jz + instr_at(buf, base, jz).len);
    assert(cookie_entry(s, x, jz, opcode) is Some);
}

/// Turning a `je` into a `jne` changes one bit: the lowest of the opcode.
pub proof fn law_jnz_differs_in_one_bit(opcode: Seq<u8>)
    requires
        jnz_bytes(opcode) is Some,
    ensures
        ({
            let p = jnz_bytes(opcode)->0;
            &&& 0 < p.len() <= opcode.len()
            &&& p.drop_last() == opcode.take(p.len() - 1)
            &&& p.last() == opcode[p.len() - 1] + 1
            &&& opcode[p.len() - 1] % 2 == 0
        }),
{
    let p = jnz_bytes(opcode)->0;
    assert(p.drop_last() =~= opcode.take(p.len() - 1));
}

/// Whether an entry of the offsets holds what the scanner wrote down.
pub open spec fn carries_cookie(c: SecurityCookieEntry, e: CookieView) -> bool {
    c.jz_rva == e.jz_rva && c.original_opcode@ == e.original_opcode && c.patch_bytes@
        == e.patch_bytes
}

/// On the image that was scanned the security-cookie check is patched.
pub proof fn law_scanned_cookie_is_patched(buf: Seq<u8>, base: int, c: SecurityCookieEntry)
    requires
        security_cookie(buf, base) is Some,
        carries_cookie(c, security_cookie(buf, base)->0),
    ensures
        ({
            let e = security_cookie(buf, base)->0;
            &&& cookie_action(
                c,
                buf.subrange(e.jz_rva, e.jz_rva + e.opcode_len),
            ) matches ActionView::Write(at, bytes, _, _)
            &&& at == e.jz_rva
            &&& bytes == e.patch_bytes
        }),
{
    law_cookie_is_what_stands_there(buf, base);
}

} // verus!
