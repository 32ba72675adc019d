//! What holds of the signatures and the trust gates that are found.
use crate::code::{jcc_at, le_i32, wrap};
use crate::numbers::decimal;
use crate::offsets::{pattern_action, ActionView, PatternEntry};
use crate::scan_patterns::{
    agrees, lemma_next_pattern, next_pattern, pattern_at, signature_entries, signature_entry,
    signatures, PatternView, Signature, ANY, OR_AL_1,
};
use crate::scan_trust::{
    add_callers, add_calls, add_found, add_gate, add_strings, add_xrefs, al_gate, all_text_entries,
    caller_gate, callers_readable, calls_below, covered, direct_calls, failure_texts, found_by,
    gate_at, gate_entries, gate_entry, gate_for, lea_len, lea_xrefs, movzx_gate, nearest_gate,
    next_test_cl, next_xref, opcode_len, site_readable, test_cl_at, tests_at, text_entries,
    trust_gates, wide_lea_to, Found, Gate,
};
use crate::search::{lemma_occurrences, occurrences, occurs_at};
use vstd::prelude::*;
use vstd::utf8::encode_utf8;

verus! {

/// Whether an entry of the offsets holds what the scanner wrote down.
pub open spec fn carries(p: PatternEntry, e: PatternView) -> bool {
    &&& p.name@ == e.name
    &&& p.rva == e.rva
    &&& p.kind@ == e.kind
    &&& match p.patch_offset {
        Some(o) => e.patch_offset == Some(o as int),
        None => e.patch_offset is None,
    }
    &&& match p.patch_bytes {
        Some(b) => e.patch_bytes == Some(b@),
        None => e.patch_bytes is None,
    }
    &&& p.pattern_bytes@ == e.pattern_bytes
    &&& p.pattern_mask@ == e.pattern_mask
}

/// Whether an entry is fit for an image: its masked pattern stands at its place, and what it
/// patches lies inside the pattern.
pub open spec fn fits(buf: Seq<u8>, e: PatternView) -> bool {
    &&& e.pattern_mask.len() > 0
    &&& e.pattern_mask.len() == e.pattern_bytes.len()
    &&& pattern_at(buf, e.pattern_bytes, e.pattern_mask, e.rva)
    &&& e.kind == "hook"@ ==> e.patch_offset is None && e.patch_bytes is None
    &&& e.kind == "hook"@ || (e.kind == "bytepatch"@ && e.patch_offset is Some
        && e.patch_bytes is Some && 0 <= e.patch_offset->0 && e.patch_offset->0
        + e.patch_bytes->0.len() <= e.pattern_mask.len())
}

proof fn lemma_signature_source(buf: Seq<u8>, sigs: Seq<Signature>, k: int) -> (j: int)
    requires
        0 <= k < signature_entries(buf, sigs).len(),
    ensures
        0 <= j < sigs.len(),
        next_pattern(buf, sigs[j].bytes, sigs[j].mask, 0) == Some(
            signature_entries(buf, sigs)[k].rva,
        ),
        signature_entries(buf, sigs)[k] == signature_entry(
            sigs[j],
            signature_entries(buf, sigs)[k].rva,
        ),
    decreases sigs.len(),
{
    let before = signature_entries(buf, sigs.drop_last());
    if k < before.len() {
        lemma_signature_source(buf, sigs.drop_last(), k)
    } else {
        sigs.len() - 1
    }
}

/// Every signature that is reported stands at its place, stands at no place before it, and what
/// it patches lies inside it.
pub proof fn law_signatures_stand_where_found(buf: Seq<u8>, k: int)
    requires
        0 <= k < signature_entries(buf, signatures()).len(),
    ensures
        fits(buf, signature_entries(buf, signatures())[k]),
        forall|j: int|
            0 <= j < signature_entries(buf, signatures())[k].rva ==> !#[trigger] pattern_at(
                buf,
                signature_entries(buf, signatures())[k].pattern_bytes,
                signature_entries(buf, signatures())[k].pattern_mask,
                j,
            ),
{
    let j = lemma_signature_source(buf, signatures(), k);
    let s = signatures()[j];
    lemma_next_pattern(buf, s.bytes, s.mask, 0);
    reveal_strlit("hook");
    reveal_strlit("bytepatch");
    assert("hook"@[0] != "bytepatch"@[0]);
}

/// A signature that stands anywhere in the image is reported.
pub proof fn law_standing_signatures_are_reported(
    buf: Seq<u8>,
    sigs: Seq<Signature>,
    j: int,
    at: int,
)
    requires
        0 <= j < sigs.len(),
        sigs[j].mask.len() > 0,
        pattern_at(buf, sigs[j].bytes, sigs[j].mask, at),
    ensures
        exists|k: int|
            0 <= k < signature_entries(buf, sigs).len() && (#[trigger] signature_entries(
                buf,
                sigs,
            )[k]).name == sigs[j].name && signature_entries(buf, sigs)[k].pattern_bytes
                == sigs[j].bytes,
    decreases sigs.len(),
{
    let front = sigs.drop_last();
    let before = signature_entries(buf, front);
    let all = signature_entries(buf, sigs);
    if j < front.len() {
        law_standing_signatures_are_reported(buf, front, j, at);
        let k = choose|k: int|
            0 <= k < before.len() && (#[trigger] before[k]).name == sigs[j].name
                && before[k].pattern_bytes == sigs[j].bytes;
        assert(all[k] == before[k]);
    } else {
        lemma_next_pattern(buf, sigs[j].bytes, sigs[j].mask, 0);
        assert(all[all.len() - 1].name == sigs[j].name);
    }
}

/// On an image that an entry is fit for, its signature is hooked, or exactly its patch is
/// written, at its offset behind the place.
pub proof fn law_fitting_entries_are_applied(buf: Seq<u8>, e: PatternView, p: PatternEntry)
    requires
        fits(buf, e),
        carries(p, e),
    ensures
        match pattern_action(p, buf.subrange(e.rva, e.rva + e.pattern_mask.len())) {
            ActionView::Hook => e.kind == "hook"@,
            ActionView::Write(at, bytes, _, _) => e.kind == "bytepatch"@ && at == wrap(
                e.rva + e.patch_offset->0,
            ) && Some(bytes) == e.patch_bytes,
            _ => false,
        },
{
    let part = buf.subrange(e.rva, e.rva + e.pattern_mask.len());
    assert(agrees(part, e.pattern_bytes, e.pattern_mask, 0, e.pattern_mask.len() as int)) by {
        assert forall|k: int| 0 <= k < e.pattern_mask.len() implies #[trigger] e.pattern_mask[k]
            == ANY || (k < e.pattern_bytes.len() && part[0 + k] == e.pattern_bytes[k]) by {
            assert(part[k] == buf[e.rva + k]);
        }
    }
    reveal_strlit("hook");
    reveal_strlit("bytepatch");
    assert("hook"@[0] != "bytepatch"@[0]);
}

/// Whether a gate is what it claims to be in the image: a call, its masked bytes as they stand
/// there, and a patch of `test al, al`, or of the `jne` behind `test cl, cl`.
pub open spec fn true_gate(buf: Seq<u8>, g: Gate) -> bool {
    &&& 0 <= g.call_rva
    &&& g.pattern_mask.len() == g.pattern_bytes.len() > 0
    &&& g.call_rva + g.pattern_mask.len() <= buf.len()
    &&& g.pattern_bytes == buf.subrange(g.call_rva, g.call_rva + g.pattern_mask.len())
    &&& 0 <= g.patch_offset && g.patch_offset + g.patch_bytes.len() <= g.pattern_mask.len()
    &&& if g.patch_bytes == OR_AL_1@ {
        g.test_rva == g.call_rva + 5 && g.patch_offset == 5 && buf[g.test_rva] == 0x84
            && buf[g.test_rva + 1] == 0xc0
    } else {
        g.patch_bytes == seq![0xebu8] && g.patch_offset == g.test_rva + 2 - g.call_rva
            && test_cl_at(buf, g.test_rva)
    }
}

proof fn lemma_al_gate(buf: Seq<u8>, p: int, f: int, kept: int)
    requires
        0 <= p,
        p + 6 < buf.len(),
        buf[p + 5] == 0x84 && buf[p + 6] == 0xc0,
        jcc_at(buf, p + 7) matches Some(j) ==> p + 7 + j.len <= buf.len(),
        jcc_at(buf, p + 7) is Some,
    ensures
        jcc_at(buf, p + 7) matches Some(j) ==> true_gate(
            buf,
            al_gate(buf, p, f, j.len as int, kept),
        ),
{
}

proof fn lemma_nearest(buf: Seq<u8>, base: int, xref: int, low: int, n: int)
    requires
        nearest_gate(buf, base, xref, low, n) is Some,
    ensures
        true_gate(buf, nearest_gate(buf, base, xref, low, n)->0),
    decreases n,
{
    match gate_at(buf, base, n - 1, xref) {
        Some(g) => {
            let len = jcc_at(buf, n + 6)->0.len as int;
            lemma_al_gate(buf, n - 1, g.trust_fn_rva, opcode_len(len));
        },
        None => {
            lemma_nearest(buf, base, xref, low, n - 1);
        },
    }
}

proof fn lemma_test_cl(buf: Seq<u8>, q: int, end: int)
    requires
        next_test_cl(buf, q, end) is Some,
    ensures
        next_test_cl(buf, q, end) matches Some(t) ==> q <= t && t + 3 < buf.len() && test_cl_at(
            buf,
            t,
        ),
    decreases end - q,
{
    if !test_cl_at(buf, q) {
        lemma_test_cl(buf, q + 1, end);
    }
}

proof fn lemma_caller_gate(buf: Seq<u8>, f: int, c: int)
    requires
        site_readable(buf, c),
        caller_gate(buf, f, c) is Some,
    ensures
        true_gate(buf, caller_gate(buf, f, c)->0),
{
    if buf[c + 5] == 0x84 && buf[c + 6] == 0xc0 {
        lemma_al_gate(buf, c, f, 1);
    } else {
        lemma_test_cl(buf, c + 8, c + 8 + 0x60);
        let q = next_test_cl(buf, c + 8, c + 8 + 0x60)->0;
        let g = movzx_gate(buf, c, q);
        assert(g.patch_bytes.len() == 1);
        assert(OR_AL_1@.len() == 2);
    }
}

/// Whether every gate is what it claims to be, and no two have the same test.
pub open spec fn true_gates(buf: Seq<u8>, gates: Seq<Gate>) -> bool {
    &&& forall|k: int| 0 <= k < gates.len() ==> true_gate(buf, #[trigger] gates[k])
    &&& forall|i: int, j: int|
        0 <= i < j < gates.len() ==> #[trigger] gates[i].test_rva != #[trigger] gates[j].test_rva
}

proof fn lemma_add(buf: Seq<u8>, gates: Seq<Gate>, g: Option<Gate>)
    requires
        true_gates(buf, gates),
        g matches Some(x) ==> true_gate(buf, x),
    ensures
        true_gates(buf, add_gate(gates, g)),
{
    if let Some(x) = g {
        if !tests_at(gates, x.test_rva) {
            assert forall|i: int| 0 <= i < gates.len() implies #[trigger] gates[i].test_rva
                != x.test_rva by {}
        }
    }
}

proof fn lemma_xrefs_true(f: Found, buf: Seq<u8>, base: int, xrefs: Seq<int>)
    requires
        true_gates(buf, f.gates),
    ensures
        true_gates(buf, add_xrefs(f, buf, base, xrefs).gates),
    decreases xrefs.len(),
{
    if xrefs.len() > 0 {
        lemma_xrefs_true(f, buf, base, xrefs.drop_last());
        let before = add_xrefs(f, buf, base, xrefs.drop_last());
        let g = gate_for(buf, base, xrefs.last());
        if g is Some {
            lemma_nearest(buf, base, xrefs.last(), xrefs.last() - 0x100, xrefs.last());
        }
        lemma_add(buf, before.gates, g);
        assert(add_found(before, g).gates == add_gate(before.gates, g));
    }
}

proof fn lemma_strings_true(f: Found, buf: Seq<u8>, base: int, places: Seq<int>)
    requires
        true_gates(buf, f.gates),
    ensures
        true_gates(buf, add_strings(f, buf, base, places).gates),
    decreases places.len(),
{
    if places.len() > 0 {
        lemma_strings_true(f, buf, base, places.drop_last());
        lemma_xrefs_true(
            add_strings(f, buf, base, places.drop_last()),
            buf,
            base,
            lea_xrefs(buf, places.last(), 0),
        );
    }
}

proof fn lemma_found_true(buf: Seq<u8>, base: int, needles: Seq<Seq<char>>)
    ensures
        true_gates(buf, found_by(buf, base, needles).gates),
    decreases needles.len(),
{
    if needles.len() > 0 {
        lemma_found_true(buf, base, needles.drop_last());
        lemma_strings_true(
            found_by(buf, base, needles.drop_last()),
            buf,
            base,
            occurrences(buf, encode_utf8(needles.last()), 0),
        );
    }
}

proof fn lemma_calls_true(gates: Seq<Gate>, buf: Seq<u8>, f: int, calls: Seq<int>)
    requires
        true_gates(buf, gates),
        forall|j: int| 0 <= j < calls.len() ==> site_readable(buf, #[trigger] calls[j]),
    ensures
        true_gates(buf, add_calls(gates, buf, f, calls)),
    decreases calls.len(),
{
    if calls.len() > 0 {
        let front = calls.drop_last();
        assert forall|j: int| 0 <= j < front.len() implies site_readable(
            buf,
            #[trigger] front[j],
        ) by {
            assert(front[j] == calls[j]);
        }
        lemma_calls_true(gates, buf, f, front);
        assert(site_readable(buf, calls[calls.len() - 1]));
        let g = caller_gate(buf, f, calls.last());
        if g is Some {
            lemma_caller_gate(buf, f, calls.last());
        }
        lemma_add(buf, add_calls(gates, buf, f, front), g);
    }
}

proof fn lemma_callers_true(gates: Seq<Gate>, buf: Seq<u8>, fns: Seq<int>)
    requires
        true_gates(buf, gates),
        forall|k: int, j: int|
            0 <= k < fns.len() && 0 <= j < direct_calls(buf, fns[k]).len() ==> site_readable(
                buf,
                #[trigger] direct_calls(buf, fns[k])[j],
            ),
    ensures
        true_gates(buf, add_callers(gates, buf, fns)),
    decreases fns.len(),
{
    if fns.len() > 0 {
        let front = fns.drop_last();
        assert forall|k: int, j: int|
            0 <= k < front.len() && 0 <= j < direct_calls(
                buf,
                front[k],
            ).len() implies site_readable(buf, #[trigger] direct_calls(buf, front[k])[j]) by {
            assert(front[k] == fns[k]);
            assert(site_readable(buf, direct_calls(buf, fns[k])[j]));
        }
        lemma_callers_true(gates, buf, front);
        let calls = direct_calls(buf, fns.last());
        assert forall|j: int| 0 <= j < calls.len() implies site_readable(
            buf,
            #[trigger] calls[j],
        ) by {
            assert(site_readable(buf, direct_calls(buf, fns[fns.len() - 1])[j]));
        }
        lemma_calls_true(add_callers(gates, buf, front), buf, fns.last(), calls);
    }
}

/// Every trust gate is what it claims to be in the image: its patch covers `test al, al`, or the
/// short `jne` behind `test cl, cl`. No two gates have the same test.
pub proof fn law_gates_are_true(buf: Seq<u8>, base: int)
    requires
        callers_readable(buf, base),
    ensures
        true_gates(buf, trust_gates(buf, base)),
{
    let f = found_by(buf, base, failure_texts());
    lemma_found_true(buf, base, failure_texts());
    lemma_callers_true(f.gates, buf, f.fns);
}

proof fn lemma_gate_source(gates: Seq<Gate>, existing: Seq<PatternView>, k: int) -> (j: int)
    requires
        0 <= k < gate_entries(gates, existing).len(),
    ensures
        0 <= j < gates.len(),
        gate_entries(gates, existing)[k] == gate_entry(gates[j], k),
        !covered(existing, gates[j].test_rva),
    decreases gates.len(),
{
    let before = gate_entries(gates.drop_last(), existing);
    if k < before.len() {
        lemma_gate_source(gates.drop_last(), existing, k)
    } else {
        gates.len() - 1
    }
}

/// Every entry of a trust gate is numbered by its place in the list, is fit for the image, and
/// is made from a gate that no existing entry covers.
pub proof fn law_gate_entries_fit(buf: Seq<u8>, base: int, existing: Seq<PatternView>, k: int)
    requires
        callers_readable(buf, base),
        0 <= k < gate_entries(trust_gates(buf, base), existing).len(),
    ensures
        gate_entries(trust_gates(buf, base), existing)[k].name == "TRUST_CHECK_"@ + decimal(k),
        fits(buf, gate_entries(trust_gates(buf, base), existing)[k]),
        exists|j: int|
            0 <= j < trust_gates(buf, base).len() && gate_entries(
                trust_gates(buf, base),
                existing,
            )[k] == gate_entry(#[trigger] trust_gates(buf, base)[j], k) && !covered(
                existing,
                trust_gates(buf, base)[j].test_rva,
            ),
{
    let gates = trust_gates(buf, base);
    let j = lemma_gate_source(gates, existing, k);
    law_gates_are_true(buf, base);
    let g = gates[j];
    assert(true_gate(buf, g));
    assert(agrees(buf, g.pattern_bytes, g.pattern_mask, g.call_rva, g.pattern_mask.len() as int))
        by {
        assert forall|i: int| 0 <= i < g.pattern_mask.len() implies #[trigger] g.pattern_mask[i]
            == ANY || (i < g.pattern_bytes.len() && buf[g.call_rva + i] == g.pattern_bytes[i]) by {
            assert(g.pattern_bytes[i] == buf[g.call_rva + i]);
        }
    }
    reveal_strlit("hook");
    reveal_strlit("bytepatch");
    assert("hook"@[0] != "bytepatch"@[0]);
}

/// Every gate that no existing entry covers has an entry.
pub proof fn law_uncovered_gates_have_entries(gates: Seq<Gate>, existing: Seq<PatternView>, j: int)
    requires
        0 <= j < gates.len(),
        !covered(existing, gates[j].test_rva),
    ensures
        exists|k: int|
            0 <= k < gate_entries(gates, existing).len() && #[trigger] gate_entries(
                gates,
                existing,
            )[k] == gate_entry(gates[j], k),
    decreases gates.len(),
{
    let front = gates.drop_last();
    let before = gate_entries(front, existing);
    let all = gate_entries(gates, existing);
    if j < front.len() {
        law_uncovered_gates_have_entries(front, existing, j);
        let k = choose|k: int|
            0 <= k < before.len() && #[trigger] before[k] == gate_entry(gates[j], k);
        assert(all[k] == before[k]);
    } else {
        assert(all[all.len() - 1] == gate_entry(gates[j], all.len() - 1));
    }
}

proof fn lemma_add_keeps(gates: Seq<Gate>, g: Option<Gate>, t: int)
    requires
        tests_at(gates, t),
    ensures
        tests_at(add_gate(gates, g), t),
{
    let k = choose|k: int| 0 <= k < gates.len() && #[trigger] gates[k].test_rva == t;
    assert(add_gate(gates, g)[k].test_rva == t);
}

proof fn lemma_add_has(gates: Seq<Gate>, g: Gate)
    ensures
        tests_at(add_gate(gates, Some(g)), g.test_rva),
{
    if !tests_at(gates, g.test_rva) {
        assert(gates.push(g)[gates.len() as int].test_rva == g.test_rva);
    }
}

proof fn lemma_xrefs_keep(f: Found, buf: Seq<u8>, base: int, xrefs: Seq<int>, t: int)
    requires
        tests_at(f.gates, t),
    ensures
        tests_at(add_xrefs(f, buf, base, xrefs).gates, t),
    decreases xrefs.len(),
{
    if xrefs.len() > 0 {
        lemma_xrefs_keep(f, buf, base, xrefs.drop_last(), t);
        let before = add_xrefs(f, buf, base, xrefs.drop_last());
        let g = gate_for(buf, base, xrefs.last());
        lemma_add_keeps(before.gates, g, t);
        assert(add_found(before, g).gates == add_gate(before.gates, g));
    }
}

proof fn lemma_xrefs_have(f: Found, buf: Seq<u8>, base: int, xrefs: Seq<int>, k: int)
    requires
        0 <= k < xrefs.len(),
        gate_for(buf, base, xrefs[k]) is Some,
    ensures
        tests_at(add_xrefs(f, buf, base, xrefs).gates, gate_for(buf, base, xrefs[k])->0.test_rva),
    decreases xrefs.len(),
{
    let before = add_xrefs(f, buf, base, xrefs.drop_last());
    let g = gate_for(buf, base, xrefs.last());
    assert(add_found(before, g).gates == add_gate(before.gates, g));
    if k < xrefs.len() - 1 {
        lemma_xrefs_have(f, buf, base, xrefs.drop_last(), k);
        lemma_add_keeps(before.gates, g, gate_for(buf, base, xrefs[k])->0.test_rva);
    } else {
        lemma_add_has(before.gates, g->0);
    }
}

proof fn lemma_strings_keep(f: Found, buf: Seq<u8>, base: int, places: Seq<int>, t: int)
    requires
        tests_at(f.gates, t),
    ensures
        tests_at(add_strings(f, buf, base, places).gates, t),
    decreases places.len(),
{
    if places.len() > 0 {
        lemma_strings_keep(f, buf, base, places.drop_last(), t);
        lemma_xrefs_keep(
            add_strings(f, buf, base, places.drop_last()),
            buf,
            base,
            lea_xrefs(buf, places.last(), 0),
            t,
        );
    }
}

proof fn lemma_strings_have(f: Found, buf: Seq<u8>, base: int, places: Seq<int>, i: int, k: int)
    requires
        0 <= i < places.len(),
        0 <= k < lea_xrefs(buf, places[i], 0).len(),
        gate_for(buf, base, lea_xrefs(buf, places[i], 0)[k]) is Some,
    ensures
        tests_at(
            add_strings(f, buf, base, places).gates,
            gate_for(buf, base, lea_xrefs(buf, places[i], 0)[k])->0.test_rva,
        ),
    decreases places.len(),
{
    let front = places.drop_last();
    let before = add_strings(f, buf, base, front);
    let last = lea_xrefs(buf, places.last(), 0);
    if i < front.len() {
        lemma_strings_have(f, buf, base, front, i, k);
        lemma_xrefs_keep(
            before,
            buf,
            base,
            last,
            gate_for(buf, base, lea_xrefs(buf, places[i], 0)[k])->0.test_rva,
        );
    } else {
        lemma_xrefs_have(before, buf, base, last, k);
    }
}

/// A gate that decides on code that refers to one of the texts is among those met.
pub proof fn lemma_needles_have(
    buf: Seq<u8>,
    base: int,
    needles: Seq<Seq<char>>,
    n: int,
    i: int,
    k: int,
)
    requires
        0 <= n < needles.len(),
        0 <= i < occurrences(buf, encode_utf8(needles[n]), 0).len(),
        0 <= k < lea_xrefs(buf, occurrences(buf, encode_utf8(needles[n]), 0)[i], 0).len(),
        gate_for(
            buf,
            base,
            lea_xrefs(buf, occurrences(buf, encode_utf8(needles[n]), 0)[i], 0)[k],
        ) is Some,
    ensures
        tests_at(
            found_by(buf, base, needles).gates,
            gate_for(
                buf,
                base,
                lea_xrefs(buf, occurrences(buf, encode_utf8(needles[n]), 0)[i], 0)[k],
            )->0.test_rva,
        ),
    decreases needles.len(),
{
    let front = needles.drop_last();
    let before = found_by(buf, base, front);
    let places = occurrences(buf, encode_utf8(needles.last()), 0);
    if n < front.len() {
        lemma_needles_have(buf, base, front, n, i, k);
        lemma_strings_keep(
            before,
            buf,
            base,
            places,
            gate_for(
                buf,
                base,
                lea_xrefs(buf, occurrences(buf, encode_utf8(needles[n]), 0)[i], 0)[k],
            )->0.test_rva,
        );
    } else {
        lemma_strings_have(before, buf, base, places, i, k);
    }
}

proof fn lemma_calls_keep(gates: Seq<Gate>, buf: Seq<u8>, f: int, calls: Seq<int>, t: int)
    requires
        tests_at(gates, t),
    ensures
        tests_at(add_calls(gates, buf, f, calls), t),
    decreases calls.len(),
{
    if calls.len() > 0 {
        lemma_calls_keep(gates, buf, f, calls.drop_last(), t);
        lemma_add_keeps(
            add_calls(gates, buf, f, calls.drop_last()),
            caller_gate(buf, f, calls.last()),
            t,
        );
    }
}

proof fn lemma_calls_have(gates: Seq<Gate>, buf: Seq<u8>, f: int, calls: Seq<int>, k: int)
    requires
        0 <= k < calls.len(),
        caller_gate(buf, f, calls[k]) is Some,
    ensures
        tests_at(add_calls(gates, buf, f, calls), caller_gate(buf, f, calls[k])->0.test_rva),
    decreases calls.len(),
{
    let before = add_calls(gates, buf, f, calls.drop_last());
    let g = caller_gate(buf, f, calls.last());
    if k < calls.len() - 1 {
        lemma_calls_have(gates, buf, f, calls.drop_last(), k);
        lemma_add_keeps(before, g, caller_gate(buf, f, calls[k])->0.test_rva);
    } else {
        lemma_add_has(before, g->0);
    }
}

proof fn lemma_callers_keep(gates: Seq<Gate>, buf: Seq<u8>, fns: Seq<int>, t: int)
    requires
        tests_at(gates, t),
    ensures
        tests_at(add_callers(gates, buf, fns), t),
    decreases fns.len(),
{
    if fns.len() > 0 {
        lemma_callers_keep(gates, buf, fns.drop_last(), t);
        lemma_calls_keep(
            add_callers(gates, buf, fns.drop_last()),
            buf,
            fns.last(),
            direct_calls(buf, fns.last()),
            t,
        );
    }
}

proof fn lemma_callers_have(gates: Seq<Gate>, buf: Seq<u8>, fns: Seq<int>, n: int, k: int)
    requires
        0 <= n < fns.len(),
        0 <= k < direct_calls(buf, fns[n]).len(),
        caller_gate(buf, fns[n], direct_calls(buf, fns[n])[k]) is Some,
    ensures
        tests_at(
            add_callers(gates, buf, fns),
            caller_gate(buf, fns[n], direct_calls(buf, fns[n])[k])->0.test_rva,
        ),
    decreases fns.len(),
{
    let front = fns.drop_last();
    let before = add_callers(gates, buf, front);
    if n < front.len() {
        lemma_callers_have(gates, buf, front, n, k);
        lemma_calls_keep(
            before,
            buf,
            fns.last(),
            direct_calls(buf, fns.last()),
            caller_gate(buf, fns[n], direct_calls(buf, fns[n])[k])->0.test_rva,
        );
    } else {
        lemma_calls_have(before, buf, fns.last(), direct_calls(buf, fns.last()), k);
    }
}

/// Wherever code refers to a text of a failed check and a gate decides on that code, that gate
/// is found: `n` picks the text, `i` the place at which it stands, `k` the code that refers to
/// it.
pub proof fn law_every_named_gate_is_found(buf: Seq<u8>, base: int, n: int, i: int, k: int)
    requires
        0 <= n < failure_texts().len(),
        0 <= i < occurrences(buf, encode_utf8(failure_texts()[n]), 0).len(),
        0 <= k < lea_xrefs(
            buf,
            occurrences(buf, encode_utf8(failure_texts()[n]), 0)[i],
            0,
        ).len(),
        gate_for(
            buf,
            base,
            lea_xrefs(buf, occurrences(buf, encode_utf8(failure_texts()[n]), 0)[i], 0)[k],
        ) is Some,
    ensures
        tests_at(
            trust_gates(buf, base),
            gate_for(
                buf,
                base,
                lea_xrefs(buf, occurrences(buf, encode_utf8(failure_texts()[n]), 0)[i], 0)[k],
            )->0.test_rva,
        ),
{
    lemma_needles_have(buf, base, failure_texts(), n, i, k);
    let f = found_by(buf, base, failure_texts());
    lemma_callers_keep(
        f.gates,
        buf,
        f.fns,
        gate_for(
            buf,
            base,
            lea_xrefs(buf, occurrences(buf, encode_utf8(failure_texts()[n]), 0)[i], 0)[k],
        )->0.test_rva,
    );
}

/// The calls of a function that are found are all there are, those at the very end of the image
/// left out.
pub proof fn law_all_calls_are_found(buf: Seq<u8>, f: int, c: int)
    ensures
        direct_calls(buf, f).contains(c) <==> 0 <= c < buf.len() - 5 && buf[c] == 0xe8 && wrap(
            c + 5 + le_i32(buf, c + 1),
        ) == f,
{
    lemma_calls_below_all(buf, f, buf.len() - 5, c);
}

proof fn lemma_calls_below_all(buf: Seq<u8>, f: int, n: int, c: int)
    ensures
        calls_below(buf, f, n).contains(c) <==> 0 <= c < n && buf[c] == 0xe8 && wrap(
            c + 5 + le_i32(buf, c + 1),
        ) == f,
    decreases n,
{
    if n > 0 {
        lemma_calls_below_all(buf, f, n - 1, c);
        let before = calls_below(buf, f, n - 1);
        if before.contains(c) {
            let k = choose|k: int| 0 <= k < before.len() && before[k] == c;
            assert(before.push(n - 1)[k] == c);
        }
        assert(before.push(n - 1).last() == n - 1);
    }
}

/// Whether the functions hold the one that each gate calls.
pub open spec fn fns_known(f: Found) -> bool {
    forall|k: int|
        0 <= k < f.gates.len() ==> f.fns.contains((#[trigger] f.gates[k]).trust_fn_rva)
}

proof fn lemma_fns_known(buf: Seq<u8>, base: int, f: Found, g: Option<Gate>)
    requires
        fns_known(f),
    ensures
        fns_known(add_found(f, g)),
{
    let r = add_found(f, g);
    assert forall|k: int| 0 <= k < r.gates.len() implies r.fns.contains(
        (#[trigger] r.gates[k]).trust_fn_rva,
    ) by {
        if k < f.gates.len() {
            assert(r.gates[k] == f.gates[k]);
            let j = choose|j: int| 0 <= j < f.fns.len() && f.fns[j] == f.gates[k].trust_fn_rva;
            assert(r.fns[j] == f.gates[k].trust_fn_rva);
        } else if !f.fns.contains(g->0.trust_fn_rva) {
            assert(r.fns[f.fns.len() as int] == g->0.trust_fn_rva);
        }
    }
}

proof fn lemma_xrefs_known(f: Found, buf: Seq<u8>, base: int, xrefs: Seq<int>)
    requires
        fns_known(f),
    ensures
        fns_known(add_xrefs(f, buf, base, xrefs)),
    decreases xrefs.len(),
{
    if xrefs.len() > 0 {
        lemma_xrefs_known(f, buf, base, xrefs.drop_last());
        lemma_fns_known(
            buf,
            base,
            add_xrefs(f, buf, base, xrefs.drop_last()),
            gate_for(buf, base, xrefs.last()),
        );
    }
}

proof fn lemma_strings_known(f: Found, buf: Seq<u8>, base: int, places: Seq<int>)
    requires
        fns_known(f),
    ensures
        fns_known(add_strings(f, buf, base, places)),
    decreases places.len(),
{
    if places.len() > 0 {
        lemma_strings_known(f, buf, base, places.drop_last());
        lemma_xrefs_known(
            add_strings(f, buf, base, places.drop_last()),
            buf,
            base,
            lea_xrefs(buf, places.last(), 0),
        );
    }
}

/// The function that a gate met through a text calls is one whose calls are all followed.
pub proof fn law_functions_of_gates_are_followed(buf: Seq<u8>, base: int, needles: Seq<Seq<char>>)
    ensures
        fns_known(found_by(buf, base, needles)),
{
    lemma_needles_known(buf, base, needles);
}

proof fn lemma_needles_known(buf: Seq<u8>, base: int, needles: Seq<Seq<char>>)
    ensures
        fns_known(found_by(buf, base, needles)),
    decreases needles.len(),
{
    if needles.len() > 0 {
        lemma_needles_known(buf, base, needles.drop_last());
        lemma_strings_known(
            found_by(buf, base, needles.drop_last()),
            buf,
            base,
            occurrences(buf, encode_utf8(needles.last()), 0),
        );
    }
}

/// Behind every call of a trust function that was met, a gate that stands there is found too.
pub proof fn law_every_caller_is_gated(buf: Seq<u8>, base: int, f: int, c: int)
    requires
        found_by(buf, base, failure_texts()).fns.contains(f),
        0 <= c < buf.len() - 5,
        buf[c] == 0xe8,
        wrap(c + 5 + le_i32(buf, c + 1)) == f,
        caller_gate(buf, f, c) is Some,
    ensures
        tests_at(trust_gates(buf, base), caller_gate(buf, f, c)->0.test_rva),
{
    let found = found_by(buf, base, failure_texts());
    law_all_calls_are_found(buf, f, c);
    let n = choose|n: int| 0 <= n < found.fns.len() && found.fns[n] == f;
    let calls = direct_calls(buf, f);
    let k = choose|k: int| 0 <= k < calls.len() && calls[k] == c;
    lemma_callers_have(found.gates, buf, found.fns, n, k);
}

proof fn lemma_xref_refers(buf: Seq<u8>, rva: int, from: int)
    ensures
        next_xref(buf, rva, from) matches Some(x) ==> from <= x && wide_lea_to(buf, x, rva),
    decreases buf.len() - from,
{
    if from + 7 < buf.len() && !wide_lea_to(buf, from, rva) {
        lemma_xref_refers(buf, rva, from + 1);
    }
}

/// Every text that is reported stands at its place, and the code that is said to refer to it
/// does.
pub proof fn law_reported_texts_stand_there(buf: Seq<u8>, texts: Seq<Seq<char>>, k: int)
    requires
        0 <= k < all_text_entries(buf, texts).len(),
    ensures
        texts.contains(all_text_entries(buf, texts)[k].text),
        occurs_at(
            buf,
            encode_utf8(all_text_entries(buf, texts)[k].text),
            all_text_entries(buf, texts)[k].rva,
        ),
        all_text_entries(buf, texts)[k].xref_rva matches Some(x) ==> wide_lea_to(
            buf,
            x,
            all_text_entries(buf, texts)[k].rva,
        ),
    decreases texts.len(),
{
    let front = texts.drop_last();
    let before = all_text_entries(buf, front);
    let places = occurrences(buf, encode_utf8(texts.last()), 0);
    if k < before.len() {
        law_reported_texts_stand_there(buf, front, k);
        let j = choose|j: int| 0 <= j < front.len() && front[j] == before[k].text;
        assert(texts[j] == before[k].text);
    } else {
        let i = k - before.len();
        assert(all_text_entries(buf, texts)[k] == text_entries(buf, texts.last(), places)[i]);
        lemma_occurrences(buf, encode_utf8(texts.last()), 0);
        assert(places[i] == all_text_entries(buf, texts)[k].rva);
        lemma_xref_refers(buf, places[i], 0);
        assert(texts[texts.len() - 1] == texts.last());
    }
}

/// Every `lea` that is found refers to the place that it was looked for with.
pub proof fn law_found_leas_refer(buf: Seq<u8>, rva: int, i: int, k: int)
    requires
        0 <= k < lea_xrefs(buf, rva, i).len(),
    ensures
        ({
            let x = lea_xrefs(buf, rva, i)[k];
            &&& i <= x
            &&& lea_len(buf, x) > 0
            &&& x + lea_len(buf, x) <= buf.len()
            &&& wrap(x + lea_len(buf, x) + le_i32(buf, x + lea_len(buf, x) - 4)) == rva
        }),
    decreases buf.len() - i,
{
    let n = lea_len(buf, i);
    if n == 0 {
        law_found_leas_refer(buf, rva, i + 1, k);
    } else if wrap(i + n + le_i32(buf, i + n - 4)) == rva {
        if k > 0 {
            law_found_leas_refer(buf, rva, i + n, k - 1);
        }
    } else {
        law_found_leas_refer(buf, rva, i + n, k);
    }
}

/// A gate that is found for failure code stands among the 256 bytes before it, and no other gate
/// that decides on that code stands nearer; where none is found, none stands there.
pub proof fn law_nearest_gate_decides(buf: Seq<u8>, base: int, xref: int)
    requires
        0 <= xref,
    ensures
        match gate_for(buf, base, xref) {
            Some(g) => {
                &&& 0 <= g.call_rva && xref - 0x100 <= g.call_rva < xref
                &&& gate_at(buf, base, g.call_rva, xref) == Some(g)
                &&& forall|p: int|
                    g.call_rva < p < xref ==> #[trigger] gate_at(buf, base, p, xref) is None
            },
            None => forall|p: int|
                0 <= p && xref - 0x100 <= p < xref ==> #[trigger] gate_at(
                    buf,
                    base,
                    p,
                    xref,
                ) is None,
        },
{
    lemma_nearest_gate(buf, base, xref, xref - 0x100, xref);
}

proof fn lemma_nearest_gate(buf: Seq<u8>, base: int, xref: int, low: int, n: int)
    ensures
        match nearest_gate(buf, base, xref, low, n) {
            Some(g) => {
                &&& 0 <= g.call_rva && low <= g.call_rva < n
                &&& gate_at(buf, base, g.call_rva, xref) == Some(g)
                &&& forall|p: int|
                    g.call_rva < p < n ==> #[trigger] gate_at(buf, base, p, xref) is None
            },
            None => forall|p: int|
                0 <= p && low <= p < n ==> #[trigger] gate_at(buf, base, p, xref) is None,
        },
    decreases n,
{
    if n > low && n > 0 && gate_at(buf, base, n - 1, xref) is None {
        lemma_nearest_gate(buf, base, xref, low, n - 1);
    }
}

} // verus!
