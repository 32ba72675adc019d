//! What trust gates are, stated on the bytes of the image.
use crate::code::{jcc_at, jcc_readable, le_i32, rva_of};
use crate::code_laws::{
    holds_i32, law_displacements_are_read, law_jumps_are_read, law_offsets_count_from_the_base,
};
use crate::numbers::{decimal, in_base};
use crate::scan_patterns::{PatternView, OR_AL_1};
use crate::scan_trust::{
    add_callers, add_calls, add_found, add_gate, add_strings, add_xrefs, all_text_entries,
    caller_gate, callers_readable, covered, direct_calls, failure_texts, found_by, gate_at,
    gate_entries, gate_entry, gate_for, lea_xrefs, next_test_cl, next_xref, reported_texts,
    site_readable, test_cl_at, tests_at, text_entries, trust_gates, Found, Gate, TrustStringView,
};
use crate::search::{lemma_occurrences, occurrences};
use crate::text_laws::{law_every_occurrence_counts, lemma_all_occurrences};
use crate::trust_laws::{
    law_all_calls_are_found, law_every_caller_is_gated, law_every_named_gate_is_found,
    law_functions_of_gates_are_followed, law_gates_are_true, law_nearest_gate_decides,
    law_uncovered_gates_have_entries, lemma_needles_have, true_gate,
};
use vstd::prelude::*;
use vstd::utf8::{encode_utf8, is_ascii_chars, is_ascii_chars_encode_utf8};

verus! {

/// Whether a `jne` (or a `je`) stands at `pos`, in its near or its short form, with the
/// displacement `d`.
pub open spec fn jump_bytes(buf: Seq<u8>, pos: int, near: bool, jne: bool, d: int) -> bool {
    if near {
        &&& pos + 6 <= buf.len()
        &&& buf[pos] == 0x0f
        &&& buf[pos + 1] == (if jne {
            0x85int
        } else {
            0x84int
        })
        &&& holds_i32(buf, pos + 2, d)
    } else {
        &&& pos + 2 <= buf.len()
        &&& buf[pos] == (if jne {
            0x75int
        } else {
            0x74int
        })
        &&& -0x80 <= d < 0x80
        &&& (d - buf[pos + 1]) % 0x100 == 0
    }
}

/// The length of a near and of a short jump.
pub open spec fn jump_len(near: bool) -> int {
    if near {
        6
    } else {
        2
    }
}

/// Whether `call f; test al, al; jcc` stands at `p`, with the call and the jump inside the image.
pub open spec fn gate_bytes(
    buf: Seq<u8>,
    p: int,
    f: int,
    near: bool,
    jne: bool,
    d: int,
) -> bool {
    &&& 0 <= p && p + 7 < buf.len()
    &&& buf[p] == 0xe8
    &&& holds_i32(buf, p + 1, f - (p + 5))
    &&& buf[p + 5] == 0x84 && buf[p + 6] == 0xc0
    &&& jump_bytes(buf, p + 7, near, jne, d)
}

/// Whether a jump at `pos` decides on the failure code at `xref`: the code stands behind a `jne`
/// that jumps over it, or at or behind the target of a `je` that jumps forward.
pub open spec fn jump_decides(pos: int, near: bool, jne: bool, d: int, xref: int) -> bool {
    let fall = pos + jump_len(near);
    if jne {
        fall <= xref && xref < fall + d
    } else {
        0 <= d && fall + d <= xref
    }
}

/// Whether a gate opens `test al, al` behind the call at `p`: it is known by the call, the test
/// and the first `kept` bytes of the jump, and the displacements may be any.
pub open spec fn opens_al(g: Gate, buf: Seq<u8>, p: int, f: int, near: bool, kept: int) -> bool {
    &&& g.call_rva == p
    &&& g.trust_fn_rva == f
    &&& g.test_rva == p + 5
    &&& g.patch_offset == 5
    &&& g.patch_bytes == seq![0x0cu8, 0x01u8]
    &&& g.pattern_bytes == buf.subrange(p, p + 7 + jump_len(near))
    &&& g.pattern_mask.len() == 7 + jump_len(near)
    &&& forall|k: int|
        0 <= k < g.pattern_mask.len() ==> #[trigger] g.pattern_mask[k] == (if k == 0 || k == 5 || k
            == 6 || (7 <= k && k < 7 + kept) {
            0x78int
        } else {
            0x3fint
        })
}

proof fn lemma_jump(buf: Seq<u8>, pos: int, near: bool, jne: bool, d: int)
    requires
        0 <= pos,
        jump_bytes(buf, pos, near, jne, d),
    ensures
        jcc_at(buf, pos) matches Some(j) && j.len == jump_len(near) && j.disp == d && ((j.opcode
            == 0x75 || j.opcode == 0x85) <==> jne),
{
    if near {
        law_displacements_are_read(buf, pos + 2, d);
    }
}

/// The bytes of a jump that is read.
proof fn lemma_jump_bytes(buf: Seq<u8>, pos: int)
    requires
        0 <= pos,
        jcc_at(buf, pos) is Some,
        jcc_at(buf, pos)->0.len == 6 ==> pos + 6 <= buf.len(),
    ensures
        ({
            let j = jcc_at(buf, pos)->0;
            jump_bytes(buf, pos, j.len == 6, j.opcode == 0x75 || j.opcode == 0x85, j.disp as int)
                && j.len == jump_len(j.len == 6)
        }),
{
    law_jumps_are_read(buf, pos);
}

/// A gate among the 256 bytes before failure code that it decides on is found, or a nearer one
/// is. At least thirteen bytes must follow the start of its call.
pub proof fn law_deciding_gate_is_found(
    buf: Seq<u8>,
    base: int,
    xref: int,
    p: int,
    f: int,
    near: bool,
    jne: bool,
    d: int,
)
    requires
        0 <= base,
        base + buf.len() <= 0x1_0000_0000_0000_0000,
        0 <= f,
        base + f < 0x1_0000_0000_0000_0000,
        p + 12 < buf.len(),
        xref - 0x100 <= p < xref,
        gate_bytes(buf, p, f, near, jne, d),
        jump_decides(p + 7, near, jne, d, xref),
        base + p + 7 + jump_len(near) + d < 0x1_0000_0000_0000_0000,
    ensures
        gate_for(buf, base, xref) matches Some(g) && p <= g.call_rva < xref && (g.call_rva == p
            ==> opens_al(
            g,
            buf,
            p,
            f,
            near,
            if near {
                2
            } else {
                1
            },
        )),
{
    lemma_jump(buf, p + 7, near, jne, d);
    law_displacements_are_read(buf, p + 1, f - (p + 5));
    law_offsets_count_from_the_base(base, f);
    law_offsets_count_from_the_base(base, p + 7 + jump_len(near) + d);
    law_nearest_gate_decides(buf, base, xref);
    assert(p + 5 + le_i32(buf, p + 1) == f);
    let g = gate_at(buf, base, p, xref);
    assert(g is Some);
    assert(g->0.patch_bytes =~= seq![0x0cu8, 0x01u8]);
}

/// A gate that is found for failure code stands among the 256 bytes before it, and its jump
/// decides on that code.
pub proof fn law_found_gate_decides(buf: Seq<u8>, base: int, xref: int)
    requires
        0 <= base,
        base + buf.len() + 0x8000_0000 <= 0x1_0000_0000_0000_0000,
        0 <= xref <= buf.len(),
        gate_for(buf, base, xref) is Some,
    ensures
        ({
            let g = gate_for(buf, base, xref)->0;
            let p = g.call_rva;
            &&& xref - 0x100 <= p < xref
            &&& exists|near: bool, jne: bool, d: int|
                {
                    &&& #[trigger] jump_bytes(buf, p + 7, near, jne, d)
                    &&& (jump_decides(p + 7, near, jne, d, xref) || p + 7 + jump_len(near) + d
                        < -base)
                    &&& opens_al(
                        g,
                        buf,
                        p,
                        g.trust_fn_rva,
                        near,
                        if near {
                            2
                        } else {
                            1
                        },
                    )
                }
            &&& buf[p] == 0xe8 && buf[p + 5] == 0x84 && buf[p + 6] == 0xc0
            &&& (base + g.trust_fn_rva - (base + p + 5 + le_i32(buf, p + 1)))
                % 0x1_0000_0000_0000_0000 == 0
        }),
{
    law_nearest_gate_decides(buf, base, xref);
    let g = gate_for(buf, base, xref)->0;
    let p = g.call_rva;
    lemma_jump_bytes(buf, p + 7);
    let j = jcc_at(buf, p + 7)->0;
    let d = j.disp as int;
    let t = p + 7 + j.len + d;
    law_jumps_are_read(buf, p + 7);
    assert(-0x8000_0000 <= d < 0x8000_0000);
    law_offsets_count_from_the_base(base, t);
    assert(g.patch_bytes =~= seq![0x0cu8, 0x01u8]);
    assert(jump_bytes(buf, p + 7, j.len == 6, j.opcode == 0x75 || j.opcode == 0x85, d));
}

/// Behind a call of a function, `test al, al` with a jump is a gate, known by the call, the test
/// and the first byte of the jump.
pub proof fn law_caller_with_test_is_a_gate(
    buf: Seq<u8>,
    f: int,
    c: int,
    near: bool,
    jne: bool,
    d: int,
)
    requires
        gate_bytes(buf, c, f, near, jne, d),
    ensures
        caller_gate(buf, f, c) matches Some(g) && opens_al(g, buf, c, f, near, 1),
{
    lemma_jump(buf, c + 7, near, jne, d);
    let g = caller_gate(buf, f, c)->0;
    assert(g.patch_bytes =~= seq![0x0cu8, 0x01u8]);
}

/// Behind a call that keeps its result with `movzx r32, al`, the first `test cl, cl` with a short
/// `jne` that begins among the 96 bytes behind that, and ends before the last byte of the image,
/// is a gate; where none stands there, there is no gate.
pub proof fn law_kept_result_is_a_gate(buf: Seq<u8>, f: int, c: int, q: int)
    requires
        0 <= c,
        c + 7 < buf.len(),
        buf[c + 5] == 0x0f,
        buf[c + 6] == 0xb6,
        buf[c + 7] & 0xc7 == 0xc0,
        forall|r: int|
            c + 8 <= r < q ==> !(#[trigger] buf[r] == 0x84 && buf[r + 1] == 0xc9 && buf[r + 2]
                == 0x75),
    ensures
        c + 8 <= q < c + 8 + 0x60 && q + 3 < buf.len() && buf[q] == 0x84 && buf[q + 1] == 0xc9
            && buf[q + 2] == 0x75 ==> {
            &&& caller_gate(buf, f, c) matches Some(g)
            &&& g.call_rva == c
            &&& g.test_rva == q
            &&& g.patch_offset == q + 2 - c
            &&& g.patch_bytes == seq![0xebu8]
            &&& g.pattern_bytes == buf.subrange(c, q + 4)
            &&& g.pattern_mask.len() == q + 4 - c
            &&& forall|k: int|
                0 <= k < g.pattern_mask.len() ==> #[trigger] g.pattern_mask[k] == (if k == 0 || (q
                    - c <= k && k <= q - c + 2) {
                    0x78int
                } else {
                    0x3fint
                })
        },
        q >= c + 8 + 0x60 || q + 3 >= buf.len() ==> caller_gate(buf, f, c) is None,
{
    if c + 8 <= q {
        lemma_first_test(buf, c + 8, c + 8 + 0x60, q);
    }
    if q < c + 8 {
        assert(q + 3 < buf.len() || next_test_cl(buf, c + 8, c + 8 + 0x60) is None);
    }
}

proof fn lemma_first_test(buf: Seq<u8>, from: int, end: int, q: int)
    requires
        0 <= from <= q,
        forall|r: int|
            from <= r < q ==> !(#[trigger] buf[r] == 0x84 && buf[r + 1] == 0xc9 && buf[r + 2]
                == 0x75),
    ensures
        q < end && q + 3 < buf.len() && test_cl_at(buf, q) ==> next_test_cl(buf, from, end) == Some(
            q,
        ),
        q >= end || q + 3 >= buf.len() ==> next_test_cl(buf, from, end) is None,
    decreases q - from,
{
    if from < q {
        assert(!(buf[from] == 0x84 && buf[from + 1] == 0xc9 && buf[from + 2] == 0x75));
        lemma_first_test(buf, from + 1, end, q);
    }
}

/// Behind a call there is no other gate: neither `test al, al` with a jump nor `movzx r32, al`
/// stands there.
pub proof fn law_other_callers_have_no_gate(buf: Seq<u8>, f: int, c: int)
    requires
        0 <= c,
        c + 8 < buf.len(),
        buf[c + 5] == 0x84 && buf[c + 6] == 0xc0 ==> !(buf[c + 7] == 0x74 || buf[c + 7] == 0x75 || (
        buf[c + 7] == 0x0f && (buf[c + 8] == 0x84 || buf[c + 8] == 0x85))),
        !(buf[c + 5] == 0x0f && buf[c + 6] == 0xb6 && buf[c + 7] & 0xc7 == 0xc0),
    ensures
        caller_gate(buf, f, c) is None,
{
    law_jumps_are_read(buf, c + 7);
}

/// Whether a text names a failed trust check.
pub open spec fn names_failure(t: Seq<char>) -> bool {
    ||| t == "Trust check failed"@
    ||| t == "{}: Trust check failed"@
    ||| t == "Image Url is not trusted"@
    ||| t == "HttpRequest.Url is not trusted"@
    ||| t == "Url is not trusted"@
    ||| t == "url is not trusted"@
    ||| t == "is not trusted"@
    ||| t == "not trusted"@
    ||| t == "Not trusted"@
}

/// Whether a text stands in the image at `i`.
pub open spec fn text_stands(buf: Seq<u8>, t: Seq<char>, i: int) -> bool {
    0 <= i && i + encode_utf8(t).len() <= buf.len() && buf.subrange(i, i + encode_utf8(t).len())
        == encode_utf8(t)
}

/// Whether code at `x` refers to a text of a failed check that stands at `i`.
pub open spec fn refers_to_failure(buf: Seq<u8>, t: Seq<char>, i: int, x: int) -> bool {
    names_failure(t) && text_stands(buf, t, i) && lea_xrefs(buf, i, 0).contains(x)
}

proof fn lemma_failure_index(t: Seq<char>) -> (n: int)
    requires
        names_failure(t),
    ensures
        0 <= n < failure_texts().len(),
        failure_texts()[n] == t,
{
    let f = failure_texts();
    if t == f[0] {
        0
    } else if t == f[1] {
        1
    } else if t == f[2] {
        2
    } else if t == f[3] {
        3
    } else if t == f[4] {
        4
    } else if t == f[5] {
        5
    } else if t == f[6] {
        6
    } else if t == f[7] {
        7
    } else {
        8
    }
}

proof fn lemma_failure_ending(t: Seq<char>)
    requires
        names_failure(t),
    ensures
        is_ascii_chars(t),
        t.len() > 0,
        t.last() == 'd',
        forall|k: int| 0 <= k < t.len() - 1 ==> #[trigger] t[k] != 'd',
{
    reveal_strlit("Trust check failed");
    reveal_strlit("{}: Trust check failed");
    reveal_strlit("Image Url is not trusted");
    reveal_strlit("HttpRequest.Url is not trusted");
    reveal_strlit("Url is not trusted");
    reveal_strlit("url is not trusted");
    reveal_strlit("is not trusted");
    reveal_strlit("not trusted");
    reveal_strlit("Not trusted");
}

proof fn lemma_failure_met(buf: Seq<u8>, t: Seq<char>, i: int)
    requires
        names_failure(t),
        text_stands(buf, t, i),
    ensures
        occurrences(buf, encode_utf8(t), 0).contains(i),
{
    lemma_failure_ending(t);
    is_ascii_chars_encode_utf8(t);
    let b = encode_utf8(t);
    assert forall|k: int| 0 <= k < b.len() - 1 implies #[trigger] b[k] != b.last() by {
        assert(t[k] != 'd');
        assert('\0' <= t[k] <= '\u{7f}');
    }
    lemma_all_occurrences(buf, b, i);
}

/// Wherever a text of a failed check stands and code refers to it, a gate that decides on that
/// code is among the trust gates of the image.
pub proof fn law_gates_of_failures_are_found(
    buf: Seq<u8>,
    base: int,
    t: Seq<char>,
    i: int,
    x: int,
)
    requires
        refers_to_failure(buf, t, i, x),
        gate_for(buf, base, x) is Some,
    ensures
        tests_at(trust_gates(buf, base), gate_for(buf, base, x)->0.test_rva),
        tests_at(
            found_by(buf, base, failure_texts()).gates,
            gate_for(buf, base, x)->0.test_rva,
        ),
{
    let n = lemma_failure_index(t);
    lemma_failure_met(buf, t, i);
    let places = occurrences(buf, encode_utf8(t), 0);
    let j = choose|j: int| 0 <= j < places.len() && places[j] == i;
    let leas = lea_xrefs(buf, i, 0);
    let k = choose|k: int| 0 <= k < leas.len() && leas[k] == x;
    law_every_named_gate_is_found(buf, base, n, j, k);
    lemma_needles_have(buf, base, failure_texts(), n, j, k);
}

/// Whether a gate decides on code that refers to a text of a failed check.
pub open spec fn named_gate(buf: Seq<u8>, base: int, g: Gate) -> bool {
    exists|t: Seq<char>, i: int, x: int|
        #[trigger] refers_to_failure(buf, t, i, x) && gate_for(buf, base, x) == Some(g)
}

/// What every gate is that is met through the texts of failed checks, and every function that is
/// followed.
spec fn all_named(buf: Seq<u8>, base: int, f: Found) -> bool {
    &&& forall|k: int| 0 <= k < f.gates.len() ==> named_gate(buf, base, #[trigger] f.gates[k])
    &&& forall|k: int| 0 <= k < f.fns.len() ==> one_calls(f.gates, #[trigger] f.fns[k])
}

spec fn one_calls(gates: Seq<Gate>, f: int) -> bool {
    exists|j: int| 0 <= j < gates.len() && #[trigger] gates[j].trust_fn_rva == f
}

proof fn lemma_add_named(buf: Seq<u8>, base: int, f: Found, g: Option<Gate>)
    requires
        all_named(buf, base, f),
        g matches Some(h) ==> named_gate(buf, base, h),
    ensures
        all_named(buf, base, add_found(f, g)),
{
    let r = add_found(f, g);
    if r != f {
        let h = g->0;
        assert forall|k: int| 0 <= k < r.fns.len() implies one_calls(
            r.gates,
            #[trigger] r.fns[k],
        ) by {
            if k < f.fns.len() {
                assert(r.fns[k] == f.fns[k]);
                assert(one_calls(f.gates, f.fns[k]));
                let j = choose|j: int|
                    0 <= j < f.gates.len() && #[trigger] f.gates[j].trust_fn_rva == f.fns[k];
                assert(r.gates[j] == f.gates[j]);
            } else {
                assert(r.gates[f.gates.len() as int].trust_fn_rva == h.trust_fn_rva);
            }
        }
        assert forall|k: int| 0 <= k < r.gates.len() implies named_gate(
            buf,
            base,
            #[trigger] r.gates[k],
        ) by {
            if k < f.gates.len() {
                assert(r.gates[k] == f.gates[k]);
            }
        }
    }
}

proof fn lemma_xrefs_named(
    f: Found,
    buf: Seq<u8>,
    base: int,
    xrefs: Seq<int>,
    t: Seq<char>,
    i: int,
)
    requires
        all_named(buf, base, f),
        forall|k: int| 0 <= k < xrefs.len() ==> refers_to_failure(buf, t, i, #[trigger] xrefs[k]),
    ensures
        all_named(buf, base, add_xrefs(f, buf, base, xrefs)),
    decreases xrefs.len(),
{
    if xrefs.len() > 0 {
        let front = xrefs.drop_last();
        assert forall|k: int| 0 <= k < front.len() implies refers_to_failure(
            buf,
            t,
            i,
            #[trigger] front[k],
        ) by {
            assert(front[k] == xrefs[k]);
        }
        lemma_xrefs_named(f, buf, base, front, t, i);
        let x = xrefs[xrefs.len() - 1];
        assert(refers_to_failure(buf, t, i, x));
        lemma_add_named(buf, base, add_xrefs(f, buf, base, front), gate_for(buf, base, x));
    }
}

proof fn lemma_strings_named(f: Found, buf: Seq<u8>, base: int, places: Seq<int>, t: Seq<char>)
    requires
        all_named(buf, base, f),
        names_failure(t),
        forall|k: int| 0 <= k < places.len() ==> text_stands(buf, t, #[trigger] places[k]),
    ensures
        all_named(buf, base, add_strings(f, buf, base, places)),
    decreases places.len(),
{
    if places.len() > 0 {
        let front = places.drop_last();
        assert forall|k: int| 0 <= k < front.len() implies text_stands(
            buf,
            t,
            #[trigger] front[k],
        ) by {
            assert(front[k] == places[k]);
        }
        lemma_strings_named(f, buf, base, front, t);
        let i = places[places.len() - 1];
        assert(text_stands(buf, t, i));
        let leas = lea_xrefs(buf, i, 0);
        assert forall|k: int| 0 <= k < leas.len() implies refers_to_failure(
            buf,
            t,
            i,
            #[trigger] leas[k],
        ) by {
            assert(leas.contains(leas[k]));
        }
        lemma_xrefs_named(add_strings(f, buf, base, front), buf, base, leas, t, i);
    }
}

proof fn lemma_needles_named(buf: Seq<u8>, base: int, needles: Seq<Seq<char>>)
    requires
        forall|k: int| 0 <= k < needles.len() ==> names_failure(#[trigger] needles[k]),
    ensures
        all_named(buf, base, found_by(buf, base, needles)),
    decreases needles.len(),
{
    if needles.len() > 0 {
        let front = needles.drop_last();
        assert forall|k: int| 0 <= k < front.len() implies names_failure(#[trigger] front[k]) by {
            assert(front[k] == needles[k]);
        }
        lemma_needles_named(buf, base, front);
        let t = needles[needles.len() - 1];
        assert(names_failure(t));
        let places = occurrences(buf, encode_utf8(t), 0);
        lemma_occurrences(buf, encode_utf8(t), 0);
        assert forall|k: int| 0 <= k < places.len() implies text_stands(
            buf,
            t,
            #[trigger] places[k],
        ) by {}
        lemma_strings_named(found_by(buf, base, front), buf, base, places, t);
    }
}

/// Whether a gate stands behind a call of the function that a named gate calls.
pub open spec fn caller_of_named(buf: Seq<u8>, base: int, g: Gate) -> bool {
    exists|h: Gate, c: int|
        #[trigger] named_gate(buf, base, h) && #[trigger] direct_calls(
            buf,
            h.trust_fn_rva,
        ).contains(c) && caller_gate(buf, h.trust_fn_rva, c) == Some(g)
}

/// Whether a named gate calls the function at `f`.
pub open spec fn called_by_named(buf: Seq<u8>, base: int, f: int) -> bool {
    exists|h: Gate| #[trigger] named_gate(buf, base, h) && h.trust_fn_rva == f
}

spec fn all_founded(buf: Seq<u8>, base: int, gates: Seq<Gate>) -> bool {
    forall|k: int|
        0 <= k < gates.len() ==> named_gate(buf, base, #[trigger] gates[k]) || caller_of_named(
            buf,
            base,
            gates[k],
        )
}

proof fn lemma_calls_founded(
    gates: Seq<Gate>,
    buf: Seq<u8>,
    base: int,
    h: Gate,
    calls: Seq<int>,
)
    requires
        all_founded(buf, base, gates),
        named_gate(buf, base, h),
        forall|k: int|
            0 <= k < calls.len() ==> direct_calls(buf, h.trust_fn_rva).contains(
                #[trigger] calls[k],
            ),
    ensures
        all_founded(buf, base, add_calls(gates, buf, h.trust_fn_rva, calls)),
    decreases calls.len(),
{
    if calls.len() > 0 {
        let front = calls.drop_last();
        assert forall|k: int| 0 <= k < front.len() implies direct_calls(
            buf,
            h.trust_fn_rva,
        ).contains(#[trigger] front[k]) by {
            assert(front[k] == calls[k]);
        }
        lemma_calls_founded(gates, buf, base, h, front);
        let before = add_calls(gates, buf, h.trust_fn_rva, front);
        let c = calls[calls.len() - 1];
        assert(direct_calls(buf, h.trust_fn_rva).contains(c));
        let g = caller_gate(buf, h.trust_fn_rva, c);
        let r = add_gate(before, g);
        assert forall|k: int| 0 <= k < r.len() implies named_gate(buf, base, #[trigger] r[k])
            || caller_of_named(buf, base, r[k]) by {
            if k < before.len() {
                assert(r[k] == before[k]);
            } else {
                assert(caller_of_named(buf, base, g->0));
            }
        }
    }
}

proof fn lemma_callers_founded(gates: Seq<Gate>, buf: Seq<u8>, base: int, fns: Seq<int>)
    requires
        all_founded(buf, base, gates),
        forall|k: int| 0 <= k < fns.len() ==> called_by_named(buf, base, #[trigger] fns[k]),
    ensures
        all_founded(buf, base, add_callers(gates, buf, fns)),
    decreases fns.len(),
{
    if fns.len() > 0 {
        let front = fns.drop_last();
        assert forall|k: int| 0 <= k < front.len() implies called_by_named(
            buf,
            base,
            #[trigger] front[k],
        ) by {
            assert(front[k] == fns[k]);
        }
        lemma_callers_founded(gates, buf, base, front);
        let f = fns[fns.len() - 1];
        assert(called_by_named(buf, base, f));
        let h = choose|h: Gate| #[trigger] named_gate(buf, base, h) && h.trust_fn_rva == f;
        let calls = direct_calls(buf, f);
        assert forall|k: int| 0 <= k < calls.len() implies direct_calls(
            buf,
            h.trust_fn_rva,
        ).contains(#[trigger] calls[k]) by {}
        lemma_calls_founded(add_callers(gates, buf, front), buf, base, h, calls);
    }
}

/// Every trust gate decides on code that refers to a text of a failed check, or stands behind
/// another call of the function that such a gate calls.
pub proof fn law_gates_are_founded(buf: Seq<u8>, base: int, k: int)
    requires
        0 <= k < trust_gates(buf, base).len(),
    ensures
        named_gate(buf, base, trust_gates(buf, base)[k]) || caller_of_named(
            buf,
            base,
            trust_gates(buf, base)[k],
        ),
{
    let f = found_by(buf, base, failure_texts());
    lemma_needles_named(buf, base, failure_texts());
    assert forall|j: int| 0 <= j < f.fns.len() implies called_by_named(
        buf,
        base,
        #[trigger] f.fns[j],
    ) by {
        assert(one_calls(f.gates, f.fns[j]));
        let i = choose|i: int|
            0 <= i < f.gates.len() && #[trigger] f.gates[i].trust_fn_rva == f.fns[j];
        assert(named_gate(buf, base, f.gates[i]));
    }
    lemma_callers_founded(f.gates, buf, base, f.fns);
}

proof fn lemma_named_fn(buf: Seq<u8>, base: int, g: Gate)
    requires
        named_gate(buf, base, g),
    ensures
        rva_of(base, g.call_rva + 5 + le_i32(buf, g.call_rva + 1)) == Some(g.trust_fn_rva),
        g.test_rva == g.call_rva + 5,
{
    let (t, i, x) = choose|t: Seq<char>, i: int, x: int|
        #[trigger] refers_to_failure(buf, t, i, x) && gate_for(buf, base, x) == Some(g);
    if x >= 0 {
        law_nearest_gate_decides(buf, base, x);
    }
}

/// The functions that the gates met through texts call are followed to every call: behind each,
/// a gate that stands there is among the trust gates.
pub proof fn law_callers_of_failures_are_found(
    buf: Seq<u8>,
    base: int,
    t: Seq<char>,
    i: int,
    x: int,
    c: int,
)
    requires
        refers_to_failure(buf, t, i, x),
        gate_for(buf, base, x) is Some,
        0 <= c < buf.len() - 5,
        buf[c] == 0xe8,
        (c + 5 + le_i32(buf, c + 1)) % 0x1_0000_0000_0000_0000 == gate_for(
            buf,
            base,
            x,
        )->0.trust_fn_rva,
        caller_gate(buf, gate_for(buf, base, x)->0.trust_fn_rva, c) is Some,
    ensures
        tests_at(
            trust_gates(buf, base),
            caller_gate(buf, gate_for(buf, base, x)->0.trust_fn_rva, c)->0.test_rva,
        ),
{
    let g = gate_for(buf, base, x)->0;
    let found = found_by(buf, base, failure_texts());
    law_gates_of_failures_are_found(buf, base, t, i, x);
    lemma_needles_named(buf, base, failure_texts());
    law_functions_of_gates_are_followed(buf, base, failure_texts());
    let k = choose|k: int|
        0 <= k < found.gates.len() && #[trigger] found.gates[k].test_rva == g.test_rva;
    let h = found.gates[k];
    assert(named_gate(buf, base, h));
    assert(named_gate(buf, base, g));
    lemma_named_fn(buf, base, h);
    lemma_named_fn(buf, base, g);
    assert(found.fns.contains(g.trust_fn_rva));
    law_every_caller_is_gated(buf, base, g.trust_fn_rva, c);
}

/// Whether none of the entries patches the byte at `t`.
pub open spec fn nothing_patches(existing: Seq<PatternView>, t: int) -> bool {
    forall|k: int|
        0 <= k < existing.len() && (#[trigger] existing[k]).kind == "bytepatch"@
            ==> match existing[k].patch_offset {
            Some(o) => (existing[k].rva + o) % 0x1_0000_0000_0000_0000 != t,
            None => true,
        }
}

/// A gate gives an entry exactly where no existing entry patches its test; the entries come in
/// the order of the gates and are numbered from zero.
pub proof fn law_open_gates_give_entries(gates: Seq<Gate>, existing: Seq<PatternView>)
    ensures
        gates.len() == 0 ==> gate_entries(gates, existing) == Seq::<PatternView>::empty(),
        gates.len() > 0 && nothing_patches(existing, gates.last().test_rva) ==> {
            let before = gate_entries(gates.drop_last(), existing);
            let all = gate_entries(gates, existing);
            &&& all.len() == before.len() + 1
            &&& all.drop_last() == before
            &&& all.last().name == "TRUST_CHECK_"@ + decimal(before.len() as int)
            &&& all.last().kind == "bytepatch"@
            &&& all.last().rva == gates.last().call_rva
            &&& all.last().patch_offset == Some(gates.last().patch_offset)
            &&& all.last().patch_bytes == Some(gates.last().patch_bytes)
            &&& all.last().pattern_bytes == gates.last().pattern_bytes
            &&& all.last().pattern_mask == gates.last().pattern_mask
            &&& gates.last().patch_bytes == seq![0x0cu8, 0x01u8] ==> all.last().description
                == "trust gate: test al,al -> or al,1 (fn rva 0x"@ + in_base(
                gates.last().trust_fn_rva as nat,
                16,
            ) + ")"@
            &&& gates.last().patch_bytes == seq![0xebu8] ==> all.last().description
                == "trust gate (movzx): short jne -> jmp"@
        },
        gates.len() > 0 && !nothing_patches(existing, gates.last().test_rva) ==> gate_entries(
            gates,
            existing,
        ) == gate_entries(gates.drop_last(), existing),
{
    if gates.len() > 0 {
        let t = gates.last().test_rva;
        assert(covered(existing, t) <==> !nothing_patches(existing, t));
        let before = gate_entries(gates.drop_last(), existing);
        assert(before.push(gate_entry(gates.last(), before.len() as int)).drop_last() =~= before);
        assert(seq![0x0cu8, 0x01u8] =~= OR_AL_1@);
        assert(seq![0xebu8].len() == 1);
    }
}

/// Where code refers to a text of a failed check and a gate decides on it, the list of trust
/// checks has an entry that turns `test al, al` of that gate into `or al, 1`, unless an existing
/// entry patches it.
pub proof fn law_failures_are_patched(
    buf: Seq<u8>,
    base: int,
    existing: Seq<PatternView>,
    t: Seq<char>,
    i: int,
    x: int,
)
    requires
        callers_readable(buf, base),
        refers_to_failure(buf, t, i, x),
        gate_for(buf, base, x) is Some,
        nothing_patches(existing, gate_for(buf, base, x)->0.call_rva + 5),
    ensures
        exists|e: PatternView|
            #[trigger] gate_entries(trust_gates(buf, base), existing).contains(e) && e.rva
                == gate_for(buf, base, x)->0.call_rva && e.kind == "bytepatch"@ && e.patch_offset
                == Some(5int) && e.patch_bytes == Some(seq![0x0cu8, 0x01u8]),
{
    let g = gate_for(buf, base, x)->0;
    let gates = trust_gates(buf, base);
    law_gates_of_failures_are_found(buf, base, t, i, x);
    assert(named_gate(buf, base, g));
    lemma_named_fn(buf, base, g);
    law_gates_are_true(buf, base);
    let j = choose|j: int| 0 <= j < gates.len() && #[trigger] gates[j].test_rva == g.test_rva;
    let h = gates[j];
    assert(true_gate(buf, h));
    if x >= 0 {
        law_nearest_gate_decides(buf, base, x);
    }
    assert(buf[g.test_rva + 1] == 0xc0);
    assert(h.patch_bytes == OR_AL_1@);
    assert(seq![0x0cu8, 0x01u8] =~= OR_AL_1@);
    assert(!covered(existing, h.test_rva));
    law_uncovered_gates_have_entries(gates, existing, j);
    let all = gate_entries(gates, existing);
    let k = choose|k: int| 0 <= k < all.len() && #[trigger] all[k] == gate_entry(h, k);
    assert(all.contains(all[k]));
}

/// Whether a text about trust is one of those that are reported.
pub open spec fn speaks_of_trust(t: Seq<char>) -> bool {
    ||| t == "Trust check failed"@
    ||| t == "is not trusted"@
    ||| t == "not trusted"@
    ||| t == "trusted host"@
    ||| t == "TRUSTED_HOSTS"@
    ||| t == "trust check"@
    ||| t == "TrustCheck"@
    ||| t == "url is not trusted"@
}

proof fn lemma_reported_index(t: Seq<char>) -> (n: int)
    requires
        speaks_of_trust(t),
    ensures
        0 <= n < reported_texts().len(),
        reported_texts()[n] == t,
        t.len() > 0,
{
    reveal_strlit("Trust check failed");
    reveal_strlit("is not trusted");
    reveal_strlit("not trusted");
    reveal_strlit("trusted host");
    reveal_strlit("TRUSTED_HOSTS");
    reveal_strlit("trust check");
    reveal_strlit("TrustCheck");
    reveal_strlit("url is not trusted");
    let f = reported_texts();
    if t == f[0] {
        0
    } else if t == f[1] {
        1
    } else if t == f[2] {
        2
    } else if t == f[3] {
        3
    } else if t == f[4] {
        4
    } else if t == f[5] {
        5
    } else if t == f[6] {
        6
    } else {
        7
    }
}

proof fn lemma_reported(buf: Seq<u8>, texts: Seq<Seq<char>>, n: int, j: int)
    requires
        0 <= n < texts.len(),
        0 <= j < occurrences(buf, encode_utf8(texts[n]), 0).len(),
    ensures
        exists|k: int|
            0 <= k < all_text_entries(buf, texts).len() && (#[trigger] all_text_entries(
                buf,
                texts,
            )[k]).text == texts[n] && all_text_entries(buf, texts)[k].rva == occurrences(
                buf,
                encode_utf8(texts[n]),
                0,
            )[j],
    decreases texts.len(),
{
    let front = texts.drop_last();
    let before = all_text_entries(buf, front);
    let all = all_text_entries(buf, texts);
    let places = occurrences(buf, encode_utf8(texts[n]), 0);
    if n < front.len() {
        lemma_reported(buf, front, n, j);
        let k = choose|k: int|
            0 <= k < before.len() && (#[trigger] before[k]).text == texts[n] && before[k].rva
                == places[j];
        assert(all[k] == before[k]);
    } else {
        assert(all[before.len() + j] == text_entries(buf, texts.last(), places)[j]);
    }
}

/// Wherever one of the texts about trust stands, it is reported there, or an earlier report of the
/// same text overlaps it.
pub proof fn law_texts_about_trust_are_reported(buf: Seq<u8>, t: Seq<char>, i: int)
    requires
        speaks_of_trust(t),
        text_stands(buf, t, i),
    ensures
        exists|e: TrustStringView|
            #[trigger] all_text_entries(buf, reported_texts()).contains(e) && e.text == t && i
                - encode_utf8(t).len() < e.rva <= i,
{
    let n = lemma_reported_index(t);
    let b = encode_utf8(t);
    let places = occurrences(buf, b, 0);
    vstd::utf8::encode_utf8_decode_utf8(t);
    assert(b.len() > 0) by {
        if b.len() == 0 {
            assert(b =~= Seq::empty());
            assert(vstd::utf8::decode_utf8(b) =~= Seq::empty());
        }
    }
    law_every_occurrence_counts(buf, b, i);
    let j = choose|j: int| 0 <= j < places.len() && i - b.len() < #[trigger] places[j] <= i;
    lemma_reported(buf, reported_texts(), n, j);
    let all = all_text_entries(buf, reported_texts());
    let k = choose|k: int|
        0 <= k < all.len() && (#[trigger] all[k]).text == reported_texts()[n] && all[k].rva
            == places[j];
    assert(all.contains(all[k]));
}

proof fn lemma_entry_source(buf: Seq<u8>, texts: Seq<Seq<char>>, k: int)
    requires
        0 <= k < all_text_entries(buf, texts).len(),
    ensures
        texts.contains(all_text_entries(buf, texts)[k].text),
        all_text_entries(buf, texts)[k].xref_rva == next_xref(
            buf,
            all_text_entries(buf, texts)[k].rva,
            0,
        ),
    decreases texts.len(),
{
    let front = texts.drop_last();
    let before = all_text_entries(buf, front);
    let all = all_text_entries(buf, texts);
    let places = occurrences(buf, encode_utf8(texts.last()), 0);
    if k < before.len() {
        lemma_entry_source(buf, front, k);
        assert(all[k] == before[k]);
        let j = choose|j: int| 0 <= j < front.len() && front[j] == before[k].text;
        assert(texts[j] == before[k].text);
    } else {
        assert(all[k] == text_entries(buf, texts.last(), places)[k - before.len()]);
        assert(texts[texts.len() - 1] == texts.last());
    }
}

/// Every report is of a text about trust, and names the first code that refers to it.
pub proof fn law_reports_are_about_trust(buf: Seq<u8>, k: int)
    requires
        0 <= k < all_text_entries(buf, reported_texts()).len(),
    ensures
        speaks_of_trust(all_text_entries(buf, reported_texts())[k].text),
        all_text_entries(buf, reported_texts())[k].xref_rva == next_xref(
            buf,
            all_text_entries(buf, reported_texts())[k].rva,
            0,
        ),
{
    lemma_entry_source(buf, reported_texts(), k);
}

/// Where no call begins among the last twelve bytes of an image, the gates behind all calls can be
/// read.
pub proof fn law_whole_calls_can_be_read(buf: Seq<u8>, base: int)
    requires
        forall|c: int|
            0 <= c < buf.len() && buf.len() - 13 < c ==> #[trigger] buf[c] != 0xe8,
    ensures
        callers_readable(buf, base),
{
    let fns = found_by(buf, base, failure_texts()).fns;
    assert forall|k: int, j: int|
        0 <= k < fns.len() && 0 <= j < direct_calls(buf, fns[k]).len() implies site_readable(
        buf,
        #[trigger] direct_calls(buf, fns[k])[j],
    ) by {
        let c = direct_calls(buf, fns[k])[j];
        assert(direct_calls(buf, fns[k]).contains(c));
        law_all_calls_are_found(buf, fns[k], c);
        assert(buf[c] == 0xe8);
    }
}

/// What follows a call can be read where at least eight more bytes follow it, however the image
/// goes on.
pub proof fn law_whole_sites_can_be_read(buf: Seq<u8>, c: int)
    requires
        0 <= c,
        c + 13 <= buf.len(),
    ensures
        site_readable(buf, c),
        jcc_readable(buf, c + 7),
{
}

} // verus!
