//! What the search for the security-cookie check finds, stated on the instructions of the image.
use crate::code::wrap;
use crate::cookie::{
    chain, decoded, instr_at, instrs_at, is_je, jnz_bytes, jz_back, jz_before, jz_from,
    last_guarded, security_cookie, walk_of, Decoded, Walk,
};
use crate::runtime::{cookie_search, CookieSearchView};
use crate::scan_trust::next_xref;
use crate::search::{lemma_next_occurrence, next_occurrence, occurs_at};
use vstd::prelude::*;
use vstd::utf8::encode_utf8;

verus! {

/// The instruction that is read at `pos` in an image that lies at `base`.
pub open spec fn read_at(buf: Seq<u8>, base: int, pos: int) -> Decoded {
    decoded(
        buf.subrange(pos, buf.len() as int),
        ((base + pos) % 0x1_0000_0000_0000_0000) as u64,
    )
}

/// Whether instructions stand at the places, each where the one before it ends, and the last of
/// them ends at `stop`.
pub open spec fn reading(buf: Seq<u8>, base: int, places: Seq<int>, stop: int) -> bool {
    &&& places.len() > 0
    &&& forall|k: int|
        0 <= k < places.len() ==> {
            let pos = #[trigger] places[k];
            &&& 0 <= pos
            &&& read_at(buf, base, pos).len >= 1
            &&& pos + read_at(buf, base, pos).len <= buf.len()
            &&& pos + read_at(buf, base, pos).len == (if k + 1 < places.len() {
                places[k + 1]
            } else {
                stop
            })
        }
}

/// Whether the instruction at the `j`-th place is a short or near `je`, and the one directly before
/// it is a `cmp`.
pub open spec fn guard_at(buf: Seq<u8>, base: int, places: Seq<int>, j: int) -> bool {
    &&& 1 <= j < places.len()
    &&& read_at(buf, base, places[j]).short_je || read_at(buf, base, places[j]).near_je
    &&& read_at(buf, base, places[j - 1]).compares
}

/// Whether two offsets of an image at `base` lie in one run of addresses, without the end of the
/// address space between them.
pub open spec fn one_run(base: int, a: int, b: int) -> bool {
    (base + a) / 0x1_0000_0000_0000_0000 == (base + b) / 0x1_0000_0000_0000_0000
}

proof fn lemma_below(buf: Seq<u8>, base: int, places: Seq<int>, stop: int, k: int)
    requires
        reading(buf, base, places, stop),
        0 <= k < places.len(),
    ensures
        places[0] <= places[k] < stop,
        k > 0 ==> places[0] < places[k],
    decreases places.len(),
{
    lemma_up(buf, base, places, stop, k);
    lemma_down(buf, base, places, stop, k);
}

proof fn lemma_up(buf: Seq<u8>, base: int, places: Seq<int>, stop: int, k: int)
    requires
        reading(buf, base, places, stop),
        0 <= k < places.len(),
    ensures
        places[k] < stop,
    decreases places.len() - k,
{
    let pos = places[k];
    if k + 1 < places.len() {
        lemma_up(buf, base, places, stop, k + 1);
    }
}

proof fn lemma_down(buf: Seq<u8>, base: int, places: Seq<int>, stop: int, k: int)
    requires
        reading(buf, base, places, stop),
        0 <= k < places.len(),
    ensures
        places[0] <= places[k],
        k > 0 ==> places[0] < places[k],
    decreases k,
{
    if k > 0 {
        let pos = places[k - 1];
        lemma_down(buf, base, places, stop, k - 1);
    }
}

proof fn lemma_run(base: int, a: int, b: int)
    requires
        a <= b,
        one_run(base, a, b),
    ensures
        wrap(base + a) <= wrap(base + b),
        forall|c: int| a <= c <= b ==> #[trigger] one_run(base, c, b),
{
}

/// Reading from the first place goes through all of them.
proof fn lemma_read(buf: Seq<u8>, base: int, places: Seq<int>, stop: int)
    requires
        reading(buf, base, places, stop),
        one_run(base, places[0], stop),
    ensures
        chain(buf, base, places[0], stop) == Some(places),
    decreases places.len(),
{
    let pos = places[0];
    lemma_below(buf, base, places, stop, 0);
    let len = instr_at(buf, base, pos).len;
    assert(instr_at(buf, base, pos) == read_at(buf, base, pos));
    if places.len() == 1 {
        assert(pos + len == stop);
        assert(seq![pos] =~= places);
    } else {
        let rest = places.drop_first();
        assert(pos + len == places[1]);
        lemma_below(buf, base, places, stop, 1);
        assert(reading(buf, base, rest, stop)) by {
            assert forall|k: int| 0 <= k < rest.len() implies {
                let p = #[trigger] rest[k];
                &&& 0 <= p
                &&& read_at(buf, base, p).len >= 1
                &&& p + read_at(buf, base, p).len <= buf.len()
                &&& p + read_at(buf, base, p).len == (if k + 1 < rest.len() {
                    rest[k + 1]
                } else {
                    stop
                })
            } by {
                assert(rest[k] == places[k + 1]);
            }
        }
        lemma_run(base, pos, stop);
        assert(one_run(base, places[1], stop));
        lemma_read(buf, base, rest, stop);
        assert(walk_of(base, pos, len as int, stop) == Walk::On);
        assert(seq![pos] + rest =~= places);
    }
}

/// What is read is a reading.
proof fn lemma_is_reading(buf: Seq<u8>, base: int, pos: int, stop: int)
    requires
        0 <= pos,
        chain(buf, base, pos, stop) is Some,
    ensures
        reading(buf, base, chain(buf, base, pos, stop)->0, stop),
        chain(buf, base, pos, stop)->0[0] == pos,
    decreases buf.len() - pos,
{
    let len = instr_at(buf, base, pos).len;
    assert(instr_at(buf, base, pos) == read_at(buf, base, pos));
    let all = chain(buf, base, pos, stop)->0;
    if pos + len == stop {
        assert(all =~= seq![pos]);
    } else {
        lemma_is_reading(buf, base, pos + len, stop);
        let rest = chain(buf, base, pos + len, stop)->0;
        assert(all =~= seq![pos] + rest);
        assert forall|k: int| 0 <= k < all.len() implies {
            let p = #[trigger] all[k];
            &&& 0 <= p
            &&& read_at(buf, base, p).len >= 1
            &&& p + read_at(buf, base, p).len <= buf.len()
            &&& p + read_at(buf, base, p).len == (if k + 1 < all.len() {
                all[k + 1]
            } else {
                stop
            })
        } by {
            if k > 0 {
                assert(all[k] == rest[k - 1]);
                if k + 1 < all.len() {
                    assert(all[k + 1] == rest[k]);
                }
            } else {
                assert(all[1] == rest[0]);
            }
        }
    }
}

/// Of the `je`s that directly follow a `cmp` the last one is taken.
pub proof fn law_last_guarded_jump_is_taken(instrs: Seq<Decoded>, n: int)
    requires
        0 <= n <= instrs.len(),
    ensures
        match last_guarded(instrs, n) {
            Some(k) => 1 <= k < n && (instrs[k].short_je || instrs[k].near_je) && instrs[k
                - 1].compares && forall|m: int|
                k < m < n ==> !(((#[trigger] instrs[m]).short_je || instrs[m].near_je) && instrs[m
                    - 1].compares),
            None => forall|m: int|
                1 <= m < n ==> !(((#[trigger] instrs[m]).short_je || instrs[m].near_je) && instrs[m
                    - 1].compares),
        },
    decreases n,
{
    if n > 1 && !(is_je(instrs[n - 1]) && instrs[n - 2].compares) {
        law_last_guarded_jump_is_taken(instrs, n - 1);
    }
}

proof fn lemma_jz_from(buf: Seq<u8>, base: int, places: Seq<int>, stop: int)
    requires
        reading(buf, base, places, stop),
        one_run(base, places[0], stop),
    ensures
        match jz_from(buf, base, places[0], stop) {
            Some(jz) => exists|j: int|
                #[trigger] guard_at(buf, base, places, j) && places[j] == jz && forall|m: int|
                    m > j ==> !#[trigger] guard_at(buf, base, places, m),
            None => forall|m: int| !#[trigger] guard_at(buf, base, places, m),
        },
{
    lemma_read(buf, base, places, stop);
    let instrs = instrs_at(buf, base, places);
    law_last_guarded_jump_is_taken(instrs, places.len() as int);
    assert forall|m: int| 1 <= m < places.len() implies (guard_at(buf, base, places, m) <==> is_je(
        instrs[m],
    ) && instrs[m - 1].compares) by {
        assert(instrs[m] == read_at(buf, base, places[m]));
        assert(instrs[m - 1] == read_at(buf, base, places[m - 1]));
    }
    match last_guarded(instrs, places.len() as int) {
        Some(k) => {
            assert(guard_at(buf, base, places, k));
            assert forall|m: int| m > k implies !#[trigger] guard_at(buf, base, places, m) by {
                if m < places.len() {
                    let d = instrs[m];
                }
            }
        },
        None => {
            assert forall|m: int| !#[trigger] guard_at(buf, base, places, m) by {
                if 1 <= m < places.len() {
                    let d = instrs[m];
                }
            }
        },
    }
}

proof fn lemma_jz_back(buf: Seq<u8>, base: int, from: int, low: int, stop: int)
    ensures
        match jz_back(buf, base, from, low, stop) {
            Some(jz) => exists|s: int|
                low <= s <= from && #[trigger] jz_from(buf, base, s, stop) == Some(jz) && forall|
                    r: int,
                |
                    s < r <= from ==> #[trigger] jz_from(buf, base, r, stop) is None,
            None => forall|r: int|
                low <= r <= from ==> #[trigger] jz_from(buf, base, r, stop) is None,
        },
    decreases from - low + 1,
{
    if from >= low && jz_from(buf, base, from, stop) is None {
        lemma_jz_back(buf, base, from - 1, low, stop);
        if let Some(jz) = jz_back(buf, base, from, low, stop) {
            let s = choose|s: int|
                low <= s <= from - 1 && #[trigger] jz_from(buf, base, s, stop) == Some(jz)
                    && forall|r: int|
                    s < r <= from - 1 ==> #[trigger] jz_from(buf, base, r, stop) is None;
            assert(jz_from(buf, base, s, stop) == Some(jz));
        }
    }
}

/// If the instructions that are read from some start between five and a hundred bytes before a
/// place end exactly at it and hold a `je` directly behind a `cmp`, a jump is found. The start and
/// the place must not have the end of the address space between them.
pub proof fn law_guarded_jump_is_found(
    buf: Seq<u8>,
    base: int,
    xref: int,
    places: Seq<int>,
    j: int,
)
    requires
        reading(buf, base, places, xref),
        xref - 100 <= places[0] <= xref - 5,
        one_run(base, places[0], xref),
        guard_at(buf, base, places, j),
    ensures
        jz_before(buf, base, xref) is Some,
{
    lemma_jz_from(buf, base, places, xref);
    let low = if xref < 100 {
        0
    } else {
        xref - 100
    };
    let pos = places[0];
    lemma_jz_back(buf, base, xref - 5, low, xref);
}

/// A jump that is found is the last `je` directly behind a `cmp` among the instructions from some
/// start between five and a hundred bytes before the place, and the instructions from no nearer
/// start hold one.
pub proof fn law_found_jump_is_the_nearest(buf: Seq<u8>, base: int, xref: int)
    requires
        jz_before(buf, base, xref) is Some,
    ensures
        exists|places: Seq<int>, j: int|
            {
                &&& #[trigger] guard_at(buf, base, places, j)
                &&& reading(buf, base, places, xref)
                &&& xref - 100 <= places[0] <= xref - 5
                &&& places[j] == jz_before(buf, base, xref)->0
                &&& forall|m: int| m > j ==> !#[trigger] guard_at(buf, base, places, m)
                &&& forall|q: Seq<int>, m: int|
                    reading(buf, base, q, xref) && places[0] < q[0] <= xref - 5 && one_run(
                        base,
                        q[0],
                        xref,
                    ) ==> !#[trigger] guard_at(buf, base, q, m)
            },
{
    let low = if xref < 100 {
        0
    } else {
        xref - 100
    };
    let jz = jz_before(buf, base, xref)->0;
    lemma_jz_back(buf, base, xref - 5, low, xref);
    let s = choose|s: int|
        low <= s <= xref - 5 && #[trigger] jz_from(buf, base, s, xref) == Some(jz) && forall|
            r: int,
        |
            s < r <= xref - 5 ==> #[trigger] jz_from(buf, base, r, xref) is None;
    lemma_is_reading(buf, base, s, xref);
    let places = chain(buf, base, s, xref)->0;
    let instrs = instrs_at(buf, base, places);
    law_last_guarded_jump_is_taken(instrs, places.len() as int);
    let j = last_guarded(instrs, places.len() as int)->0;
    assert(instrs[j] == read_at(buf, base, places[j]));
    assert(instrs[j - 1] == read_at(buf, base, places[j - 1]));
    assert(guard_at(buf, base, places, j));
    assert forall|m: int| m > j implies !#[trigger] guard_at(buf, base, places, m) by {
        if m < places.len() {
            assert(instrs[m] == read_at(buf, base, places[m]));
            assert(instrs[m - 1] == read_at(buf, base, places[m - 1]));
        }
    }
    assert forall|q: Seq<int>, m: int|
        reading(buf, base, q, xref) && places[0] < q[0] <= xref - 5 && one_run(
            base,
            q[0],
            xref,
        ) implies !#[trigger] guard_at(buf, base, q, m) by {
        lemma_jz_from(buf, base, q, xref);
        assert(jz_from(buf, base, q[0], xref) is None);
    }
}

/// Where the text of the check stands, code refers to it and a guarded jump leads there, the check
/// is found: it is patched, unless its jump has another form.
pub proof fn law_cookie_check_is_found(
    buf: Seq<u8>,
    base: int,
    s: int,
    xref: int,
    places: Seq<int>,
    j: int,
)
    requires
        next_occurrence(
            buf,
            encode_utf8(
                "[FLog::StudioCookieManager] Security cookie is cached so we proceed saving now."@,
            ),
            0,
        ) == Some(s),
        next_xref(buf, s, 0) == Some(xref),
        reading(buf, base, places, xref),
        xref - 100 <= places[0] <= xref - 5,
        one_run(base, places[0], xref),
        guard_at(buf, base, places, j),
    ensures
        ({
            let jz = jz_before(buf, base, xref)->0;
            let opcode = buf.subrange(jz, jz + read_at(buf, base, jz).len);
            match jnz_bytes(opcode) {
                Some(patch) => {
                    &&& cookie_search(buf, base) == CookieSearchView::Patch(jz, patch)
                    &&& security_cookie(buf, base) matches Some(e)
                    &&& e.string_rva == s
                    &&& e.xref_rva == xref
                    &&& e.jz_rva == jz
                    &&& e.opcode_len == opcode.len()
                    &&& e.original_opcode == opcode
                    &&& e.patch_bytes == patch
                },
                None => cookie_search(buf, base) == CookieSearchView::OtherForm(jz)
                    && security_cookie(buf, base) is None,
            }
        }),
{
    law_guarded_jump_is_found(buf, base, xref, places, j);
    let jz = jz_before(buf, base, xref)->0;
    assert(instr_at(buf, base, jz) == read_at(buf, base, jz));
}

/// Both forms of `je` are turned into `jne`, whatever displacement follows; nothing else is
/// patched.
pub proof fn law_both_forms_are_turned(rest: Seq<u8>, opcode: Seq<u8>)
    ensures
        jnz_bytes(seq![0x74u8] + rest) == Some(seq![0x75u8]),
        jnz_bytes(seq![0x0fu8, 0x84u8] + rest) == Some(seq![0x0fu8, 0x85u8]),
        jnz_bytes(opcode) is Some ==> opcode.len() > 0 && (opcode[0] == 0x74 || (opcode.len() > 1
            && opcode[0] == 0x0f && opcode[1] == 0x84)),
{
    assert((seq![0x0fu8, 0x84u8] + rest)[0] == 0x0f);
    assert((seq![0x0fu8, 0x84u8] + rest)[1] == 0x84);
    assert((seq![0x74u8] + rest)[0] == 0x74);
}

/// The search tells what is missing: the text where it stands nowhere, the code that refers to its
/// first place, or the jump before the first code that does.
pub proof fn law_search_tells_what_is_missing(buf: Seq<u8>, base: int, i: int)
    ensures
        ({
            let text = encode_utf8(
                "[FLog::StudioCookieManager] Security cookie is cached so we proceed saving now."@,
            );
            let stands = 0 <= i && i + text.len() <= buf.len() && buf.subrange(
                i,
                i + text.len(),
            ) == text;
            match cookie_search(buf, base) {
                CookieSearchView::NoText => !stands,
                CookieSearchView::NoReference(s) => 0 <= s && s + text.len() <= buf.len()
                    && buf.subrange(s, s + text.len()) == text && (stands ==> s <= i)
                    && next_xref(buf, s, 0) is None,
                CookieSearchView::NoJump(x) => exists|s: int|
                    #[trigger] next_xref(buf, s, 0) == Some(x) && 0 <= s && s + text.len()
                        <= buf.len() && buf.subrange(s, s + text.len()) == text && jz_before(
                        buf,
                        base,
                        x,
                    ) is None,
                _ => true,
            }
        }),
        security_cookie(buf, base) is Some <==> cookie_search(buf, base) is Patch,
{
    let text = encode_utf8(
        "[FLog::StudioCookieManager] Security cookie is cached so we proceed saving now."@,
    );
    lemma_next_occurrence(buf, text, 0);
    let stands = 0 <= i && i + text.len() <= buf.len() && buf.subrange(i, i + text.len()) == text;
    if stands {
        assert(occurs_at(buf, text, i));
    }
    if let CookieSearchView::NoJump(x) = cookie_search(buf, base) {
        let s = next_occurrence(buf, text, 0)->0;
        assert(next_xref(buf, s, 0) == Some(x));
    }
}

/// Reading is done where an instruction ends at the place that is looked for, is lost where one
/// begins behind it, and goes on otherwise.
pub proof fn law_reading_ends_at_the_place(base: int, pos: int, len: int, stop: int)
    requires
        0 <= base,
        0 <= pos,
        0 <= stop,
        base + pos < 0x1_0000_0000_0000_0000,
        base + stop < 0x1_0000_0000_0000_0000,
    ensures
        walk_of(base, pos, len, stop) == Walk::Met <==> pos + len == stop,
        walk_of(base, pos, len, stop) == Walk::Lost <==> pos + len != stop && pos > stop,
{
}

} // verus!
