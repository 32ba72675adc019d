//! Trust checks in an image: the strings that name them, the code that refers to those
//! strings, and the gates that decide on them.
use crate::code::{
    jcc_at, jcc_info, jcc_readable, le_i32, read_i32, rva_from, rva_of, wrap, wrapped, Jcc,
};
use crate::numbers::{count_text, decimal, hex_text, in_base};
use crate::pe::PeImage;
use crate::scan_patterns::{entries, PatternEntry, PatternView, ANY, OR_AL_1, SAME};
use crate::search::{all_occurrences, as_int, as_ints, occurrences, same_bytes};
use crate::text::{join, same_text};
use vstd::prelude::*;
use vstd::slice::{slice_subrange, slice_to_vec};
use vstd::utf8::encode_utf8;

verus! {

/// A text about trust that stands in the image, and the first code that refers to it.
#[derive(Debug, Clone)]
pub struct TrustStringEntry {
    pub rva: usize,
    pub text: String,
    pub xref_rva: Option<usize>,
}

/// What a `TrustStringEntry` holds.
#[verifier::ext_equal]
pub struct TrustStringView {
    pub rva: int,
    pub text: Seq<char>,
    pub xref_rva: Option<int>,
}

impl View for TrustStringEntry {
    type V = TrustStringView;

    open spec fn view(&self) -> TrustStringView {
        TrustStringView {
            rva: self.rva as int,
            text: self.text@,
            xref_rva: as_int(self.xref_rva),
        }
    }
}

/// The entries of a vector.
pub open spec fn string_entries(v: Seq<TrustStringEntry>) -> Seq<TrustStringView> {
    v.map_values(|e: TrustStringEntry| e@)
}

/// Whether the byte is the `modrm` of an operand relative to the instruction pointer.
pub open spec fn rip_relative(modrm: u8) -> bool {
    modrm & 0xc7 == 0x05
}

/// Whether a `lea` with a wide register stands at `o` and refers to `rva`.
pub open spec fn wide_lea_to(buf: Seq<u8>, o: int, rva: int) -> bool {
    (buf[o] == 0x48 || buf[o] == 0x4c) && buf[o + 1] == 0x8d && rip_relative(buf[o + 2]) && wrap(
        o + 7 + le_i32(buf, o + 3),
    ) == rva
}

/// The first wide `lea` at or after `from` that refers to `rva`; the last seven bytes are
/// not looked at.
pub open spec fn next_xref(buf: Seq<u8>, rva: int, from: int) -> Option<int>
    decreases buf.len() - from,
{
    if from + 7 >= buf.len() {
        None
    } else if wide_lea_to(buf, from, rva) {
        Some(from)
    } else {
        next_xref(buf, rva, from + 1)
    }
}

/// The first wide `lea` that refers to `target_rva`.
pub(crate) fn find_xref(image: &PeImage, target_rva: usize) -> (r: Option<usize>)
    ensures
        as_int(r) == next_xref(image.reconstructed@, target_rva as int, 0),
{
    let buf = image.reconstructed.as_slice();
    let mut o: usize = 0;
    while buf.len() >= 7 && o < buf.len() - 7
        invariant
            buf@ == image.reconstructed@,
            o <= buf@.len(),
            next_xref(buf@, target_rva as int, 0) == next_xref(buf@, target_rva as int, o as int),
        decreases buf.len() - o,
    {
        if (buf[o] == 0x48 || buf[o] == 0x4c) && buf[o + 1] == 0x8d && buf[o + 2] & 0xc7 == 0x05 {
            let disp: i64 = read_i32(buf, o + 3);
            if wrapped(o as i128 + 7 + disp as i128) == target_rva as u64 {
                return Some(o);
            }
        }
        o += 1;
    }
    None
}

/// The length of the `lea`, with or without a prefix, that stands at `i` with an operand
/// relative to the instruction pointer; zero where there is none.
pub open spec fn lea_len(buf: Seq<u8>, i: int) -> int {
    let prefix: int = if 0x40 <= buf[i] <= 0x4f {
        1
    } else {
        0
    };
    if i + prefix + 6 <= buf.len() && buf[i + prefix] == 0x8d && rip_relative(
        buf[i + prefix + 1],
    ) {
        prefix + 6
    } else {
        0
    }
}

/// The offsets from `i` on of the `lea`s that refer to `rva`: a sweep that steps over each
/// `lea` whole and over any other byte by itself.
pub open spec fn lea_xrefs(buf: Seq<u8>, rva: int, i: int) -> Seq<int>
    decreases buf.len() - i,
{
    if i + 6 > buf.len() {
        Seq::empty()
    } else {
        let n = lea_len(buf, i);
        if n == 0 {
            lea_xrefs(buf, rva, i + 1)
        } else if wrap(i + n + le_i32(buf, i + n - 4)) == rva {
            seq![i] + lea_xrefs(buf, rva, i + n)
        } else {
            lea_xrefs(buf, rva, i + n)
        }
    }
}

/// The offsets of the `lea`s that refer to `target_rva`.
fn find_all_lea_xrefs(image: &PeImage, target_rva: usize) -> (out: Vec<usize>)
    ensures
        as_ints(out@) == lea_xrefs(image.reconstructed@, target_rva as int, 0),
{
    let buf = image.reconstructed.as_slice();
    let mut out: Vec<usize> = Vec::new();
    let mut i: usize = 0;
    while buf.len() - i >= 6
        invariant
            buf@ == image.reconstructed@,
            i <= buf@.len(),
            lea_xrefs(buf@, target_rva as int, 0) =~= as_ints(out@) + lea_xrefs(
                buf@,
                target_rva as int,
                i as int,
            ),
        decreases buf.len() - i,
    {
        let prefix: usize = if 0x40 <= buf[i] && buf[i] <= 0x4f {
            1
        } else {
            0
        };
        let left: usize = buf.len() - i;
        if left >= prefix + 6 && buf[i + prefix] == 0x8d && buf[i + prefix + 1] & 0xc7 == 0x05 {
            let n: usize = prefix + 6;
            let disp: i64 = read_i32(buf, i + n - 4);
            let ghost before = as_ints(out@);
            if wrapped(i as i128 + n as i128 + disp as i128) == target_rva as u64 {
                out.push(i);
                assert(as_ints(out@) =~= before.push(i as int));
            }
            i += n;
        } else {
            i += 1;
        }
    }
    out
}

/// The offsets below `n` of the `call`s to `rva`.
pub open spec fn calls_below(buf: Seq<u8>, rva: int, n: int) -> Seq<int>
    decreases n,
{
    if n <= 0 {
        Seq::empty()
    } else {
        let before = calls_below(buf, rva, n - 1);
        if buf[n - 1] == 0xe8 && wrap(n + 4 + le_i32(buf, n)) == rva {
            before.push(n - 1)
        } else {
            before
        }
    }
}

/// The offsets of the `call`s to `rva`, those at the very end of the image left out.
pub open spec fn direct_calls(buf: Seq<u8>, rva: int) -> Seq<int> {
    calls_below(buf, rva, buf.len() - 5)
}

/// The offsets of the `call`s to `target_rva`.
fn find_all_direct_calls(image: &PeImage, target_rva: u64) -> (out: Vec<usize>)
    ensures
        as_ints(out@) == direct_calls(image.reconstructed@, target_rva as int),
{
    let buf = image.reconstructed.as_slice();
    let mut out: Vec<usize> = Vec::new();
    let end: usize = if buf.len() >= 5 {
        buf.len() - 5
    } else {
        0
    };
    for i in 0..end
        invariant
            buf@ == image.reconstructed@,
            end > 0 ==> end == buf@.len() - 5,
            as_ints(out@) =~= calls_below(buf@, target_rva as int, i as int),
    {
        if buf[i] == 0xe8 {
            let disp: i64 = read_i32(buf, i + 1);
            if wrapped(i as i128 + 5 + disp as i128) == target_rva {
                let ghost before = as_ints(out@);
                out.push(i);
                assert(as_ints(out@) =~= before.push(i as int));
            }
        }
    }
    out
}

/// A place at which code acts on what a trust check returned.
struct TrustGate {
    call_rva: usize,
    trust_fn_rva: u64,
    test_rva: usize,
    patch_offset: usize,
    patch_bytes: Vec<u8>,
    pattern_bytes: Vec<u8>,
    pattern_mask: Vec<u8>,
}

/// A gate: the call that it follows, the function called, the test on its result, the
/// patch that opens it (the offset is from the call) and the masked bytes by which it is
/// known.
#[verifier::ext_equal]
pub struct Gate {
    pub call_rva: int,
    pub trust_fn_rva: int,
    pub test_rva: int,
    pub patch_offset: int,
    pub patch_bytes: Seq<u8>,
    pub pattern_bytes: Seq<u8>,
    pub pattern_mask: Seq<u8>,
}

impl View for TrustGate {
    type V = Gate;

    closed spec fn view(&self) -> Gate {
        Gate {
            call_rva: self.call_rva as int,
            trust_fn_rva: self.trust_fn_rva as int,
            test_rva: self.test_rva as int,
            patch_offset: self.patch_offset as int,
            patch_bytes: self.patch_bytes@,
            pattern_bytes: self.pattern_bytes@,
            pattern_mask: self.pattern_mask@,
        }
    }
}

/// The mask of `call; test al, al; jcc` with a jump of `len` bytes, the first `kept` of which are
/// asked for: the displacement of the call and the rest of the jump may be any.
pub open spec fn al_mask(len: int, kept: int) -> Seq<u8> {
    Seq::new(
        (7 + len) as nat,
        |k: int|
            if 1 <= k <= 4 {
                ANY
            } else if k < 7 + kept {
                SAME
            } else {
                ANY
            },
    )
}

/// The trust gate `call; test al, al; jcc` whose call to `trust_fn` stands at `p`: `test al, al`
/// becomes `or al, 1`. The jump takes `len` bytes, the first `kept` of which are asked for.
pub open spec fn al_gate(buf: Seq<u8>, p: int, trust_fn: int, len: int, kept: int) -> Gate {
    Gate {
        call_rva: p,
        trust_fn_rva: trust_fn,
        test_rva: p + 5,
        patch_offset: 5,
        patch_bytes: OR_AL_1@,
        pattern_bytes: buf.subrange(p, p + 7 + len),
        pattern_mask: al_mask(len, kept),
    }
}

/// The bytes of the opcode of a `je` or `jne` of `len` bytes.
pub open spec fn opcode_len(len: int) -> int {
    if len == 6 {
        2
    } else {
        1
    }
}

fn make_al_gate(buf: &[u8], p: usize, trust_fn: u64, len: usize, kept: usize) -> (g: TrustGate)
    requires
        p + 7 + len <= buf@.len(),
        len == 2 || len == 6,
        kept <= 2,
    ensures
        g@ == al_gate(buf@, p as int, trust_fn as int, len as int, kept as int),
{
    assert(buf@.len() == buf.len());
    let mut mask: Vec<u8> = Vec::new();
    for k in 0..7 + len
        invariant
            len == 2 || len == 6,
            kept <= 2,
            mask@ =~= al_mask(len as int, kept as int).take(k as int),
    {
        if 1 <= k && k <= 4 {
            mask.push(ANY);
        } else if k < 7 + kept {
            mask.push(SAME);
        } else {
            mask.push(ANY);
        }
    }
    assert(mask@ =~= al_mask(len as int, kept as int));
    TrustGate {
        call_rva: p,
        trust_fn_rva: trust_fn,
        test_rva: p + 5,
        patch_offset: 5,
        patch_bytes: slice_to_vec(OR_AL_1.as_slice()),
        pattern_bytes: slice_to_vec(slice_subrange(buf, p, p + 7 + len)),
        pattern_mask: mask,
    }
}

/// Whether a jump behind a trust check that stands at `pos` decides on the failure code at
/// `xref`: a `jne` is taken on success and must skip it, a `je` is taken on failure and must
/// lead to it or before it.
pub open spec fn guards(base: int, pos: int, jcc: Jcc, xref: int) -> bool {
    let fall = pos + jcc.len;
    match rva_of(base, fall + jcc.disp) {
        None => false,
        Some(target) => if jcc.opcode == 0x75 || jcc.opcode == 0x85 {
            fall <= xref < target
        } else {
            fall <= target <= xref
        },
    }
}

/// The trust gate whose call stands at `p`, if it decides on the failure code at `xref`; the whole
/// opcode of its jump is asked for.
pub open spec fn gate_at(buf: Seq<u8>, base: int, p: int, xref: int) -> Option<Gate> {
    if p + 12 < buf.len() && buf[p] == 0xe8 && buf[p + 5] == 0x84 && buf[p + 6] == 0xc0 {
        match (rva_of(base, p + 5 + le_i32(buf, p + 1)), jcc_at(buf, p + 7)) {
            (Some(trust_fn), Some(jcc)) => if guards(base, p + 7, jcc, xref) {
                Some(al_gate(buf, p, trust_fn, jcc.len as int, opcode_len(jcc.len as int)))
            } else {
                None
            },
            _ => None,
        }
    } else {
        None
    }
}

/// The trust gate nearest before `n`, not before `low`, that decides on the failure code at
/// `xref`.
pub open spec fn nearest_gate(buf: Seq<u8>, base: int, xref: int, low: int, n: int) -> Option<Gate>
    decreases n,
{
    if n <= low || n <= 0 {
        None
    } else {
        match gate_at(buf, base, n - 1, xref) {
            Some(g) => Some(g),
            None => nearest_gate(buf, base, xref, low, n - 1),
        }
    }
}

/// The trust gate that decides on the failure code at `xref`: the nearest one among the 256 bytes
/// before it.
pub open spec fn gate_for(buf: Seq<u8>, base: int, xref: int) -> Option<Gate> {
    nearest_gate(buf, base, xref, xref - 0x100, xref)
}

spec fn opt_gate(o: Option<TrustGate>) -> Option<Gate> {
    match o {
        Some(g) => Some(g@),
        None => None,
    }
}

fn check_gate(buf: &[u8], base: u64, p: usize, xref: usize) -> (r: Option<TrustGate>)
    ensures
        opt_gate(r) == gate_at(buf@, base as int, p as int, xref as int),
{
    if buf.len() < 13 || p >= buf.len() - 12 {
        return None;
    }
    if buf[p] != 0xe8 || buf[p + 5] != 0x84 || buf[p + 6] != 0xc0 {
        return None;
    }
    let call_disp: i64 = read_i32(buf, p + 1);
    let trust_fn: u64 = match rva_from(base, p as i128 + 5 + call_disp as i128) {
        Some(v) => v,
        None => {
            return None;
        },
    };
    let jcc = match jcc_info(buf, p + 7) {
        Some(j) => j,
        None => {
            return None;
        },
    };
    let fall: usize = p + 7 + jcc.len;
    let target: u64 = match rva_from(base, fall as i128 + jcc.disp as i128) {
        Some(v) => v,
        None => {
            return None;
        },
    };
    let valid: bool = if jcc.opcode == 0x75 || jcc.opcode == 0x85 {
        fall <= xref && (xref as u64) < target
    } else {
        fall as u64 <= target && target <= xref as u64
    };
    if valid {
        let kept: usize = if jcc.len == 6 {
            2
        } else {
            1
        };
        Some(make_al_gate(buf, p, trust_fn, jcc.len, kept))
    } else {
        None
    }
}

/// The trust gate that decides on the failure code at `xref_rva`.
fn find_gate_for_xref(image: &PeImage, xref_rva: usize) -> (r: Option<TrustGate>)
    ensures
        opt_gate(r) == gate_for(image.reconstructed@, image.image_base as int, xref_rva as int),
{
    let buf = image.reconstructed.as_slice();
    let low: usize = if xref_rva >= 0x100 {
        xref_rva - 0x100
    } else {
        0
    };
    let mut n: usize = xref_rva;
    while n > low
        invariant
            buf@ == image.reconstructed@,
            low <= n,
            low == xref_rva - 0x100 || (low == 0 && xref_rva < 0x100),
            gate_for(buf@, image.image_base as int, xref_rva as int) == nearest_gate(
                buf@,
                image.image_base as int,
                xref_rva as int,
                xref_rva - 0x100,
                n as int,
            ),
        decreases n,
    {
        let g = check_gate(buf, image.image_base, n - 1, xref_rva);
        if g.is_some() {
            return g;
        }
        n -= 1;
    }
    None
}

/// The mask of a gate `call; movzx; ..; test cl, cl; jne` whose test stands `at` bytes behind
/// the call: only the call, the test and the jump are asked for.
pub open spec fn movzx_mask(at: int) -> Seq<u8> {
    Seq::new(
        (at + 4) as nat,
        |k: int|
            if k == 0 || (at <= k && k <= at + 2) {
                SAME
            } else {
                ANY
            },
    )
}

/// The trust gate `call; movzx r32, al; ..; test cl, cl; jne` whose call stands at `p` and whose
/// test stands at `q`: the short `jne` becomes a `jmp`.
pub open spec fn movzx_gate(buf: Seq<u8>, p: int, q: int) -> Gate {
    Gate {
        call_rva: p,
        trust_fn_rva: 0,
        test_rva: q,
        patch_offset: q + 2 - p,
        patch_bytes: seq![0xebu8],
        pattern_bytes: buf.subrange(p, q + 4),
        pattern_mask: movzx_mask(q - p),
    }
}

/// Whether `test cl, cl` and a short `jne` stand at `q`.
pub open spec fn test_cl_at(buf: Seq<u8>, q: int) -> bool {
    buf[q] == 0x84 && buf[q + 1] == 0xc9 && buf[q + 2] == 0x75
}

/// The first `test cl, cl` with a short `jne` from `q` on, below `end` and before the last
/// three bytes.
pub open spec fn next_test_cl(buf: Seq<u8>, q: int, end: int) -> Option<int>
    decreases end - q,
{
    if q >= end || q + 3 >= buf.len() {
        None
    } else if test_cl_at(buf, q) {
        Some(q)
    } else {
        next_test_cl(buf, q + 1, end)
    }
}

/// The trust gate behind a call at `p` that keeps the result in another register: `movzx r32, al`
/// stands behind the call, and the test within 96 bytes behind that.
pub open spec fn movzx_gate_at(buf: Seq<u8>, p: int) -> Option<Gate> {
    if buf[p + 5] == 0x0f && buf[p + 6] == 0xb6 && buf[p + 7] & 0xc7 == 0xc0 {
        match next_test_cl(buf, p + 8, p + 8 + 0x60) {
            Some(q) => Some(movzx_gate(buf, p, q)),
            None => None,
        }
    } else {
        None
    }
}

fn find_movzx_gate_at_call(image: &PeImage, call_rva: usize) -> (r: Option<TrustGate>)
    requires
        site_readable(image.reconstructed@, call_rva as int),
    ensures
        opt_gate(r) == movzx_gate_at(image.reconstructed@, call_rva as int),
{
    let buf = image.reconstructed.as_slice();
    let p: usize = call_rva;
    if !(buf[p + 5] == 0x0f && buf[p + 6] == 0xb6 && buf[p + 7] & 0xc7 == 0xc0) {
        return None;
    }
    let mut q: usize = p + 8;
    while buf.len() >= 3 && q < buf.len() - 3 && q - p < 8 + 0x60
        invariant
            buf@ == image.reconstructed@,
            p == call_rva,
            p + 8 <= q <= buf@.len(),
            next_test_cl(buf@, p + 8, p + 8 + 0x60) == next_test_cl(
                buf@,
                q as int,
                p + 8 + 0x60,
            ),
            movzx_gate_at(buf@, p as int) == match next_test_cl(buf@, p + 8, p + 8 + 0x60) {
                Some(t) => Some(movzx_gate(buf@, p as int, t)),
                None => None,
            },
        decreases buf.len() - q,
    {
        if buf[q] == 0x84 && buf[q + 1] == 0xc9 && buf[q + 2] == 0x75 {
            let at: usize = q - p;
            let mut mask: Vec<u8> = Vec::new();
            for k in 0..at + 4
                invariant
                    at + 4 <= usize::MAX,
                    mask@ =~= movzx_mask(at as int).take(k as int),
            {
                if k == 0 || (at <= k && k <= at + 2) {
                    mask.push(SAME);
                } else {
                    mask.push(ANY);
                }
            }
            assert(mask@ =~= movzx_mask(at as int));
            let mut patch: Vec<u8> = Vec::new();
            patch.push(0xeb);
            assert(patch@ =~= seq![0xebu8]);
            return Some(
                TrustGate {
                    call_rva: p,
                    trust_fn_rva: 0,
                    test_rva: q,
                    patch_offset: at + 2,
                    patch_bytes: patch,
                    pattern_bytes: slice_to_vec(slice_subrange(buf, p, q + 4)),
                    pattern_mask: mask,
                },
            );
        }
        q += 1;
    }
    None
}

/// Whether the bytes behind a call at `c` that say what kind of gate follows stand in the
/// image.
pub open spec fn site_readable(buf: Seq<u8>, c: int) -> bool {
    &&& 0 <= c && c + 5 < buf.len()
    &&& buf[c + 5] == 0x84 || buf[c + 5] == 0x0f ==> c + 6 < buf.len()
    &&& buf[c + 5] == 0x84 && buf[c + 6] == 0xc0 ==> jcc_readable(buf, c + 7)
    &&& buf[c + 5] == 0x0f && buf[c + 6] == 0xb6 ==> c + 7 < buf.len()
}

/// What a search has found so far: gates with different tests, and the functions that the
/// gates met through strings call.
#[verifier::ext_equal]
pub struct Found {
    pub gates: Seq<Gate>,
    pub fns: Seq<int>,
}

/// Whether one of the gates tests at `t`.
pub open spec fn tests_at(gates: Seq<Gate>, t: int) -> bool {
    exists|k: int| 0 <= k < gates.len() && #[trigger] gates[k].test_rva == t
}

/// `gates` with `g` behind them, unless one of them has its test.
pub open spec fn add_gate(gates: Seq<Gate>, g: Option<Gate>) -> Seq<Gate> {
    match g {
        Some(g) if !tests_at(gates, g.test_rva) => gates.push(g),
        _ => gates,
    }
}

/// `f` with a gate that was met through a string.
pub open spec fn add_found(f: Found, g: Option<Gate>) -> Found {
    match g {
        Some(g) if !tests_at(f.gates, g.test_rva) => Found {
            gates: f.gates.push(g),
            fns: if f.fns.contains(g.trust_fn_rva) {
                f.fns
            } else {
                f.fns.push(g.trust_fn_rva)
            },
        },
        _ => f,
    }
}

/// `f` with the gates that decide on the failure code at each of `xrefs`.
pub open spec fn add_xrefs(f: Found, buf: Seq<u8>, base: int, xrefs: Seq<int>) -> Found
    decreases xrefs.len(),
{
    if xrefs.len() == 0 {
        f
    } else {
        add_found(add_xrefs(f, buf, base, xrefs.drop_last()), gate_for(buf, base, xrefs.last()))
    }
}

/// `f` with the gates met through the strings at each of `places`.
pub open spec fn add_strings(f: Found, buf: Seq<u8>, base: int, places: Seq<int>) -> Found
    decreases places.len(),
{
    if places.len() == 0 {
        f
    } else {
        add_xrefs(
            add_strings(f, buf, base, places.drop_last()),
            buf,
            base,
            lea_xrefs(buf, places.last(), 0),
        )
    }
}

/// The gates met through the texts `needles`, in their order.
pub open spec fn found_by(buf: Seq<u8>, base: int, needles: Seq<Seq<char>>) -> Found
    decreases needles.len(),
{
    if needles.len() == 0 {
        Found { gates: Seq::empty(), fns: Seq::empty() }
    } else {
        add_strings(
            found_by(buf, base, needles.drop_last()),
            buf,
            base,
            occurrences(buf, encode_utf8(needles.last()), 0),
        )
    }
}

/// The trust gate behind a call of `trust_fn` at `c`; of its jump the first byte is asked for.
pub open spec fn caller_gate(buf: Seq<u8>, trust_fn: int, c: int) -> Option<Gate> {
    if buf[c + 5] == 0x84 && buf[c + 6] == 0xc0 {
        match jcc_at(buf, c + 7) {
            Some(jcc) => Some(al_gate(buf, c, trust_fn, jcc.len as int, 1)),
            None => None,
        }
    } else {
        movzx_gate_at(buf, c)
    }
}

/// `gates` with those behind the calls of `trust_fn` at each of `calls`.
pub open spec fn add_calls(
    gates: Seq<Gate>,
    buf: Seq<u8>,
    trust_fn: int,
    calls: Seq<int>,
) -> Seq<Gate>
    decreases calls.len(),
{
    if calls.len() == 0 {
        gates
    } else {
        add_gate(
            add_calls(gates, buf, trust_fn, calls.drop_last()),
            caller_gate(buf, trust_fn, calls.last()),
        )
    }
}

/// `gates` with those behind every call of each of `fns`.
pub open spec fn add_callers(gates: Seq<Gate>, buf: Seq<u8>, fns: Seq<int>) -> Seq<Gate>
    decreases fns.len(),
{
    if fns.len() == 0 {
        gates
    } else {
        add_calls(
            add_callers(gates, buf, fns.drop_last()),
            buf,
            fns.last(),
            direct_calls(buf, fns.last()),
        )
    }
}

/// The texts that name a failed trust check.
pub open spec fn failure_texts() -> Seq<Seq<char>> {
    seq![
        "Trust check failed"@,
        "{}: Trust check failed"@,
        "Image Url is not trusted"@,
        "HttpRequest.Url is not trusted"@,
        "Url is not trusted"@,
        "url is not trusted"@,
        "is not trusted"@,
        "not trusted"@,
        "Not trusted"@,
    ]
}

/// The trust gates of an image: those met through strings, then those behind every other
/// call of the functions that these call.
pub open spec fn trust_gates(buf: Seq<u8>, base: int) -> Seq<Gate> {
    let f = found_by(buf, base, failure_texts());
    add_callers(f.gates, buf, f.fns)
}

/// Whether behind every call of a trust function the bytes that say what kind of gate
/// follows stand in the image.
pub open spec fn callers_readable(buf: Seq<u8>, base: int) -> bool {
    forall|k: int, j: int|
        0 <= k < found_by(buf, base, failure_texts()).fns.len() && 0 <= j < direct_calls(
            buf,
            found_by(buf, base, failure_texts()).fns[k],
        ).len() ==> site_readable(
            buf,
            #[trigger] direct_calls(buf, found_by(buf, base, failure_texts()).fns[k])[j],
        )
}

/// Whether one of the entries patches the byte at `t`.
pub open spec fn covered(existing: Seq<PatternView>, t: int) -> bool {
    exists|k: int|
        0 <= k < existing.len() && (#[trigger] existing[k]).kind == "bytepatch"@
            && existing[k].patch_offset is Some && wrap(
            existing[k].rva + existing[k].patch_offset->0,
        ) == t
}

/// The entry of a gate, the `n`-th one.
pub open spec fn gate_entry(g: Gate, n: int) -> PatternView {
    PatternView {
        name: "TRUST_CHECK_"@ + decimal(n),
        rva: g.call_rva,
        kind: "bytepatch"@,
        patch_offset: Some(g.patch_offset),
        patch_bytes: Some(g.patch_bytes),
        pattern_bytes: g.pattern_bytes,
        pattern_mask: g.pattern_mask,
        description: if g.patch_bytes == OR_AL_1@ {
            "trust gate: test al,al -> or al,1 (fn rva 0x"@ + in_base(g.trust_fn_rva as nat, 16)
                + ")"@
        } else {
            "trust gate (movzx): short jne -> jmp"@
        },
    }
}

/// The entries of those gates that no existing entry covers, numbered from zero.
pub open spec fn gate_entries(gates: Seq<Gate>, existing: Seq<PatternView>) -> Seq<PatternView>
    decreases gates.len(),
{
    if gates.len() == 0 {
        Seq::empty()
    } else {
        let before = gate_entries(gates.drop_last(), existing);
        if covered(existing, gates.last().test_rva) {
            before
        } else {
            before.push(gate_entry(gates.last(), before.len() as int))
        }
    }
}

spec fn gate_views(v: Seq<TrustGate>) -> Seq<Gate> {
    v.map_values(|g: TrustGate| g@)
}

spec fn fn_views(v: Seq<u64>) -> Seq<int> {
    v.map_values(|x: u64| x as int)
}

fn failure_needles() -> (out: Vec<&'static str>)
    ensures
        out@.map_values(|s: &'static str| s@) == failure_texts(),
{
    let mut out: Vec<&'static str> = Vec::new();
    out.push("Trust check failed");
    out.push("{}: Trust check failed");
    out.push("Image Url is not trusted");
    out.push("HttpRequest.Url is not trusted");
    out.push("Url is not trusted");
    out.push("url is not trusted");
    out.push("is not trusted");
    out.push("not trusted");
    out.push("Not trusted");
    assert(out@.map_values(|s: &'static str| s@) =~= failure_texts());
    out
}

fn has_test(gates: &Vec<TrustGate>, t: usize) -> (r: bool)
    ensures
        r == tests_at(gate_views(gates@), t as int),
{
    for i in 0..gates.len()
        invariant
            forall|k: int| 0 <= k < i ==> #[trigger] gate_views(gates@)[k].test_rva != t,
    {
        if gates[i].test_rva == t {
            assert(gate_views(gates@)[i as int].test_rva == t);
            return true;
        }
    }
    false
}

fn push_new_gate(gates: &mut Vec<TrustGate>, g: Option<TrustGate>) -> (added: Option<u64>)
    ensures
        gate_views(final(gates)@) == add_gate(gate_views(old(gates)@), opt_gate(g)),
        match added {
            Some(f) => g is Some && !tests_at(gate_views(old(gates)@), g->0@.test_rva) && f
                == g->0@.trust_fn_rva,
            None => g is None || tests_at(gate_views(old(gates)@), g->0@.test_rva),
        },
{
    match g {
        Some(g) => {
            if has_test(gates, g.test_rva) {
                None
            } else {
                let f: u64 = g.trust_fn_rva;
                let ghost before = gate_views(gates@);
                gates.push(g);
                assert(gate_views(gates@) =~= before.push(g@));
                Some(f)
            }
        },
        None => None,
    }
}

fn has_fn(fns: &Vec<u64>, f: u64) -> (r: bool)
    ensures
        r == fn_views(fns@).contains(f as int),
{
    for i in 0..fns.len()
        invariant
            forall|k: int| 0 <= k < i ==> #[trigger] fn_views(fns@)[k] != f,
    {
        if fns[i] == f {
            assert(fn_views(fns@)[i as int] == f);
            return true;
        }
    }
    false
}

spec fn found_view(gates: Seq<TrustGate>, fns: Seq<u64>) -> Found {
    Found { gates: gate_views(gates), fns: fn_views(fns) }
}

fn anchor_xref(image: &PeImage, xref: usize, gates: &mut Vec<TrustGate>, fns: &mut Vec<u64>)
    ensures
        found_view(final(gates)@, final(fns)@) == add_found(
            found_view(old(gates)@, old(fns)@),
            gate_for(image.reconstructed@, image.image_base as int, xref as int),
        ),
{
    let g = find_gate_for_xref(image, xref);
    if let Some(f) = push_new_gate(gates, g) {
        if !has_fn(fns, f) {
            let ghost before = fn_views(fns@);
            fns.push(f);
            assert(fn_views(fns@) =~= before.push(f as int));
        }
    }
}

fn anchor_string(image: &PeImage, rva: usize, gates: &mut Vec<TrustGate>, fns: &mut Vec<u64>)
    ensures
        found_view(final(gates)@, final(fns)@) == add_xrefs(
            found_view(old(gates)@, old(fns)@),
            image.reconstructed@,
            image.image_base as int,
            lea_xrefs(image.reconstructed@, rva as int, 0),
        ),
{
    let xrefs = find_all_lea_xrefs(image, rva);
    let ghost start = found_view(gates@, fns@);
    for i in 0..xrefs.len()
        invariant
            found_view(gates@, fns@) == add_xrefs(
                start,
                image.reconstructed@,
                image.image_base as int,
                as_ints(xrefs@).take(i as int),
            ),
    {
        anchor_xref(image, xrefs[i], gates, fns);
        assert(as_ints(xrefs@).take(i + 1).drop_last() =~= as_ints(xrefs@).take(i as int));
    }
    assert(as_ints(xrefs@).take(xrefs@.len() as int) =~= as_ints(xrefs@));
}

fn anchor_needle(image: &PeImage, needle: &str, gates: &mut Vec<TrustGate>, fns: &mut Vec<u64>)
    ensures
        found_view(final(gates)@, final(fns)@) == add_strings(
            found_view(old(gates)@, old(fns)@),
            image.reconstructed@,
            image.image_base as int,
            occurrences(image.reconstructed@, encode_utf8(needle@), 0),
        ),
{
    let places = all_occurrences(image.reconstructed.as_slice(), needle.as_bytes());
    let ghost start = found_view(gates@, fns@);
    for i in 0..places.len()
        invariant
            found_view(gates@, fns@) == add_strings(
                start,
                image.reconstructed@,
                image.image_base as int,
                as_ints(places@).take(i as int),
            ),
    {
        anchor_string(image, places[i], gates, fns);
        assert(as_ints(places@).take(i + 1).drop_last() =~= as_ints(places@).take(i as int));
    }
    assert(as_ints(places@).take(places@.len() as int) =~= as_ints(places@));
}

fn anchor_all(image: &PeImage, gates: &mut Vec<TrustGate>, fns: &mut Vec<u64>)
    requires
        old(gates)@.len() == 0,
        old(fns)@.len() == 0,
    ensures
        found_view(final(gates)@, final(fns)@) == found_by(
            image.reconstructed@,
            image.image_base as int,
            failure_texts(),
        ),
{
    let needles = failure_needles();
    let ghost texts = failure_texts();
    assert(found_view(gates@, fns@) =~= Found { gates: Seq::empty(), fns: Seq::empty() });
    for i in 0..needles.len()
        invariant
            needles@.map_values(|s: &'static str| s@) == texts,
            found_view(gates@, fns@) == found_by(
                image.reconstructed@,
                image.image_base as int,
                texts.take(i as int),
            ),
    {
        assert(texts[i as int] == needles@[i as int]@);
        anchor_needle(image, needles[i], gates, fns);
        assert(texts.take(i + 1).drop_last() =~= texts.take(i as int));
    }
    assert(texts.take(needles@.len() as int) =~= texts);
}

fn find_caller_gate(image: &PeImage, trust_fn: u64, c: usize) -> (r: Option<TrustGate>)
    requires
        site_readable(image.reconstructed@, c as int),
    ensures
        opt_gate(r) == caller_gate(image.reconstructed@, trust_fn as int, c as int),
{
    let buf = image.reconstructed.as_slice();
    if buf[c + 5] == 0x84 && buf[c + 6] == 0xc0 {
        assert(buf@.len() == buf.len());
        match jcc_info(buf, c + 7) {
            Some(jcc) => Some(make_al_gate(buf, c, trust_fn, jcc.len, 1)),
            None => None,
        }
    } else {
        find_movzx_gate_at_call(image, c)
    }
}

fn is_covered(existing: &[PatternEntry], t: usize) -> (r: bool)
    ensures
        r == covered(entries(existing@), t as int),
{
    for i in 0..existing.len()
        invariant
            forall|k: int|
                0 <= k < i ==> !((#[trigger] entries(existing@)[k]).kind == "bytepatch"@
                    && entries(existing@)[k].patch_offset is Some && wrap(
                    entries(existing@)[k].rva + entries(existing@)[k].patch_offset->0,
                ) == t),
    {
        let e = &existing[i];
        assert(entries(existing@)[i as int] == e@);
        if let Some(o) = e.patch_offset {
            if same_text(&e.kind, "bytepatch") && wrapped(e.rva as i128 + o as i128)
                == t as u64 {
                return true;
            }
        }
    }
    false
}

fn make_gate_entry(g: &TrustGate, n: usize) -> (e: PatternEntry)
    ensures
        e@ == gate_entry(g@, n as int),
{
    let description = if same_bytes(&g.patch_bytes, OR_AL_1.as_slice()) {
        let head = join(
            "trust gate: test al,al -> or al,1 (fn rva 0x",
            &hex_text(g.trust_fn_rva),
        );
        join(&head, ")")
    } else {
        "trust gate (movzx): short jne -> jmp".to_string()
    };
    PatternEntry {
        name: join("TRUST_CHECK_", &count_text(n)),
        rva: g.call_rva,
        kind: "bytepatch".to_string(),
        patch_offset: Some(g.patch_offset),
        patch_bytes: Some(slice_to_vec(&g.patch_bytes)),
        pattern_bytes: slice_to_vec(&g.pattern_bytes),
        pattern_mask: slice_to_vec(&g.pattern_mask),
        description,
    }
}

/// The trust gates of the image as entries: a gate is met through a string that names a
/// failed check, or it stands behind another call of a function that such a gate calls.
/// Gates that an existing entry patches are left out.
pub fn find_trust_checks(image: &PeImage, existing: &[PatternEntry]) -> (out: Vec<PatternEntry>)
    requires
        callers_readable(image.reconstructed@, image.image_base as int),
    ensures
        entries(out@) == gate_entries(
            trust_gates(image.reconstructed@, image.image_base as int),
            entries(existing@),
        ),
{
    let ghost buf = image.reconstructed@;
    let ghost base = image.image_base as int;
    let mut gates: Vec<TrustGate> = Vec::new();
    let mut fns: Vec<u64> = Vec::new();
    anchor_all(image, &mut gates, &mut fns);
    let ghost f = found_by(buf, base, failure_texts());
    for i in 0..fns.len()
        invariant
            buf == image.reconstructed@,
            f == found_by(buf, base, failure_texts()),
            f.fns == fn_views(fns@),
            callers_readable(buf, base),
            gate_views(gates@) == add_callers(f.gates, buf, f.fns.take(i as int)),
    {
        let trust_fn: u64 = fns[i];
        assert(f.fns[i as int] == trust_fn);
        let calls = find_all_direct_calls(image, trust_fn);
        let ghost start = gate_views(gates@);
        for j in 0..calls.len()
            invariant
                0 <= i < fns@.len(),
                buf == image.reconstructed@,
                f == found_by(buf, base, failure_texts()),
                f.fns == fn_views(fns@),
                f.fns[i as int] == trust_fn,
                callers_readable(buf, base),
                as_ints(calls@) == direct_calls(buf, trust_fn as int),
                gate_views(gates@) == add_calls(
                    start,
                    buf,
                    trust_fn as int,
                    as_ints(calls@).take(j as int),
                ),
        {
            assert(as_ints(calls@)[j as int] == direct_calls(buf, f.fns[i as int])[j as int]);
            let g = find_caller_gate(image, trust_fn, calls[j]);
            push_new_gate(&mut gates, g);
            assert(as_ints(calls@).take(j + 1).drop_last() =~= as_ints(calls@).take(j as int));
        }
        assert(as_ints(calls@).take(calls@.len() as int) =~= as_ints(calls@));
        assert(f.fns.take(i + 1).drop_last() =~= f.fns.take(i as int));
    }
    assert(f.fns.take(fns@.len() as int) =~= f.fns);
    let ghost all = gate_views(gates@);
    let mut out: Vec<PatternEntry> = Vec::new();
    assert(entries(out@) =~= gate_entries(all.take(0), entries(existing@)));
    for i in 0..gates.len()
        invariant
            all == gate_views(gates@),
            entries(out@) == gate_entries(all.take(i as int), entries(existing@)),
    {
        let g = &gates[i];
        assert(all[i as int] == g@);
        assert(all.take(i + 1).drop_last() =~= all.take(i as int));
        if !is_covered(existing, g.test_rva) {
            let e = make_gate_entry(g, out.len());
            let ghost before = entries(out@);
            out.push(e);
            assert(entries(out@) =~= before.push(e@));
        }
    }
    assert(all.take(gates@.len() as int) =~= all);
    out
}

/// Whether `find_trust_checks` can read the gates of the image: behind every call of a trust
/// function the bytes that say what kind of gate follows stand in the image.
pub fn can_read_callers(image: &PeImage) -> (r: bool)
    ensures
        r == callers_readable(image.reconstructed@, image.image_base as int),
{
    let ghost base = image.image_base as int;
    let mut gates: Vec<TrustGate> = Vec::new();
    let mut fns: Vec<u64> = Vec::new();
    anchor_all(image, &mut gates, &mut fns);
    let buf = image.reconstructed.as_slice();
    let ghost f = found_by(buf@, base, failure_texts());
    for i in 0..fns.len()
        invariant
            buf@ == image.reconstructed@,
            base == image.image_base as int,
            f == found_by(buf@, base, failure_texts()),
            f.fns == fn_views(fns@),
            forall|k: int, j: int|
                0 <= k < i && 0 <= j < direct_calls(buf@, f.fns[k]).len() ==> site_readable(
                    buf@,
                    #[trigger] direct_calls(buf@, f.fns[k])[j],
                ),
    {
        let trust_fn: u64 = fns[i];
        assert(f.fns[i as int] == trust_fn);
        let calls = find_all_direct_calls(image, trust_fn);
        for n in 0..calls.len()
            invariant
                0 <= i < fns@.len(),
                buf@ == image.reconstructed@,
                base == image.image_base as int,
                f == found_by(buf@, base, failure_texts()),
                f.fns == fn_views(fns@),
                f.fns[i as int] == trust_fn,
                as_ints(calls@) == direct_calls(buf@, trust_fn as int),
                forall|j: int|
                    0 <= j < n ==> site_readable(
                        buf@,
                        #[trigger] direct_calls(buf@, f.fns[i as int])[j],
                    ),
        {
            let c: usize = calls[n];
            assert(as_ints(calls@)[n as int] == direct_calls(buf@, f.fns[i as int])[n as int]);
            proof {
                lemma_calls_below(buf@, trust_fn as int, buf@.len() - 5, n as int);
            }
            let len: usize = buf.len();
            let b: u8 = buf[c + 5];
            if (b == 0x84 || b == 0x0f) && c >= len - 6 {
                return false;
            }
            if b == 0x84 && buf[c + 6] == 0xc0 && len - c >= 9 && len - c < 13 && buf[c + 7]
                == 0x0f && (buf[c + 8] == 0x84 || buf[c + 8] == 0x85) {
                return false;
            }
            if b == 0x0f && buf[c + 6] == 0xb6 && c >= len - 7 {
                return false;
            }
        }
    }
    true
}

proof fn lemma_calls_below(buf: Seq<u8>, rva: int, n: int, j: int)
    requires
        0 <= j < calls_below(buf, rva, n).len(),
    ensures
        0 <= calls_below(buf, rva, n)[j] < n,
    decreases n,
{
    if n > 0 {
        if j < calls_below(buf, rva, n - 1).len() {
            lemma_calls_below(buf, rva, n - 1, j);
        }
    }
}

/// The texts about trust that are reported.
pub open spec fn reported_texts() -> Seq<Seq<char>> {
    seq![
        "Trust check failed"@,
        "is not trusted"@,
        "not trusted"@,
        "trusted host"@,
        "TRUSTED_HOSTS"@,
        "trust check"@,
        "TrustCheck"@,
        "url is not trusted"@,
    ]
}

/// The entries of a text that stands at each of `places`.
pub open spec fn text_entries(
    buf: Seq<u8>,
    text: Seq<char>,
    places: Seq<int>,
) -> Seq<TrustStringView> {
    places.map_values(
        |rva: int| TrustStringView { rva, text, xref_rva: next_xref(buf, rva, 0) },
    )
}

/// The entries of the texts, in their order, each wherever it stands.
pub open spec fn all_text_entries(buf: Seq<u8>, texts: Seq<Seq<char>>) -> Seq<TrustStringView>
    decreases texts.len(),
{
    if texts.len() == 0 {
        Seq::empty()
    } else {
        all_text_entries(buf, texts.drop_last()) + text_entries(
            buf,
            texts.last(),
            occurrences(buf, encode_utf8(texts.last()), 0),
        )
    }
}

fn reported_needles() -> (out: Vec<&'static str>)
    ensures
        out@.map_values(|s: &'static str| s@) == reported_texts(),
{
    let mut out: Vec<&'static str> = Vec::new();
    out.push("Trust check failed");
    out.push("is not trusted");
    out.push("not trusted");
    out.push("trusted host");
    out.push("TRUSTED_HOSTS");
    out.push("trust check");
    out.push("TrustCheck");
    out.push("url is not trusted");
    assert(out@.map_values(|s: &'static str| s@) =~= reported_texts());
    out
}

fn report_text(image: &PeImage, needle: &str, out: &mut Vec<TrustStringEntry>)
    ensures
        string_entries(final(out)@) == string_entries(old(out)@) + text_entries(
            image.reconstructed@,
            needle@,
            occurrences(image.reconstructed@, encode_utf8(needle@), 0),
        ),
{
    let places = all_occurrences(image.reconstructed.as_slice(), needle.as_bytes());
    let ghost buf = image.reconstructed@;
    let ghost start = string_entries(out@);
    let ghost all = text_entries(buf, needle@, as_ints(places@));
    assert(all.take(0) =~= Seq::empty());
    for i in 0..places.len()
        invariant
            buf == image.reconstructed@,
            all == text_entries(buf, needle@, as_ints(places@)),
            string_entries(out@) =~= start + all.take(i as int),
    {
        let e = TrustStringEntry {
            rva: places[i],
            text: needle.to_string(),
            xref_rva: find_xref(image, places[i]),
        };
        assert(e@ == all[i as int]);
        let ghost before = string_entries(out@);
        out.push(e);
        assert(string_entries(out@) =~= before.push(e@));
    }
    assert(all.take(places@.len() as int) =~= all);
}

/// Every place in the image at which a text about trust stands, with the first code that
/// refers to it.
pub fn find_trust_strings(image: &PeImage) -> (out: Vec<TrustStringEntry>)
    ensures
        string_entries(out@) == all_text_entries(image.reconstructed@, reported_texts()),
{
    let needles = reported_needles();
    let ghost texts = reported_texts();
    let mut out: Vec<TrustStringEntry> = Vec::new();
    assert(string_entries(out@) =~= Seq::empty());
    for i in 0..needles.len()
        invariant
            needles@.map_values(|s: &'static str| s@) == texts,
            string_entries(out@) == all_text_entries(image.reconstructed@, texts.take(i as int)),
    {
        assert(texts[i as int] == needles@[i as int]@);
        report_text(image, needles[i], &mut out);
        assert(texts.take(i + 1).drop_last() =~= texts.take(i as int));
    }
    assert(texts.take(needles@.len() as int) =~= texts);
    out
}

} // verus!
