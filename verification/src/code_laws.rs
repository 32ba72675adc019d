//! What is read from code bytes, stated on the bytes.
use crate::code::{jcc_at, le_i32, rva_of, wrap};
use crate::scan_patterns::{lemma_next_pattern, next_pattern, pattern_at, readable_at};
use crate::scan_trust::{lea_len, lea_xrefs, next_xref, wide_lea_to};
use vstd::prelude::*;

verus! {

/// Whether the four bytes at `i` hold `d` as a signed number, low byte first.
pub open spec fn holds_i32(buf: Seq<u8>, i: int, d: int) -> bool {
    &&& -0x8000_0000 <= d < 0x8000_0000
    &&& (d - (buf[i] + 0x100 * buf[i + 1] + 0x1_0000 * buf[i + 2] + 0x100_0000 * buf[i + 3]))
        % 0x1_0000_0000 == 0
}

/// A displacement is the signed number that its four bytes hold.
pub proof fn law_displacements_are_read(buf: Seq<u8>, i: int, d: int)
    ensures
        holds_i32(buf, i, d) <==> le_i32(buf, i) == d,
{
}

/// Addresses are kept by their lowest 64 bits.
pub proof fn law_addresses_wrap(x: int)
    ensures
        0 <= wrap(x) < 0x1_0000_0000_0000_0000,
        (x - wrap(x)) % 0x1_0000_0000_0000_0000 == 0,
        0 <= x < 0x1_0000_0000_0000_0000 ==> wrap(x) == x,
{
}

/// An address behind the image base is an offset from it; one before the base is none.
pub proof fn law_offsets_count_from_the_base(base: int, x: int)
    requires
        0 <= base < 0x1_0000_0000_0000_0000,
    ensures
        0 <= x && base + x < 0x1_0000_0000_0000_0000 ==> rva_of(base, x) == Some(x),
        -base <= x < 0 ==> rva_of(base, x) is None,
        0x1_0000_0000_0000_0000 - base <= x < 0x1_0000_0000_0000_0000 ==> rva_of(base, x) is None,
        -0x1_0000_0000_0000_0000 <= x < -base ==> rva_of(base, x) == Some(
            x + 0x1_0000_0000_0000_0000,
        ),
{
}

/// Jumps are read by their opcodes: `74` and `75` with one byte of displacement, `0f 84` and
/// `0f 85` with four; nothing else is one.
pub proof fn law_jumps_are_read(buf: Seq<u8>, pos: int)
    requires
        0 <= pos,
    ensures
        match jcc_at(buf, pos) {
            Some(j) => {
                ||| pos + 1 < buf.len() && (buf[pos] == 0x74 || buf[pos] == 0x75) && j.opcode
                    == buf[pos] && j.len == 2 && -0x80 <= j.disp < 0x80 && (j.disp - buf[pos + 1])
                    % 0x100 == 0
                ||| pos + 1 < buf.len() && buf[pos] == 0x0f && (buf[pos + 1] == 0x84 || buf[pos
                    + 1] == 0x85) && j.opcode == buf[pos + 1] && j.len == 6 && holds_i32(
                    buf,
                    pos + 2,
                    j.disp as int,
                )
            },
            None => pos + 1 >= buf.len() || !(buf[pos] == 0x74 || buf[pos] == 0x75 || (buf[pos]
                == 0x0f && (buf[pos + 1] == 0x84 || buf[pos + 1] == 0x85))),
        },
{
}

/// Whether a `lea` with an operand relative to the instruction pointer stands at `x`, of 6 bytes
/// or, with a prefix, of 7: any register may be loaded. `d` is its displacement.
pub open spec fn lea_bytes(buf: Seq<u8>, x: int, n: int, d: int) -> bool {
    &&& 0 <= x && x + n <= buf.len()
    &&& n == 6 || (n == 7 && 0x40 <= buf[x] <= 0x4f)
    &&& buf[x + n - 6] == 0x8d
    &&& buf[x + n - 5] & 0xc7 == 0x05
    &&& holds_i32(buf, x + n - 4, d)
}

/// Every reference that is found is a `lea` to the place that it was looked for with.
pub proof fn law_references_are_leas(buf: Seq<u8>, rva: int, k: int)
    requires
        0 <= k < lea_xrefs(buf, rva, 0).len(),
    ensures
        ({
            let x = lea_xrefs(buf, rva, 0)[k];
            exists|n: int, d: int|
                lea_bytes(buf, x, n, d) && (x + n + d) % 0x1_0000_0000_0000_0000 == rva
        }),
{
    lemma_references_are_leas(buf, rva, 0, k);
}

proof fn lemma_references_are_leas(buf: Seq<u8>, rva: int, i: int, k: int)
    requires
        0 <= i,
        0 <= k < lea_xrefs(buf, rva, i).len(),
    ensures
        ({
            let x = lea_xrefs(buf, rva, i)[k];
            exists|n: int, d: int|
                lea_bytes(buf, x, n, d) && (x + n + d) % 0x1_0000_0000_0000_0000 == rva
        }),
    decreases buf.len() - i,
{
    let n = lea_len(buf, i);
    if n == 0 {
        lemma_references_are_leas(buf, rva, i + 1, k);
        assert(lea_xrefs(buf, rva, i)[k] == lea_xrefs(buf, rva, i + 1)[k]);
    } else if wrap(i + n + le_i32(buf, i + n - 4)) == rva {
        if k > 0 {
            lemma_references_are_leas(buf, rva, i + n, k - 1);
            assert(lea_xrefs(buf, rva, i)[k] == lea_xrefs(buf, rva, i + n)[k - 1]);
        } else {
            let d = le_i32(buf, i + n - 4);
            assert(lea_xrefs(buf, rva, i)[0] == i);
            assert(lea_bytes(buf, lea_xrefs(buf, rva, i)[k], n, d));
            assert(wrap(i + n + d) == rva);
        }
    } else {
        lemma_references_are_leas(buf, rva, i + n, k);
        assert(lea_xrefs(buf, rva, i)[k] == lea_xrefs(buf, rva, i + n)[k]);
    }
}

/// Every `lea` to a place is found among the references to it, whatever register it loads and
/// whatever prefix it has, unless it begins inside a `lea` before it that is itself a reference
/// to some place.
pub proof fn law_every_lea_is_found(buf: Seq<u8>, x: int, n: int, d: int)
    requires
        lea_bytes(buf, x, n, d),
    ensures
        lea_xrefs(buf, (x + n + d) % 0x1_0000_0000_0000_0000, 0).contains(x) || exists|
            y: int,
            to: int,
        |
            x - 7 < y < x && #[trigger] lea_xrefs(buf, to, 0).contains(y) && y + (if 0x40 <= buf[y]
                <= 0x4f {
                7int
            } else {
                6int
            }) > x,
{
    lemma_lea_met(buf, x, n, d, 0);
}

proof fn lemma_contains_behind(buf: Seq<u8>, to: int, i: int, y: int)
    requires
        0 <= i,
        i + 6 <= buf.len(),
        ({
            let n = lea_len(buf, i);
            lea_xrefs(buf, to, if n == 0 {
                i + 1
            } else {
                i + n
            }).contains(y)
        }),
    ensures
        lea_xrefs(buf, to, i).contains(y),
{
    let n = lea_len(buf, i);
    let next = if n == 0 {
        i + 1
    } else {
        i + n
    };
    let rest = lea_xrefs(buf, to, next);
    let all = lea_xrefs(buf, to, i);
    let k = choose|k: int| 0 <= k < rest.len() && rest[k] == y;
    if n != 0 && wrap(i + n + le_i32(buf, i + n - 4)) == to {
        assert(all[k + 1] == y);
    } else {
        assert(all[k] == y);
    }
}

proof fn lemma_lea_met(buf: Seq<u8>, x: int, n: int, d: int, i: int)
    requires
        0 <= i <= x,
        lea_bytes(buf, x, n, d),
    ensures
        lea_xrefs(buf, (x + n + d) % 0x1_0000_0000_0000_0000, i).contains(x) || exists|
            y: int,
            to: int,
        |
            x - 7 < y < x && #[trigger] lea_xrefs(buf, to, i).contains(y) && y + (if 0x40 <= buf[y]
                <= 0x4f {
                7int
            } else {
                6int
            }) > x,
    decreases x - i,
{
    let rva = (x + n + d) % 0x1_0000_0000_0000_0000;
    let m = lea_len(buf, i);
    if i == x {
        law_displacements_are_read(buf, x + n - 4, d);
        assert(m == n);
        assert(lea_xrefs(buf, rva, i)[0] == x);
    } else if m > 0 && i + m > x {
        let to = wrap(i + m + le_i32(buf, i + m - 4));
        assert(lea_xrefs(buf, to, i)[0] == i);
        assert(lea_xrefs(buf, to, i).contains(i));
    } else {
        let next = if m == 0 {
            i + 1
        } else {
            i + m
        };
        lemma_lea_met(buf, x, n, d, next);
        if lea_xrefs(buf, rva, next).contains(x) {
            lemma_contains_behind(buf, rva, i, x);
        } else {
            let (y, to) = choose|y: int, to: int|
                x - 7 < y < x && #[trigger] lea_xrefs(buf, to, next).contains(y) && y + (if 0x40
                    <= buf[y] <= 0x4f {
                    7int
                } else {
                    6int
                }) > x;
            lemma_contains_behind(buf, to, i, y);
        }
    }
}

/// Whether a `lea` of a 64-bit register stands at `x` before the last byte of the image, with the
/// prefix `48` or `4c`.
pub open spec fn wide_lea_bytes(buf: Seq<u8>, x: int, d: int) -> bool {
    lea_bytes(buf, x, 7, d) && (buf[x] == 0x48 || buf[x] == 0x4c) && x + 7 < buf.len()
}

/// The first reference to a place is a `lea` of a 64-bit register to it, and no other stands
/// before it; where there is none, none stands anywhere.
pub proof fn law_first_reference_is_found(buf: Seq<u8>, rva: int, x: int, d: int)
    ensures
        next_xref(buf, rva, 0) matches Some(y) ==> exists|e: int|
            #[trigger] wide_lea_bytes(buf, y, e) && (y + 7 + e) % 0x1_0000_0000_0000_0000 == rva,
        wide_lea_bytes(buf, x, d) && (x + 7 + d) % 0x1_0000_0000_0000_0000 == rva ==> next_xref(
            buf,
            rva,
            0,
        ) is Some && next_xref(buf, rva, 0)->0 <= x,
{
    lemma_first_reference(buf, rva, 0);
    if let Some(y) = next_xref(buf, rva, 0) {
        law_displacements_are_read(buf, y + 3, le_i32(buf, y + 3));
        assert(wide_lea_bytes(buf, y, le_i32(buf, y + 3)));
    }
    if wide_lea_bytes(buf, x, d) && (x + 7 + d) % 0x1_0000_0000_0000_0000 == rva {
        law_displacements_are_read(buf, x + 3, d);
        assert(wide_lea_to(buf, x, rva));
    }
}

proof fn lemma_first_reference(buf: Seq<u8>, rva: int, from: int)
    ensures
        match next_xref(buf, rva, from) {
            Some(y) => from <= y && y + 7 < buf.len() && wide_lea_to(buf, y, rva) && forall|x: int|
                from <= x < y ==> !#[trigger] wide_lea_to(buf, x, rva),
            None => forall|x: int|
                from <= x && x + 7 < buf.len() ==> !#[trigger] wide_lea_to(buf, x, rva),
        },
    decreases buf.len() - from,
{
    if from + 7 < buf.len() && !wide_lea_to(buf, from, rva) {
        lemma_first_reference(buf, rva, from + 1);
    }
}

/// Whether every byte of the pattern that the mask does not leave open with a question mark
/// stands in `buf` from `i` on.
pub open spec fn bytes_match(buf: Seq<u8>, pattern: Seq<u8>, mask: Seq<u8>, i: int) -> bool {
    forall|k: int| 0 <= k < mask.len() && mask[k] != 0x3f ==> buf[i + k] == #[trigger] pattern[k]
}

/// A masked pattern is found at the first place at which its bytes stand, and nowhere only if
/// they stand nowhere.
pub proof fn law_first_match_is_found(buf: Seq<u8>, pattern: Seq<u8>, mask: Seq<u8>, i: int)
    requires
        0 < mask.len() <= pattern.len(),
    ensures
        next_pattern(buf, pattern, mask, 0) matches Some(y) ==> 0 <= y && y + mask.len()
            <= buf.len() && bytes_match(buf, pattern, mask, y),
        0 <= i && i + mask.len() <= buf.len() && bytes_match(buf, pattern, mask, i)
            ==> next_pattern(buf, pattern, mask, 0) is Some && next_pattern(
            buf,
            pattern,
            mask,
            0,
        )->0 <= i,
{
    lemma_next_pattern(buf, pattern, mask, 0);
    if let Some(y) = next_pattern(buf, pattern, mask, 0) {
        assert forall|k: int| 0 <= k < mask.len() && mask[k] != 0x3f implies buf[y + k]
            == #[trigger] pattern[k] by {
            assert(mask[k] != 0x3f);
        }
    }
    if 0 <= i && i + mask.len() <= buf.len() && bytes_match(buf, pattern, mask, i) {
        assert forall|k: int| 0 <= k < mask.len() implies #[trigger] mask[k] == 0x3f || (k
            < pattern.len() && buf[i + k] == pattern[k]) by {
            let b = pattern[k];
        }
        assert(pattern_at(buf, pattern, mask, i));
    }
}

/// A pattern that is as long as its mask can be compared anywhere; and it stands where the bytes
/// that the mask asks for stand.
pub proof fn law_whole_patterns_can_be_compared(
    buf: Seq<u8>,
    pattern: Seq<u8>,
    mask: Seq<u8>,
    i: int,
)
    requires
        mask.len() <= pattern.len(),
    ensures
        readable_at(buf, pattern, mask, i),
        0 <= i && i + mask.len() <= buf.len() ==> (pattern_at(buf, pattern, mask, i)
            <==> bytes_match(buf, pattern, mask, i)),
{
    if bytes_match(buf, pattern, mask, i) {
        assert forall|k: int| 0 <= k < mask.len() implies #[trigger] mask[k] == 0x3f || (k
            < pattern.len() && buf[i + k] == pattern[k]) by {
            let b = pattern[k];
        }
    }
    if pattern_at(buf, pattern, mask, i) {
        assert forall|k: int| 0 <= k < mask.len() && mask[k] != 0x3f implies buf[i + k]
            == #[trigger] pattern[k] by {
            assert(mask[k] != 0x3f);
        }
    }
}

} // verus!
