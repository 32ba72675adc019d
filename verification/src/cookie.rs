//! The security-cookie check: the jump that guards it and the patch that turns it round.
use crate::code::{wrap, wrapped};
use crate::pe::PeImage;
use crate::scan_trust::{find_xref, next_xref};
use crate::search::{as_int, as_ints, find_bytes, next_occurrence};
use iced_x86::{Code, Decoder, DecoderOptions, Mnemonic};
use vstd::prelude::*;
use vstd::slice::{slice_subrange, slice_to_vec};
use vstd::utf8::encode_utf8;

verus! {

/// What matters of an instruction: its length, whether it is the short or the near `je` of
/// 64-bit code, and whether it is a `cmp`.
#[derive(Debug, Clone, Copy)]
pub struct Decoded {
    pub len: usize,
    pub short_je: bool,
    pub near_je: bool,
    pub compares: bool,
}

/// The instruction that code begins with when it lies at the address `ip`.
pub uninterp spec fn decoded(code: Seq<u8>, ip: u64) -> Decoded;

/// `Decoder::with_ip` and `Decoder::decode` of `iced_x86`, on 64-bit code without options:
/// what comes out depends on the bytes and the address alone. An instruction takes at least
/// one byte, at most fifteen, and none behind the end of the code; bytes that are no
/// instruction come out as one that is neither `je` nor `cmp`. Which bytes make which
/// instruction is left to the name.
#[verifier::external_body]
pub(crate) fn decode(code: &[u8], ip: u64) -> (r: Decoded)
    requires
        code@.len() > 0,
    ensures
        r == decoded(code@, ip),
        1 <= r.len <= 15,
        r.len <= code@.len(),
{
    let instr = Decoder::with_ip(64, code, ip, DecoderOptions::NONE).decode();
    Decoded {
        len: instr.len(),
        short_je: matches!(instr.code(), Code::Je_rel8_64),
        near_je: matches!(instr.code(), Code::Je_rel32_64),
        compares: matches!(instr.mnemonic(), Mnemonic::Cmp),
    }
}

/// A place to patch the security-cookie check.
#[derive(Debug, Clone)]
pub struct SecurityCookieEntry {
    pub string_rva: usize,
    pub xref_rva: usize,
    pub jz_rva: usize,
    pub opcode_len: usize,
    pub original_opcode: Vec<u8>,
    pub patch_bytes: Vec<u8>,
}

/// What a `SecurityCookieEntry` holds.
#[verifier::ext_equal]
pub struct CookieView {
    pub string_rva: int,
    pub xref_rva: int,
    pub jz_rva: int,
    pub opcode_len: int,
    pub original_opcode: Seq<u8>,
    pub patch_bytes: Seq<u8>,
}

impl View for SecurityCookieEntry {
    type V = CookieView;

    open spec fn view(&self) -> CookieView {
        CookieView {
            string_rva: self.string_rva as int,
            xref_rva: self.xref_rva as int,
            jz_rva: self.jz_rva as int,
            opcode_len: self.opcode_len as int,
            original_opcode: self.original_opcode@,
            patch_bytes: self.patch_bytes@,
        }
    }
}

/// The instruction that stands at `pos` in an image that lies at `base`.
pub open spec fn instr_at(buf: Seq<u8>, base: int, pos: int) -> Decoded {
    decoded(buf.subrange(pos, buf.len() as int), wrap(base + pos) as u64)
}

/// How reading instructions goes on behind one of them.
#[derive(Debug, Clone, Copy, PartialEq, Eq, Structural)]
pub enum Walk {
    /// The instruction ends at the place that was looked for.
    Met,
    /// The instruction lies behind that place.
    Lost,
    /// The next instruction is read.
    On,
}

/// How reading goes on behind an instruction of `len` bytes at `pos`, in an image that lies at
/// `base`, when the place looked for is `stop`.
pub open spec fn walk_of(base: int, pos: int, len: int, stop: int) -> Walk {
    if pos + len == stop {
        Walk::Met
    } else if wrap(base + pos) > wrap(base + stop) {
        Walk::Lost
    } else {
        Walk::On
    }
}

/// The offsets of the instructions from `pos` on, one behind the other, if the last of them
/// ends at `stop`. An instruction takes at least one byte and ends inside the image.
pub open spec fn chain(buf: Seq<u8>, base: int, pos: int, stop: int) -> Option<Seq<int>>
    decreases buf.len() - pos,
{
    if pos >= buf.len() {
        None
    } else {
        let len = instr_at(buf, base, pos).len;
        if len == 0 || pos + len > buf.len() {
            None
        } else {
            match walk_of(base, pos, len as int, stop) {
                Walk::Met => Some(seq![pos]),
                Walk::Lost => None,
                Walk::On => match chain(buf, base, pos + len, stop) {
                    Some(rest) => Some(seq![pos] + rest),
                    None => None,
                },
            }
        }
    }
}

/// Whether the instruction is a `je`.
pub open spec fn is_je(d: Decoded) -> bool {
    d.short_je || d.near_je
}

/// The index of the last `je` below `n` that directly follows a `cmp`.
pub open spec fn last_guarded(instrs: Seq<Decoded>, n: int) -> Option<int>
    decreases n,
{
    if n <= 1 {
        None
    } else if is_je(instrs[n - 1]) && instrs[n - 2].compares {
        Some(n - 1)
    } else {
        last_guarded(instrs, n - 1)
    }
}

/// The instructions at the offsets.
pub open spec fn instrs_at(buf: Seq<u8>, base: int, places: Seq<int>) -> Seq<Decoded> {
    places.map_values(|pos: int| instr_at(buf, base, pos))
}

/// The `je` behind a `cmp` that is last before `xref` in the instructions read from `from`.
pub open spec fn jz_from(buf: Seq<u8>, base: int, from: int, xref: int) -> Option<int> {
    match chain(buf, base, from, xref) {
        Some(places) => match last_guarded(
            instrs_at(buf, base, places),
            places.len() as int,
        ) {
            Some(k) => Some(places[k]),
            None => None,
        },
        None => None,
    }
}

/// What the nearest start at or before `from`, and not before `low`, gives.
pub open spec fn jz_back(buf: Seq<u8>, base: int, from: int, low: int, xref: int) -> Option<int>
    decreases from - low + 1,
{
    if from < low {
        None
    } else {
        match jz_from(buf, base, from, xref) {
            Some(jz) => Some(jz),
            None => jz_back(buf, base, from - 1, low, xref),
        }
    }
}

/// The `je` behind a `cmp` before `xref`: reading starts between five and a hundred bytes
/// before it, nearest first.
pub open spec fn jz_before(buf: Seq<u8>, base: int, xref: int) -> Option<int> {
    jz_back(
        buf,
        base,
        xref - 5,
        if xref < 100 {
            0
        } else {
            xref - 100
        },
        xref,
    )
}

/// The bytes that turn a `je` into a `jne`: `74` becomes `75`, `0f 84` becomes `0f 85`.
pub open spec fn jnz_bytes(opcode: Seq<u8>) -> Option<Seq<u8>> {
    if opcode.len() >= 1 && opcode[0] == 0x74 {
        Some(seq![0x75u8])
    } else if opcode.len() >= 2 && opcode[0] == 0x0f && opcode[1] == 0x84 {
        Some(seq![0x0fu8, 0x85u8])
    } else {
        None
    }
}

/// The entry of a check whose jump was found.
pub open spec fn cookie_entry(
    string_rva: int,
    xref_rva: int,
    jz_rva: int,
    opcode: Seq<u8>,
) -> Option<CookieView> {
    match jnz_bytes(opcode) {
        Some(patch) => Some(
            CookieView {
                string_rva,
                xref_rva,
                jz_rva,
                opcode_len: opcode.len() as int,
                original_opcode: opcode,
                patch_bytes: patch,
            },
        ),
        None => None,
    }
}

/// The text that the check logs.
pub open spec fn cookie_text() -> Seq<char> {
    "[FLog::StudioCookieManager] Security cookie is cached so we proceed saving now."@
}

/// The security-cookie check of an image: the text that it logs, the code that refers to
/// the text, the jump before that code, and the patch of the jump.
pub open spec fn security_cookie(buf: Seq<u8>, base: int) -> Option<CookieView> {
    match next_occurrence(buf, encode_utf8(cookie_text()), 0) {
        None => None,
        Some(s) => match next_xref(buf, s, 0) {
            None => None,
            Some(x) => match jz_before(buf, base, x) {
                None => None,
                Some(jz) => cookie_entry(
                    s,
                    x,
                    jz,
                    buf.subrange(jz, jz + instr_at(buf, base, jz).len),
                ),
            },
        },
    }
}

/// The view of an optional entry.
pub open spec fn opt_cookie(o: Option<SecurityCookieEntry>) -> Option<CookieView> {
    match o {
        Some(e) => Some(e@),
        None => None,
    }
}

/// How reading goes on behind an instruction of `len` bytes at `pos`, in an image that lies at
/// `base`, when the place looked for is `stop`.
pub fn walk_on(base: u64, pos: usize, len: usize, stop: usize) -> (r: Walk)
    ensures
        r == walk_of(base as int, pos as int, len as int, stop as int),
{
    if stop >= pos && stop - pos == len {
        Walk::Met
    } else if wrapped(base as i128 + pos as i128) > wrapped(base as i128 + stop as i128) {
        Walk::Lost
    } else {
        Walk::On
    }
}

/// The index of the last `je` that directly follows a `cmp`.
pub fn last_guarded_je(instrs: &[Decoded]) -> (r: Option<usize>)
    ensures
        as_int(r) == last_guarded(instrs@, instrs@.len() as int),
        r matches Some(k) ==> 0 < k < instrs@.len(),
{
    let mut n: usize = instrs.len();
    while n > 1
        invariant
            n <= instrs@.len(),
            last_guarded(instrs@, instrs@.len() as int) == last_guarded(instrs@, n as int),
        decreases n,
    {
        if (instrs[n - 1].short_je || instrs[n - 1].near_je) && instrs[n - 2].compares {
            return Some(n - 1);
        }
        n -= 1;
    }
    None
}

/// The bytes that turn a `je` into a `jne`.
pub fn jnz_patch(opcode: &[u8]) -> (r: Option<Vec<u8>>)
    ensures
        match r {
            Some(p) => jnz_bytes(opcode@) == Some(p@),
            None => jnz_bytes(opcode@) is None,
        },
{
    let mut p: Vec<u8> = Vec::new();
    if opcode.len() >= 1 && opcode[0] == 0x74 {
        p.push(0x75);
        assert(p@ =~= seq![0x75u8]);
        Some(p)
    } else if opcode.len() >= 2 && opcode[0] == 0x0f && opcode[1] == 0x84 {
        p.push(0x0f);
        p.push(0x85);
        assert(p@ =~= seq![0x0fu8, 0x85u8]);
        Some(p)
    } else {
        None
    }
}

/// The entry of a check whose jump was found: none where the jump has another form.
pub fn make_cookie_entry(string_rva: usize, xref_rva: usize, jz_rva: usize, opcode: Vec<u8>) -> (r:
    Option<SecurityCookieEntry>)
    ensures
        opt_cookie(r) == cookie_entry(
            string_rva as int,
            xref_rva as int,
            jz_rva as int,
            opcode@,
        ),
{
    match jnz_patch(&opcode) {
        Some(patch_bytes) => Some(
            SecurityCookieEntry {
                string_rva,
                xref_rva,
                jz_rva,
                opcode_len: opcode.len(),
                original_opcode: opcode,
                patch_bytes,
            },
        ),
        None => None,
    }
}

/// Reads the instructions from `from` on; gives the offset and the length of the last `je`
/// behind a `cmp`, if the reading meets `xref`.
fn find_jz_from(image: &PeImage, from: usize, xref: usize) -> (r: Option<(usize, usize)>)
    requires
        from <= image.reconstructed@.len(),
    ensures
        match r {
            Some((jz, len)) => jz_from(
                image.reconstructed@,
                image.image_base as int,
                from as int,
                xref as int,
            ) == Some(jz as int) && len == instr_at(
                image.reconstructed@,
                image.image_base as int,
                jz as int,
            ).len && jz + len <= image.reconstructed@.len(),
            None => jz_from(
                image.reconstructed@,
                image.image_base as int,
                from as int,
                xref as int,
            ) is None,
        },
{
    let buf = image.reconstructed.as_slice();
    let base: u64 = image.image_base;
    let mut places: Vec<usize> = Vec::new();
    let mut instrs: Vec<Decoded> = Vec::new();
    let mut pos: usize = from;
    let ghost whole = chain(buf@, base as int, from as int, xref as int);
    let mut met: bool = false;
    assert(instrs@ =~= instrs_at(buf@, base as int, as_ints(places@)));
    while !met && pos < buf.len()
        invariant
            buf@ == image.reconstructed@,
            base == image.image_base,
            pos <= buf@.len(),
            whole == chain(buf@, base as int, from as int, xref as int),
            places@.len() == instrs@.len(),
            instrs@ =~= instrs_at(buf@, base as int, as_ints(places@)),
            forall|k: int|
                0 <= k < places@.len() ==> (#[trigger] places@[k]) + instrs@[k].len
                    <= buf@.len(),
            met ==> whole == Some(as_ints(places@)),
            !met ==> whole == match chain(buf@, base as int, pos as int, xref as int) {
                Some(rest) => Some(as_ints(places@) + rest),
                None => None,
            },
        decreases
                (if met {
                    0
                } else {
                    1int
                }),
                buf.len() - pos,
    {
        let va: u64 = wrapped(base as i128 + pos as i128);
        let d = decode(slice_subrange(buf, pos, buf.len()), va);
        assert(d == instr_at(buf@, base as int, pos as int));
        let ghost before = as_ints(places@);
        let ghost rest = chain(buf@, base as int, pos + d.len, xref as int);
        let walk = walk_on(base, pos, d.len, xref);
        if walk == Walk::Lost {
            return None;
        }
        places.push(pos);
        instrs.push(d);
        assert(as_ints(places@) =~= before.push(pos as int));
        assert(before + seq![pos as int] =~= before.push(pos as int));
        if walk == Walk::Met {
            met = true;
        } else {
            assert(rest matches Some(r) ==> before + (seq![pos as int] + r) =~= before.push(
                pos as int,
            ) + r);
            pos += d.len;
        }
    }
    if !met {
        return None;
    }
    match last_guarded_je(&instrs) {
        Some(k) => {
            assert(as_ints(places@)[k as int] == places@[k as int]);
            Some((places[k], instrs[k].len))
        },
        None => None,
    }
}

/// The last `je` behind a `cmp` before `xref_rva`: its offset and its bytes.
pub(crate) fn find_jz_backwards(image: &PeImage, xref_rva: usize) -> (r: Option<(usize, Vec<u8>)>)
    requires
        xref_rva <= image.reconstructed@.len() + 5,
    ensures
        match r {
            Some((jz, opcode)) => jz_before(
                image.reconstructed@,
                image.image_base as int,
                xref_rva as int,
            ) == Some(jz as int) && opcode@ == image.reconstructed@.subrange(
                jz as int,
                jz + instr_at(image.reconstructed@, image.image_base as int, jz as int).len,
            ),
            None => jz_before(
                image.reconstructed@,
                image.image_base as int,
                xref_rva as int,
            ) is None,
        },
{
    if xref_rva < 5 {
        return None;
    }
    let low: usize = if xref_rva < 100 {
        0
    } else {
        xref_rva - 100
    };
    let mut n: usize = xref_rva - 4;
    while n > low
        invariant
            low <= n <= xref_rva - 4,
            xref_rva <= image.reconstructed@.len() + 5,
            low == (if xref_rva < 100 {
                0
            } else {
                xref_rva - 100
            }),
            jz_before(image.reconstructed@, image.image_base as int, xref_rva as int) == jz_back(
                image.reconstructed@,
                image.image_base as int,
                n - 1,
                low as int,
                xref_rva as int,
            ),
        decreases n,
    {
        if let Some((jz, len)) = find_jz_from(image, n - 1, xref_rva) {
            let buf = image.reconstructed.as_slice();
            assert(buf@.len() == buf.len());
            let opcode = slice_to_vec(slice_subrange(buf, jz, jz + len));
            return Some((jz, opcode));
        }
        n -= 1;
    }
    None
}

pub(crate) fn find_string(image: &PeImage, target: &str) -> (r: Option<usize>)
    requires
        target@.len() > 0,
    ensures
        as_int(r) == next_occurrence(image.reconstructed@, encode_utf8(target@), 0),
{
    find_bytes(image.reconstructed.as_slice(), target.as_bytes(), 0)
}

/// The place to patch the security-cookie check, if the image has the check.
pub fn find_security_cookie(image: &PeImage) -> (r: Option<SecurityCookieEntry>)
    ensures
        opt_cookie(r) == security_cookie(image.reconstructed@, image.image_base as int),
{
    let text = "[FLog::StudioCookieManager] Security cookie is cached so we proceed saving now.";
    proof {
        reveal_strlit(
            "[FLog::StudioCookieManager] Security cookie is cached so we proceed saving now.",
        );
        lemma_xref_bound(
            image.reconstructed@,
            next_occurrence(image.reconstructed@, encode_utf8(text@), 0)->0,
            0,
        );
    }
    let string_rva: usize = match find_string(image, text) {
        Some(v) => v,
        None => {
            return None;
        },
    };
    let xref_rva: usize = match find_xref(image, string_rva) {
        Some(v) => v,
        None => {
            return None;
        },
    };
    match find_jz_backwards(image, xref_rva) {
        Some((jz_rva, opcode)) => make_cookie_entry(string_rva, xref_rva, jz_rva, opcode),
        None => None,
    }
}

pub(crate) proof fn lemma_xref_bound(buf: Seq<u8>, rva: int, from: int)
    ensures
        next_xref(buf, rva, from) matches Some(x) ==> from <= x && x + 7 < buf.len(),
    decreases buf.len() - from,
{
    if from + 7 < buf.len() && next_xref(buf, rva, from) != Some(from) {
        lemma_xref_bound(buf, rva, from + 1);
    }
}

} // verus!
