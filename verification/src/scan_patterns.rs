//! Signatures: byte patterns with a mask, and where they stand in an image.
use crate::pe::PeImage;
use crate::search::as_int;
use vstd::prelude::*;
use vstd::slice::slice_to_vec;

verus! {

/// A signature that was found: where it stands and what is to be done there.
#[derive(Debug, Clone)]
pub struct PatternEntry {
    pub name: String,
    pub rva: usize,
    /// `hook` or `bytepatch`.
    pub kind: String,
    pub patch_offset: Option<usize>,
    pub patch_bytes: Option<Vec<u8>>,
    pub pattern_bytes: Vec<u8>,
    pub pattern_mask: Vec<u8>,
    pub description: String,
}

/// What a `PatternEntry` holds.
#[verifier::ext_equal]
pub struct PatternView {
    pub name: Seq<char>,
    pub rva: int,
    pub kind: Seq<char>,
    pub patch_offset: Option<int>,
    pub patch_bytes: Option<Seq<u8>>,
    pub pattern_bytes: Seq<u8>,
    pub pattern_mask: Seq<u8>,
    pub description: Seq<char>,
}

impl View for PatternEntry {
    type V = PatternView;

    open spec fn view(&self) -> PatternView {
        PatternView {
            name: self.name@,
            rva: self.rva as int,
            kind: self.kind@,
            patch_offset: as_int(self.patch_offset),
            patch_bytes: bytes_view(self.patch_bytes),
            pattern_bytes: self.pattern_bytes@,
            pattern_mask: self.pattern_mask@,
            description: self.description@,
        }
    }
}

/// The bytes of an optional vector.
pub open spec fn bytes_view(o: Option<Vec<u8>>) -> Option<Seq<u8>> {
    match o {
        Some(v) => Some(v@),
        None => None,
    }
}

/// The mask byte that lets any byte fit: a question mark.
pub const ANY: u8 = 0x3f;

/// The mask byte that asks for the byte of the pattern: an `x`.
pub const SAME: u8 = 0x78;

/// The bytes of `URL_ONCOMPONENT`.
pub const URL_ONCOMPONENT: [u8; 43] = [
    0x40, 0x55, 0x53, 0x56, 0x57, 0x41, 0x54, 0x41, 0x55, 0x41, 0x56, 0x41,
    0x57, 0x48, 0x8b, 0xec, 0x48, 0x83, 0xec, 0x78, 0x48, 0x8b, 0x05, 0x00,
    0x00, 0x00, 0x00, 0x48, 0x33, 0xc4, 0x48, 0x89, 0x45, 0xf0, 0x4d, 0x8b,
    0xf9, 0x4d, 0x8b, 0xf0, 0x4c, 0x8b, 0xe9,
];

/// The mask of `URL_ONCOMPONENT`: `?` where any byte fits.
pub const URL_ONCOMPONENT_MASK: [u8; 43] = [
    0x78, 0x78, 0x78, 0x78, 0x78, 0x78, 0x78, 0x78, 0x78, 0x78, 0x78, 0x78,
    0x78, 0x78, 0x78, 0x78, 0x78, 0x78, 0x78, 0x78, 0x78, 0x78, 0x78, 0x3f,
    0x3f, 0x3f, 0x3f, 0x78, 0x78, 0x78, 0x78, 0x78, 0x78, 0x78, 0x78, 0x78,
    0x78, 0x78, 0x78, 0x78, 0x78, 0x78, 0x78,
];

/// The bytes of `TRUSTCHECK`.
pub const TRUSTCHECK: [u8; 47] = [
    0x40, 0x55, 0x53, 0x56, 0x57, 0x41, 0x54, 0x41, 0x55, 0x41, 0x56, 0x41,
    0x57, 0x48, 0x8d, 0x6c, 0x24, 0xe1, 0x48, 0x81, 0xec, 0xd8, 0x00, 0x00,
    0x00, 0x48, 0x8b, 0x05, 0x00, 0x00, 0x00, 0x00, 0x48, 0x33, 0xc4, 0x48,
    0x89, 0x45, 0x07, 0x45, 0x0f, 0xb6, 0xe1, 0x45, 0x0f, 0xb6, 0xf8,
];

/// The mask of `TRUSTCHECK`: `?` where any byte fits.
pub const TRUSTCHECK_MASK: [u8; 47] = [
    0x78, 0x78, 0x78, 0x78, 0x78, 0x78, 0x78, 0x78, 0x78, 0x78, 0x78, 0x78,
    0x78, 0x78, 0x78, 0x78, 0x78, 0x78, 0x78, 0x78, 0x78, 0x78, 0x78, 0x78,
    0x78, 0x78, 0x78, 0x78, 0x3f, 0x3f, 0x3f, 0x3f, 0x78, 0x78, 0x78, 0x78,
    0x78, 0x78, 0x78, 0x78, 0x78, 0x78, 0x78, 0x78, 0x78, 0x78, 0x78,
];

/// The bytes of `HTTP_REQUEST_URL`.
pub const HTTP_REQUEST_URL: [u8; 33] = [
    0x48, 0x89, 0x74, 0x24, 0x00, 0x57, 0x48, 0x83, 0xec, 0x00, 0x48, 0x8b,
    0xfa, 0x48, 0x8b, 0xf1, 0xe8, 0x00, 0x00, 0x00, 0x00, 0x48, 0x85, 0xc0,
    0x0f, 0x84, 0x00, 0x00, 0x00, 0x00, 0x48, 0x8b, 0xc8,
];

/// The mask of `HTTP_REQUEST_URL`: `?` where any byte fits.
pub const HTTP_REQUEST_URL_MASK: [u8; 33] = [
    0x78, 0x78, 0x78, 0x78, 0x3f, 0x78, 0x78, 0x78, 0x78, 0x3f, 0x78, 0x78,
    0x78, 0x78, 0x78, 0x78, 0x78, 0x3f, 0x3f, 0x3f, 0x3f, 0x78, 0x78, 0x78,
    0x78, 0x78, 0x3f, 0x3f, 0x3f, 0x3f, 0x78, 0x78, 0x78,
];

/// The bytes of `FETCHER_JNE_THROW`.
pub const FETCHER_JNE_THROW: [u8; 21] = [
    0x80, 0xbd, 0xa8, 0x01, 0x00, 0x00, 0x00, 0x0f, 0x85, 0x66, 0x02, 0x00,
    0x00, 0x49, 0x8b, 0xd5, 0x48, 0x8d, 0x4c, 0x24, 0x50,
];

/// The mask of `FETCHER_JNE_THROW`: `?` where any byte fits.
pub const FETCHER_JNE_THROW_MASK: [u8; 21] = [
    0x78, 0x78, 0x78, 0x78, 0x78, 0x78, 0x78, 0x78, 0x78, 0x78, 0x78, 0x78,
    0x78, 0x78, 0x78, 0x78, 0x78, 0x78, 0x78, 0x78, 0x78,
];

/// The bytes of `ASYNC_TRUST_CHECK`.
pub const ASYNC_TRUST_CHECK: [u8; 32] = [
    0x44, 0x0f, 0xb6, 0x4c, 0x24, 0x40, 0x45, 0x0f, 0xb6, 0xc4, 0x33, 0xd2,
    0xe8, 0x00, 0x00, 0x00, 0x00, 0x84, 0xc0, 0x0f, 0x85, 0x00, 0x00, 0x00,
    0x00, 0x48, 0x8d, 0x05, 0x00, 0x00, 0x00, 0x00,
];

/// The mask of `ASYNC_TRUST_CHECK`: `?` where any byte fits.
pub const ASYNC_TRUST_CHECK_MASK: [u8; 32] = [
    0x78, 0x78, 0x78, 0x78, 0x78, 0x78, 0x78, 0x78, 0x78, 0x78, 0x78, 0x78,
    0x78, 0x3f, 0x3f, 0x3f, 0x3f, 0x78, 0x78, 0x78, 0x78, 0x3f, 0x3f, 0x3f,
    0x3f, 0x78, 0x78, 0x78, 0x3f, 0x3f, 0x3f, 0x3f,
];

/// Six one-byte no-operations, as long as a near `jne`.
pub const SIX_NOPS: [u8; 6] = [0x90, 0x90, 0x90, 0x90, 0x90, 0x90];

/// `or al, 1`.
pub const OR_AL_1: [u8; 2] = [0x0c, 0x01];

/// Whether the bytes at `i` agree with the first `n` bytes of the pattern wherever
/// the mask asks for it.
pub open spec fn agrees(
    buf: Seq<u8>,
    pattern: Seq<u8>,
    mask: Seq<u8>,
    i: int,
    n: int,
) -> bool {
    forall|k: int|
        0 <= k < n ==> #[trigger] mask[k] == ANY || (k < pattern.len() && buf[i + k]
            == pattern[k])
}

/// Whether the whole masked pattern stands in `buf` at `i`.
pub open spec fn pattern_at(buf: Seq<u8>, pattern: Seq<u8>, mask: Seq<u8>, i: int) -> bool {
    0 <= i && i + mask.len() <= buf.len() && agrees(buf, pattern, mask, i, mask.len() as int)
}

/// The first offset at or after `from` at which the masked pattern stands.
pub open spec fn next_pattern(
    buf: Seq<u8>,
    pattern: Seq<u8>,
    mask: Seq<u8>,
    from: int,
) -> Option<int>
    decreases buf.len() + 1 - from,
{
    if mask.len() == 0 || from < 0 || from + mask.len() > buf.len() {
        None
    } else if pattern_at(buf, pattern, mask, from) {
        Some(from)
    } else {
        next_pattern(buf, pattern, mask, from + 1)
    }
}

/// Whether comparing at `i` never asks for a byte behind the end of the pattern: where
/// the mask asks for one, a byte before it already differs.
pub open spec fn readable_at(buf: Seq<u8>, pattern: Seq<u8>, mask: Seq<u8>, i: int) -> bool {
    forall|k: int|
        pattern.len() <= k < mask.len() && #[trigger] mask[k] != ANY ==> !agrees(
            buf,
            pattern,
            mask,
            i,
            k,
        )
}

/// What `next_pattern` gives is a match, and it is the first one.
pub proof fn lemma_next_pattern(buf: Seq<u8>, pattern: Seq<u8>, mask: Seq<u8>, from: int)
    requires
        0 <= from,
    ensures
        match next_pattern(buf, pattern, mask, from) {
            Some(i) => mask.len() > 0 && from <= i && pattern_at(buf, pattern, mask, i)
                && forall|j: int| from <= j < i ==> !#[trigger] pattern_at(buf, pattern, mask, j),
            None => mask.len() > 0 ==> forall|j: int|
                from <= j ==> !#[trigger] pattern_at(buf, pattern, mask, j),
        },
    decreases buf.len() + 1 - from,
{
    if mask.len() == 0 || from + mask.len() > buf.len() {
    } else if pattern_at(buf, pattern, mask, from) {
    } else {
        lemma_next_pattern(buf, pattern, mask, from + 1);
    }
}

/// Whether the masked pattern stands in `buf` at `i`.
pub fn matches_at(buf: &[u8], pattern: &[u8], mask: &[u8], i: usize) -> (r: bool)
    requires
        i + mask@.len() <= buf@.len(),
        readable_at(buf@, pattern@, mask@, i as int),
    ensures
        r == pattern_at(buf@, pattern@, mask@, i as int),
{
    for k in 0..mask.len()
        invariant
            i + mask@.len() <= buf.len() == buf@.len(),
            readable_at(buf@, pattern@, mask@, i as int),
            agrees(buf@, pattern@, mask@, i as int, k as int),
    {
        if mask[k] != ANY && buf[i + k] != pattern[k] {
            return false;
        }
    }
    true
}

/// Whether comparing the bytes with a masked pattern never asks for a byte behind the end of
/// the pattern.
pub fn can_compare(data: &[u8], pattern: &[u8], mask: &[u8]) -> (r: bool)
    requires
        mask@.len() <= data@.len(),
    ensures
        r == readable_at(data@, pattern@, mask@, 0),
{
    for k in 0..mask.len()
        invariant
            mask@.len() <= data@.len(),
            agrees(data@, pattern@, mask@, 0, k as int),
            forall|j: int| pattern@.len() <= j < k ==> #[trigger] mask@[j] == ANY,
    {
        if mask[k] != ANY {
            if k >= pattern.len() {
                assert(mask@[k as int] != ANY);
                return false;
            }
            if data[k] != pattern[k] {
                assert forall|j: int|
                    pattern@.len() <= j < mask@.len() && #[trigger] mask@[j] != ANY implies !agrees(
                    data@,
                    pattern@,
                    mask@,
                    0,
                    j,
                ) by {
                    assert(mask@[k as int] != ANY && data@[0 + k] != pattern@[k as int]);
                }
                return true;
            }
        }
    }
    true
}

/// The offset of the first place at which the masked pattern stands in the image; an
/// empty mask stands nowhere.
pub fn find_byte_pattern(image: &PeImage, pattern: &[u8], mask: &[u8]) -> (r: Option<usize>)
    requires
        forall|i: int|
            0 <= i && i + mask@.len() <= image.reconstructed@.len() ==> #[trigger] readable_at(
                image.reconstructed@,
                pattern@,
                mask@,
                i,
            ),
    ensures
        as_int(r) == next_pattern(image.reconstructed@, pattern@, mask@, 0),
{
    let buf = image.reconstructed.as_slice();
    let plen: usize = mask.len();
    if plen == 0 || buf.len() < plen {
        return None;
    }
    let mut i: usize = 0;
    while i <= buf.len() - plen
        invariant
            buf@ == image.reconstructed@,
            plen == mask@.len(),
            0 < plen <= buf@.len(),
            i <= buf@.len(),
            forall|j: int|
                0 <= j && j + mask@.len() <= buf@.len() ==> #[trigger] readable_at(
                    buf@,
                    pattern@,
                    mask@,
                    j,
                ),
            next_pattern(buf@, pattern@, mask@, 0) == next_pattern(
                buf@,
                pattern@,
                mask@,
                i as int,
            ),
        decreases buf.len() - i,
    {
        if matches_at(buf, pattern, mask, i) {
            return Some(i);
        }
        i += 1;
    }
    None
}

/// A signature: its name, its bytes and mask, the patch it asks for (a hook asks for
/// none) and its description.
#[verifier::ext_equal]
pub struct Signature {
    pub name: Seq<char>,
    pub bytes: Seq<u8>,
    pub mask: Seq<u8>,
    pub patch: Option<(int, Seq<u8>)>,
    pub description: Seq<char>,
}

/// The signatures, in the order in which they are reported.
pub open spec fn signatures() -> Seq<Signature> {
    seq![
        Signature {
            name: "URL_ONCOMPONENT"@,
            bytes: URL_ONCOMPONENT@,
            mask: URL_ONCOMPONENT_MASK@,
            patch: None,
            description: "HttpRequest FromComponents - rewrite scheme/host to localhost"@,
        },
        Signature {
            name: "TRUSTCHECK"@,
            bytes: TRUSTCHECK@,
            mask: TRUSTCHECK_MASK@,
            patch: None,
            description: "TrustCheck - trust localhost URLs"@,
        },
        Signature {
            name: "HTTP_REQUEST_URL"@,
            bytes: HTTP_REQUEST_URL@,
            mask: HTTP_REQUEST_URL_MASK@,
            patch: None,
            description: "HttpRequest notTrusted hook - always return trusted"@,
        },
        Signature {
            name: "FETCHER_JNE_THROW"@,
            bytes: FETCHER_JNE_THROW@,
            mask: FETCHER_JNE_THROW_MASK@,
            patch: Some((7, SIX_NOPS@)),
            description: "NOP out fetcher jne so latest-place-version falls through to dispatcher"@,
        },
        Signature {
            name: "ASYNC_TRUST_CHECK"@,
            bytes: ASYNC_TRUST_CHECK@,
            mask: ASYNC_TRUST_CHECK_MASK@,
            patch: Some((17, OR_AL_1@)),
            description: "AsyncHttpQueue trust check: test al,al -> or al,1 so jne always takes success path"@,
        },
    ]
}

/// The entry of a signature that stands at `rva`.
pub open spec fn signature_entry(s: Signature, rva: int) -> PatternView {
    PatternView {
        name: s.name,
        rva,
        kind: if s.patch is Some {
            "bytepatch"@
        } else {
            "hook"@
        },
        patch_offset: match s.patch {
            Some(p) => Some(p.0),
            None => None,
        },
        patch_bytes: match s.patch {
            Some(p) => Some(p.1),
            None => None,
        },
        pattern_bytes: s.bytes,
        pattern_mask: s.mask,
        description: s.description,
    }
}

/// The entries of those signatures that stand in the image, each at its first place.
pub open spec fn signature_entries(buf: Seq<u8>, sigs: Seq<Signature>) -> Seq<PatternView>
    decreases sigs.len(),
{
    if sigs.len() == 0 {
        Seq::empty()
    } else {
        let before = signature_entries(buf, sigs.drop_last());
        let s = sigs.last();
        match next_pattern(buf, s.bytes, s.mask, 0) {
            Some(rva) => before.push(signature_entry(s, rva)),
            None => before,
        }
    }
}

/// The entries of a vector.
pub open spec fn entries(v: Seq<PatternEntry>) -> Seq<PatternView> {
    v.map_values(|e: PatternEntry| e@)
}

fn scan_hook(
    image: &PeImage,
    out: &mut Vec<PatternEntry>,
    name: &str,
    bytes: &[u8],
    mask: &[u8],
    description: &str,
    Ghost(s): Ghost<Signature>,
)
    requires
        s == (Signature {
            name: name@,
            bytes: bytes@,
            mask: mask@,
            patch: None,
            description: description@,
        }),
        mask@.len() <= bytes@.len(),
    ensures
        entries(final(out)@) == match next_pattern(image.reconstructed@, s.bytes, s.mask, 0) {
            Some(rva) => entries(old(out)@).push(signature_entry(s, rva)),
            None => entries(old(out)@),
        },
{
    if let Some(rva) = find_byte_pattern(image, bytes, mask) {
        let entry = PatternEntry {
            name: name.to_string(),
            rva,
            kind: "hook".to_string(),
            patch_offset: None,
            patch_bytes: None,
            pattern_bytes: slice_to_vec(bytes),
            pattern_mask: slice_to_vec(mask),
            description: description.to_string(),
        };
        assert(entry@ == signature_entry(s, rva as int));
        out.push(entry);
    }
    assert(entries(out@) =~= match next_pattern(image.reconstructed@, s.bytes, s.mask, 0) {
        Some(rva) => entries(old(out)@).push(signature_entry(s, rva)),
        None => entries(old(out)@),
    });
}

fn scan_patch(
    image: &PeImage,
    out: &mut Vec<PatternEntry>,
    name: &str,
    bytes: &[u8],
    mask: &[u8],
    offset: usize,
    patch: &[u8],
    description: &str,
    Ghost(s): Ghost<Signature>,
)
    requires
        s == (Signature {
            name: name@,
            bytes: bytes@,
            mask: mask@,
            patch: Some((offset as int, patch@)),
            description: description@,
        }),
        mask@.len() <= bytes@.len(),
    ensures
        entries(final(out)@) == match next_pattern(image.reconstructed@, s.bytes, s.mask, 0) {
            Some(rva) => entries(old(out)@).push(signature_entry(s, rva)),
            None => entries(old(out)@),
        },
{
    if let Some(rva) = find_byte_pattern(image, bytes, mask) {
        let entry = PatternEntry {
            name: name.to_string(),
            rva,
            kind: "bytepatch".to_string(),
            patch_offset: Some(offset),
            patch_bytes: Some(slice_to_vec(patch)),
            pattern_bytes: slice_to_vec(bytes),
            pattern_mask: slice_to_vec(mask),
            description: description.to_string(),
        };
        assert(entry@ == signature_entry(s, rva as int));
        out.push(entry);
    }
    assert(entries(out@) =~= match next_pattern(image.reconstructed@, s.bytes, s.mask, 0) {
        Some(rva) => entries(old(out)@).push(signature_entry(s, rva)),
        None => entries(old(out)@),
    });
}

/// The signatures that stand in the image, each at its first place.
pub fn scan_patterns(image: &PeImage) -> (out: Vec<PatternEntry>)
    ensures
        entries(out@) == signature_entries(image.reconstructed@, signatures()),
{
    let mut out: Vec<PatternEntry> = Vec::new();
    let ghost sigs = signatures();
    scan_hook(
        image,
        &mut out,
        "URL_ONCOMPONENT",
        URL_ONCOMPONENT.as_slice(),
        URL_ONCOMPONENT_MASK.as_slice(),
        "HttpRequest FromComponents - rewrite scheme/host to localhost",
        Ghost(sigs[0]),
    );
    scan_hook(
        image,
        &mut out,
        "TRUSTCHECK",
        TRUSTCHECK.as_slice(),
        TRUSTCHECK_MASK.as_slice(),
        "TrustCheck - trust localhost URLs",
        Ghost(sigs[1]),
    );
    scan_hook(
        image,
        &mut out,
        "HTTP_REQUEST_URL",
        HTTP_REQUEST_URL.as_slice(),
        HTTP_REQUEST_URL_MASK.as_slice(),
        "HttpRequest notTrusted hook - always return trusted",
        Ghost(sigs[2]),
    );
    scan_patch(
        image,
        &mut out,
        "FETCHER_JNE_THROW",
        FETCHER_JNE_THROW.as_slice(),
        FETCHER_JNE_THROW_MASK.as_slice(),
        7,
        SIX_NOPS.as_slice(),
        "NOP out fetcher jne so latest-place-version falls through to dispatcher",
        Ghost(sigs[3]),
    );
    scan_patch(
        image,
        &mut out,
        "ASYNC_TRUST_CHECK",
        ASYNC_TRUST_CHECK.as_slice(),
        ASYNC_TRUST_CHECK_MASK.as_slice(),
        17,
        OR_AL_1.as_slice(),
        "AsyncHttpQueue trust check: test al,al -> or al,1 so jne always takes success path",
        Ghost(sigs[4]),
    );
    proof {
        let buf = image.reconstructed@;
        assert(sigs.take(0) =~= Seq::empty());
        assert(sigs.take(1).drop_last() =~= sigs.take(0));
        assert(sigs.take(2).drop_last() =~= sigs.take(1));
        assert(sigs.take(3).drop_last() =~= sigs.take(2));
        assert(sigs.take(4).drop_last() =~= sigs.take(3));
        assert(sigs.take(5).drop_last() =~= sigs.take(4));
        assert(sigs.take(5) =~= sigs);
        assert(signature_entries(buf, sigs.take(0)) =~= Seq::empty());
        reveal_with_fuel(signature_entries, 6);
    }
    out
}

} // verus!
