//! The image of an executable as it lies in memory.
use crate::numbers::{hex_bytes, hex_of_bytes};
use crate::text::{from_chars_between, from_utf8_lossy, join, to_chars, utf8_lossy};
use goblin::pe::PE;
use sha2::{Digest, Sha256};
use vstd::prelude::*;

verus! {

/// A section of the executable.
#[derive(Debug, Clone)]
pub struct SectionInfo {
    pub name: String,
    pub virtual_address: usize,
    pub virtual_size: usize,
    pub raw_pointer: usize,
    pub raw_size: usize,
    pub executable: bool,
    pub readable: bool,
}

/// An executable, with its sections laid out as they are when it runs.
#[derive(Debug, Clone)]
pub struct PeImage {
    pub image_base: u64,
    pub image_size: usize,
    pub sections: Vec<SectionInfo>,
    pub reconstructed: Vec<u8>,
    pub sha256: String,
    pub file_size: u64,
}

/// A section as the headers of the executable describe it.
#[derive(Debug, Clone)]
pub struct RawSection {
    pub name: Vec<u8>,
    pub virtual_address: u32,
    pub virtual_size: u32,
    pub pointer_to_raw_data: u32,
    pub size_of_raw_data: u32,
    pub characteristics: u32,
}

/// What the headers of an executable say.
#[derive(Debug, Clone)]
pub struct PeHeaders {
    pub image_base: u64,
    /// Nothing where the optional header is missing.
    pub size_of_image: Option<u32>,
    pub sections: Vec<RawSection>,
}

/// What a `SectionInfo` holds.
#[verifier::ext_equal]
pub struct SectionView {
    pub name: Seq<char>,
    pub virtual_address: int,
    pub virtual_size: int,
    pub raw_pointer: int,
    pub raw_size: int,
    pub executable: bool,
    pub readable: bool,
}

impl View for SectionInfo {
    type V = SectionView;

    open spec fn view(&self) -> SectionView {
        SectionView {
            name: self.name@,
            virtual_address: self.virtual_address as int,
            virtual_size: self.virtual_size as int,
            raw_pointer: self.raw_pointer as int,
            raw_size: self.raw_size as int,
            executable: self.executable,
            readable: self.readable,
        }
    }
}

/// What a `PeImage` holds.
#[verifier::ext_equal]
pub struct ImageView {
    pub image_base: int,
    pub image_size: int,
    pub sections: Seq<SectionView>,
    pub reconstructed: Seq<u8>,
    pub sha256: Seq<char>,
    pub file_size: int,
}

impl View for PeImage {
    type V = ImageView;

    open spec fn view(&self) -> ImageView {
        ImageView {
            image_base: self.image_base as int,
            image_size: self.image_size as int,
            sections: self.sections@.map_values(|s: SectionInfo| s@),
            reconstructed: self.reconstructed@,
            sha256: self.sha256@,
            file_size: self.file_size as int,
        }
    }
}

/// What a `RawSection` holds.
#[verifier::ext_equal]
pub struct RawView {
    pub name: Seq<u8>,
    pub virtual_address: u32,
    pub virtual_size: u32,
    pub pointer_to_raw_data: u32,
    pub size_of_raw_data: u32,
    pub characteristics: u32,
}

impl View for RawSection {
    type V = RawView;

    open spec fn view(&self) -> RawView {
        RawView {
            name: self.name@,
            virtual_address: self.virtual_address,
            virtual_size: self.virtual_size,
            pointer_to_raw_data: self.pointer_to_raw_data,
            size_of_raw_data: self.size_of_raw_data,
            characteristics: self.characteristics,
        }
    }
}

/// What a `PeHeaders` holds.
#[verifier::ext_equal]
pub struct HeadersView {
    pub image_base: u64,
    pub size_of_image: Option<u32>,
    pub sections: Seq<RawView>,
}

impl View for PeHeaders {
    type V = HeadersView;

    open spec fn view(&self) -> HeadersView {
        HeadersView {
            image_base: self.image_base,
            size_of_image: self.size_of_image,
            sections: self.sections@.map_values(|s: RawSection| s@),
        }
    }
}

/// The headers that the bytes of an executable begin with, or the text of what is wrong with
/// them.
pub uninterp spec fn parsed_headers(bytes: Seq<u8>) -> Result<HeadersView, Seq<char>>;

/// The SHA-256 digest of the bytes.
pub uninterp spec fn sha256(bytes: Seq<u8>) -> Seq<u8>;

/// The view of what parsing gave.
pub open spec fn parse_view(r: Result<PeHeaders, String>) -> Result<HeadersView, Seq<char>> {
    match r {
        Ok(h) => Ok(h@),
        Err(e) => Err(e@),
    }
}

/// `PE::parse` of `goblin`: what the headers say, or the text of its error, depends on the
/// bytes alone. Which bytes give which headers or which error is left to the name.
#[verifier::external_body]
pub(crate) fn parse_headers(bytes: &[u8]) -> (r: Result<PeHeaders, String>)
    ensures
        parse_view(r) == parsed_headers(bytes@),
{
    let pe = PE::parse(bytes).map_err(|e| e.to_string())?;
    let size = pe.header.optional_header.map(|o| o.windows_fields.size_of_image);
    let sections = pe.sections.iter().map(
        |s| RawSection {
            name: s.name.to_vec(),
            virtual_address: s.virtual_address,
            virtual_size: s.virtual_size,
            pointer_to_raw_data: s.pointer_to_raw_data,
            size_of_raw_data: s.size_of_raw_data,
            characteristics: s.characteristics,
        },
    ).collect();
    Ok(PeHeaders { image_base: pe.image_base, size_of_image: size, sections })
}

/// `Sha256` of `sha2`, created, fed all the bytes at once and finished: thirty-two bytes that
/// depend on the bytes alone.
#[verifier::external_body]
pub(crate) fn sha256_digest(bytes: &[u8]) -> (r: Vec<u8>)
    ensures
        r@ == sha256(bytes@),
        r@.len() == 32,
{
    let mut hasher = Sha256::new();
    hasher.update(bytes);
    hasher.finalize().to_vec()
}

/// The smaller of two integers.
pub open spec fn min(a: int, b: int) -> int {
    if a <= b {
        a
    } else {
        b
    }
}

/// The end of the section that reaches farthest in memory.
pub open spec fn farthest_end(sections: Seq<RawView>) -> int
    decreases sections.len(),
{
    if sections.len() == 0 {
        0
    } else {
        let before = farthest_end(sections.drop_last());
        let end = sections.last().virtual_address + sections.last().virtual_size;
        if end > before {
            end
        } else {
            before
        }
    }
}

/// The size of the image in memory: what the headers say, or the end of its farthest section
/// where they say nothing or zero.
pub open spec fn image_extent(h: HeadersView) -> int {
    match h.size_of_image {
        Some(n) if n != 0 => n as int,
        _ => farthest_end(h.sections),
    }
}

/// `s` without the zero characters at its end.
pub open spec fn without_nuls(s: Seq<char>) -> Seq<char>
    decreases s.len(),
{
    if s.len() > 0 && s.last() as u32 == 0 {
        without_nuls(s.drop_last())
    } else {
        s
    }
}

/// Whether the flags of a section let its bytes be executed, and whether they let them be
/// read.
pub open spec fn flags_of(characteristics: u32) -> (bool, bool) {
    (characteristics & 0x2000_0000 != 0, characteristics & 0x4000_0000 != 0)
}

/// A section as the headers describe it.
pub open spec fn section_of(s: RawView) -> SectionView {
    SectionView {
        name: without_nuls(utf8_lossy(s.name)),
        virtual_address: s.virtual_address as int,
        virtual_size: s.virtual_size as int,
        raw_pointer: s.pointer_to_raw_data as int,
        raw_size: s.size_of_raw_data as int,
        executable: flags_of(s.characteristics).0,
        readable: flags_of(s.characteristics).1,
    }
}

/// How many bytes of the file a section puts into an image of `size` bytes.
pub open spec fn copied_len(bytes: Seq<u8>, s: RawView, size: int) -> int {
    min(
        min(min(s.virtual_size as int, s.size_of_raw_data as int), size - s.virtual_address),
        bytes.len() - min(s.pointer_to_raw_data as int, bytes.len() as int),
    )
}

/// The image with the bytes that a section has in the file put at its address.
pub open spec fn with_section(image: Seq<u8>, bytes: Seq<u8>, s: RawView) -> Seq<u8> {
    let n = copied_len(bytes, s, image.len() as int);
    Seq::new(
        image.len(),
        |i: int|
            if s.virtual_address <= i < s.virtual_address + n {
                bytes[s.pointer_to_raw_data + (i - s.virtual_address)]
            } else {
                image[i]
            },
    )
}

/// An image of `size` zeros with the sections put into it one after the other.
pub open spec fn laid_out(bytes: Seq<u8>, sections: Seq<RawView>, size: nat) -> Seq<u8>
    decreases sections.len(),
{
    if sections.len() == 0 {
        Seq::new(size, |i: int| 0u8)
    } else {
        with_section(laid_out(bytes, sections.drop_last(), size), bytes, sections.last())
    }
}

/// The image of an executable with the given headers, bytes and digest.
pub open spec fn image_of(h: HeadersView, bytes: Seq<u8>, digest: Seq<u8>) -> ImageView {
    ImageView {
        image_base: h.image_base as int,
        image_size: image_extent(h),
        sections: h.sections.map_values(|s: RawView| section_of(s)),
        reconstructed: laid_out(bytes, h.sections, image_extent(h) as nat),
        sha256: hex_bytes(digest),
        file_size: bytes.len() as int,
    }
}

/// Whether the flags of a section let its bytes be executed, and whether they let them be
/// read.
pub fn section_flags(characteristics: u32) -> (r: (bool, bool))
    ensures
        r == flags_of(characteristics),
{
    (characteristics & 0x2000_0000 != 0, characteristics & 0x4000_0000 != 0)
}

/// `s` without the zero characters at its end.
pub fn trim_nuls(s: &str) -> (r: String)
    ensures
        r@ == without_nuls(s@),
{
    let chars = to_chars(s);
    let mut n: usize = chars.len();
    assert(chars@.take(n as int) =~= chars@);
    while n > 0 && chars[n - 1] as u32 == 0
        invariant
            n <= chars@.len(),
            without_nuls(chars@) == without_nuls(chars@.take(n as int)),
        decreases n,
    {
        assert(chars@.take(n as int).drop_last() =~= chars@.take(n - 1));
        n -= 1;
    }
    let r = from_chars_between(&chars, 0, n);
    assert(r@ =~= chars@.take(n as int));
    r
}

/// The size of the image in memory, where it fits in an address.
pub fn extent(h: &PeHeaders) -> (r: Option<usize>)
    ensures
        match r {
            Some(n) => n == image_extent(h@),
            None => image_extent(h@) > usize::MAX,
        },
{
    if let Some(n) = h.size_of_image {
        if n != 0 {
            return Some(n as usize);
        }
    }
    let mut far: u64 = 0;
    for i in 0..h.sections.len()
        invariant
            far == farthest_end(h@.sections.take(i as int)),
            far <= 0x1_ffff_ffff,
    {
        assert(h@.sections.take(i + 1).drop_last() =~= h@.sections.take(i as int));
        assert(h@.sections[i as int] == h.sections@[i as int]@);
        let s = &h.sections[i];
        let end: u64 = s.virtual_address as u64 + s.virtual_size as u64;
        if end > far {
            far = end;
        }
    }
    assert(h@.sections.take(h.sections@.len() as int) =~= h@.sections);
    if far <= usize::MAX as u64 {
        Some(far as usize)
    } else {
        None
    }
}

fn make_section(s: &RawSection) -> (r: SectionInfo)
    ensures
        r@ == section_of(s@),
{
    let (executable, readable) = section_flags(s.characteristics);
    SectionInfo {
        name: trim_nuls(&from_utf8_lossy(&s.name)),
        virtual_address: s.virtual_address as usize,
        virtual_size: s.virtual_size as usize,
        raw_pointer: s.pointer_to_raw_data as usize,
        raw_size: s.size_of_raw_data as usize,
        executable,
        readable,
    }
}

fn put_section(image: &mut Vec<u8>, bytes: &[u8], s: &RawSection)
    ensures
        final(image)@ == with_section(old(image)@, bytes@, s@),
{
    let size: usize = image.len();
    let va: usize = s.virtual_address as usize;
    if va > size {
        assert(image@ =~= with_section(old(image)@, bytes@, s@));
        return;
    }
    let mut n: usize = s.virtual_size as usize;
    if s.size_of_raw_data as usize <= n {
        n = s.size_of_raw_data as usize;
    }
    if size - va <= n {
        n = size - va;
    }
    let start: usize = if s.pointer_to_raw_data as usize <= bytes.len() {
        s.pointer_to_raw_data as usize
    } else {
        bytes.len()
    };
    let len: usize = bytes.len();
    if len - start <= n {
        n = len - start;
    }
    for i in 0..n
        invariant
            va == s@.virtual_address,
            va + n <= size,
            start + n <= len == bytes@.len(),
            n > 0 ==> start == s@.pointer_to_raw_data,
            image@.len() == size == old(image)@.len(),
            forall|k: int|
                0 <= k < size ==> #[trigger] image@[k] == (if va <= k < va + i {
                    bytes@[start + (k - va)]
                } else {
                    old(image)@[k]
                }),
    {
        image.set(va + i, bytes[start + i]);
    }
    assert(image@ =~= with_section(old(image)@, bytes@, s@));
}

/// The image of an executable: its headers, the bytes of its file and the digest of these.
pub fn build_image(h: &PeHeaders, bytes: &[u8], digest: &[u8]) -> (r: PeImage)
    requires
        image_extent(h@) <= usize::MAX,
    ensures
        r@ == image_of(h@, bytes@, digest@),
{
    let size: usize = match extent(h) {
        Some(n) => n,
        None => 0,
    };
    let mut sections: Vec<SectionInfo> = Vec::new();
    let mut reconstructed: Vec<u8> = vec![0u8; size];
    let ghost raw = h@.sections;
    assert(reconstructed@ =~= laid_out(bytes@, raw.take(0), size as nat));
    for i in 0..h.sections.len()
        invariant
            raw == h@.sections,
            sections@.len() == i,
            forall|k: int| 0 <= k < i ==> #[trigger] sections@[k]@ == section_of(raw[k]),
            reconstructed@ == laid_out(bytes@, raw.take(i as int), size as nat),
    {
        assert(raw[i as int] == h.sections@[i as int]@);
        assert(raw.take(i + 1).drop_last() =~= raw.take(i as int));
        sections.push(make_section(&h.sections[i]));
        put_section(&mut reconstructed, bytes, &h.sections[i]);
    }
    assert(raw.take(h.sections@.len() as int) =~= raw);
    let r = PeImage {
        image_base: h.image_base,
        image_size: size,
        sections,
        reconstructed,
        sha256: hex_of_bytes(digest),
        file_size: bytes.len() as u64,
    };
    assert(r@.sections =~= raw.map_values(|s: RawView| section_of(s)));
    r
}

/// The view of what loading gave.
pub open spec fn load_view(r: Result<PeImage, String>) -> Result<ImageView, Seq<char>> {
    match r {
        Ok(image) => Ok(image@),
        Err(e) => Err(e@),
    }
}

/// The image of the executable whose file holds `bytes`.
pub fn load(bytes: &[u8]) -> (r: Result<PeImage, String>)
    ensures
        load_view(r) == match parsed_headers(bytes@) {
            Ok(h) => if image_extent(h) <= usize::MAX {
                Ok(image_of(h, bytes@, sha256(bytes@)))
            } else {
                Err("image too large"@)
            },
            Err(e) => Err("PE parse failed: "@ + e),
        },
        r matches Ok(image) ==> image.sha256@.len() == 64,
{
    let digest = sha256_digest(bytes);
    match parse_headers(bytes) {
        Ok(h) => {
            if extent(&h).is_some() {
                Ok(build_image(&h, bytes, &digest))
            } else {
                Err("image too large".to_string())
            }
        },
        Err(e) => Err(join("PE parse failed: ", &e)),
    }
}

/// Whether a section puts a byte of the file at the offset `i` of an image of `size` bytes.
pub open spec fn covers(bytes: Seq<u8>, s: RawView, size: int, i: int) -> bool {
    s.virtual_address <= i < s.virtual_address + copied_len(bytes, s, size)
}

/// The image has the size that it is laid out with.
pub proof fn law_layout_keeps_the_size(bytes: Seq<u8>, sections: Seq<RawView>, size: nat)
    ensures
        laid_out(bytes, sections, size).len() == size,
    decreases sections.len(),
{
    if sections.len() > 0 {
        law_layout_keeps_the_size(bytes, sections.drop_last(), size);
    }
}

/// What no section covers is zero.
pub proof fn law_gaps_are_zero(bytes: Seq<u8>, sections: Seq<RawView>, size: nat, i: int)
    requires
        0 <= i < size,
        forall|k: int|
            0 <= k < sections.len() ==> !covers(bytes, #[trigger] sections[k], size as int, i),
    ensures
        laid_out(bytes, sections, size)[i] == 0,
    decreases sections.len(),
{
    if sections.len() > 0 {
        let front = sections.drop_last();
        law_layout_keeps_the_size(bytes, front, size);
        assert forall|k: int| 0 <= k < front.len() implies !covers(
            bytes,
            #[trigger] front[k],
            size as int,
            i,
        ) by {
            assert(front[k] == sections[k]);
        }
        law_gaps_are_zero(bytes, front, size, i);
        assert(!covers(bytes, sections[sections.len() - 1], size as int, i));
    }
}

/// What a section covers, and no later one, is the byte that the section has in the file.
pub proof fn law_last_section_wins(
    bytes: Seq<u8>,
    sections: Seq<RawView>,
    size: nat,
    j: int,
    i: int,
)
    requires
        0 <= i < size,
        0 <= j < sections.len(),
        covers(bytes, sections[j], size as int, i),
        forall|k: int|
            j < k < sections.len() ==> !covers(bytes, #[trigger] sections[k], size as int, i),
    ensures
        laid_out(bytes, sections, size)[i] == bytes[sections[j].pointer_to_raw_data + (i
            - sections[j].virtual_address)],
    decreases sections.len(),
{
    let front = sections.drop_last();
    law_layout_keeps_the_size(bytes, front, size);
    if j < front.len() {
        assert forall|k: int| j < k < front.len() implies !covers(
            bytes,
            #[trigger] front[k],
            size as int,
            i,
        ) by {
            assert(front[k] == sections[k]);
        }
        law_last_section_wins(bytes, front, size, j, i);
        assert(!covers(bytes, sections[sections.len() - 1], size as int, i));
    }
}

/// Where the headers give no size, every section ends inside the image.
pub proof fn law_sections_end_inside(h: HeadersView, k: int)
    requires
        h.size_of_image is None || h.size_of_image == Some(0u32),
        0 <= k < h.sections.len(),
    ensures
        h.sections[k].virtual_address + h.sections[k].virtual_size <= image_extent(h),
{
    lemma_farthest_end(h.sections, k);
}

proof fn lemma_farthest_end(sections: Seq<RawView>, k: int)
    requires
        0 <= k < sections.len(),
    ensures
        sections[k].virtual_address + sections[k].virtual_size <= farthest_end(sections),
    decreases sections.len(),
{
    if k < sections.len() - 1 {
        lemma_farthest_end(sections.drop_last(), k);
    }
}

} // verus!
