//! What the image of an executable holds, stated on its headers and the bytes of its file.
use crate::pe::{
    covers, farthest_end, image_extent, image_of, law_gaps_are_zero, law_last_section_wins,
    law_layout_keeps_the_size, law_sections_end_inside, without_nuls, HeadersView, RawView,
};
use crate::text::utf8_lossy;
use crate::text_laws::{law_hex_reads_back, value_in};
use vstd::prelude::*;

verus! {

/// Whether a section brings the byte of the file for the offset `x` of the image: `x` lies inside
/// the section, in memory and in the file, and the file has that byte.
pub open spec fn brings(bytes: Seq<u8>, s: RawView, x: int) -> bool {
    &&& s.virtual_address <= x
    &&& x - s.virtual_address < s.virtual_size
    &&& x - s.virtual_address < s.size_of_raw_data
    &&& s.pointer_to_raw_data + (x - s.virtual_address) < bytes.len()
}

proof fn lemma_covers(bytes: Seq<u8>, s: RawView, size: int, x: int)
    requires
        0 <= x < size,
    ensures
        covers(bytes, s, size, x) <==> brings(bytes, s, x),
{
}

/// The image is as large as it is said to be.
pub proof fn law_image_has_its_size(h: HeadersView, bytes: Seq<u8>, digest: Seq<u8>)
    ensures
        image_extent(h) >= 0,
        image_of(h, bytes, digest).reconstructed.len() == image_of(h, bytes, digest).image_size,
{
    lemma_far(h.sections);
    law_layout_keeps_the_size(bytes, h.sections, image_extent(h) as nat);
}

proof fn lemma_far(sections: Seq<RawView>)
    ensures
        farthest_end(sections) >= 0,
        farthest_end(sections) > 0 ==> exists|k: int|
            0 <= k < sections.len() && #[trigger] sections[k].virtual_address
                + sections[k].virtual_size == farthest_end(sections),
    decreases sections.len(),
{
    if sections.len() > 0 {
        let front = sections.drop_last();
        lemma_far(front);
        if farthest_end(sections) == farthest_end(front) && farthest_end(front) > 0 {
            let k = choose|k: int|
                0 <= k < front.len() && #[trigger] front[k].virtual_address + front[k].virtual_size
                    == farthest_end(front);
            assert(sections[k] == front[k]);
        } else {
            assert(sections[sections.len() - 1] == sections.last());
        }
    }
}

/// The size is the one that the headers give; where they give none or zero, no section ends behind
/// the image, and one ends with it.
pub proof fn law_image_size_is_that_of_the_headers(h: HeadersView, bytes: Seq<u8>, digest: Seq<u8>)
    ensures
        ({
            let size = image_of(h, bytes, digest).image_size;
            &&& h.size_of_image is Some && h.size_of_image->0 != 0 ==> size == h.size_of_image->0
            &&& h.size_of_image is None || h.size_of_image == Some(0u32) ==> {
                &&& forall|k: int|
                    0 <= k < h.sections.len() ==> #[trigger] h.sections[k].virtual_address
                        + h.sections[k].virtual_size <= size
                &&& size > 0 ==> exists|k: int|
                    0 <= k < h.sections.len() && #[trigger] h.sections[k].virtual_address
                        + h.sections[k].virtual_size == size
                &&& size >= 0
            }
        }),
{
    lemma_far(h.sections);
    if h.size_of_image is None || h.size_of_image == Some(0u32) {
        assert forall|k: int| 0 <= k < h.sections.len() implies #[trigger]
            h.sections[k].virtual_address + h.sections[k].virtual_size <= image_extent(h) by {
            law_sections_end_inside(h, k);
        }
    }
}

/// Every byte that a section has in the file stands in the image at its place, as far as image and
/// file reach, unless a later section brings another one there.
pub proof fn law_section_bytes_stand_in_the_image(
    h: HeadersView,
    bytes: Seq<u8>,
    digest: Seq<u8>,
    j: int,
    k: int,
)
    requires
        0 <= j < h.sections.len(),
        0 <= k < h.sections[j].virtual_size,
        k < h.sections[j].size_of_raw_data,
        h.sections[j].virtual_address + k < image_of(h, bytes, digest).image_size,
        h.sections[j].pointer_to_raw_data + k < bytes.len(),
        forall|m: int|
            j < m < h.sections.len() ==> !brings(
                bytes,
                #[trigger] h.sections[m],
                h.sections[j].virtual_address + k,
            ),
    ensures
        image_of(h, bytes, digest).reconstructed[h.sections[j].virtual_address + k]
            == bytes[h.sections[j].pointer_to_raw_data + k],
{
    let size = image_extent(h);
    let x = h.sections[j].virtual_address + k;
    lemma_covers(bytes, h.sections[j], size, x);
    assert forall|m: int| j < m < h.sections.len() implies !covers(
        bytes,
        #[trigger] h.sections[m],
        size,
        x,
    ) by {
        lemma_covers(bytes, h.sections[m], size, x);
    }
    law_last_section_wins(bytes, h.sections, size as nat, j, x);
}

/// What no section brings is zero.
pub proof fn law_rest_of_the_image_is_zero(
    h: HeadersView,
    bytes: Seq<u8>,
    digest: Seq<u8>,
    x: int,
)
    requires
        0 <= x < image_of(h, bytes, digest).image_size,
        forall|m: int| 0 <= m < h.sections.len() ==> !brings(bytes, #[trigger] h.sections[m], x),
    ensures
        image_of(h, bytes, digest).reconstructed[x] == 0,
{
    let size = image_extent(h);
    assert forall|m: int| 0 <= m < h.sections.len() implies !covers(
        bytes,
        #[trigger] h.sections[m],
        size,
        x,
    ) by {
        lemma_covers(bytes, h.sections[m], size, x);
    }
    law_gaps_are_zero(bytes, h.sections, size as nat, x);
}

/// The image names its base, the size of its file and its sections as the headers do, one for one;
/// a section is executable or readable by the bits 29 and 30 of its flags.
pub proof fn law_image_keeps_the_headers(h: HeadersView, bytes: Seq<u8>, digest: Seq<u8>, k: int)
    requires
        0 <= k < h.sections.len(),
    ensures
        ({
            let image = image_of(h, bytes, digest);
            let s = image.sections[k];
            let c = h.sections[k].characteristics;
            &&& image.image_base == h.image_base
            &&& image.file_size == bytes.len()
            &&& image.sections.len() == h.sections.len()
            &&& s.virtual_address == h.sections[k].virtual_address
            &&& s.virtual_size == h.sections[k].virtual_size
            &&& s.raw_pointer == h.sections[k].pointer_to_raw_data
            &&& s.raw_size == h.sections[k].size_of_raw_data
            &&& s.executable == ((c / 0x2000_0000) % 2 == 1)
            &&& s.readable == ((c / 0x4000_0000) % 2 == 1)
        }),
{
    let c = h.sections[k].characteristics;
    assert((c & 0x2000_0000 != 0) == ((c / 0x2000_0000) % 2 == 1)) by (bit_vector);
    assert((c & 0x4000_0000 != 0) == ((c / 0x4000_0000) % 2 == 1)) by (bit_vector);
}

/// So many zero characters.
pub open spec fn nuls(n: nat) -> Seq<char> {
    Seq::new(n, |i: int| '\0')
}

/// The name of a section is the text that its bytes hold without the zeros behind it.
pub proof fn law_section_name_loses_its_zeros(
    h: HeadersView,
    bytes: Seq<u8>,
    digest: Seq<u8>,
    k: int,
    name: Seq<char>,
    zeros: nat,
)
    requires
        0 <= k < h.sections.len(),
        utf8_lossy(h.sections[k].name) == name + nuls(zeros),
        name.len() > 0 ==> name.last() as u32 != 0,
    ensures
        image_of(h, bytes, digest).sections[k].name == name,
{
    law_zeros_are_taken_off(name, zeros);
}

/// All the zeros at the end of a text are taken off, and nothing else.
pub proof fn law_zeros_are_taken_off(name: Seq<char>, zeros: nat)
    requires
        name.len() > 0 ==> name.last() as u32 != 0,
    ensures
        without_nuls(name + nuls(zeros)) == name,
    decreases zeros,
{
    let s = name + nuls(zeros);
    if zeros > 0 {
        let fewer = (zeros - 1) as nat;
        law_zeros_are_taken_off(name, fewer);
        assert(s.drop_last() =~= name + nuls(fewer));
        assert(s.last() == '\0');
        assert(without_nuls(s) == without_nuls(s.drop_last()));
    } else {
        assert(s =~= name);
    }
}

/// The digest is shown byte by byte, with two hexadecimal digits for each.
pub proof fn law_digest_is_shown(h: HeadersView, bytes: Seq<u8>, digest: Seq<u8>, i: int)
    requires
        0 <= i < digest.len(),
    ensures
        image_of(h, bytes, digest).sha256.len() == 2 * digest.len(),
        value_in(image_of(h, bytes, digest).sha256.subrange(2 * i, 2 * i + 2), 16) == digest[i],
{
    law_hex_reads_back(digest, i);
}

} // verus!
