//! What holds of the URL strings that are found and of their replacements.
use crate::offsets::{
    is_wide, original_of, padded, padded_units, replacement_bytes, url_action, ActionView, UrlEntry,
};
use crate::scan_urls::{
    after_scheme, ascii_text, ascii_urls, authority_end, byte_len, encoding_name, host_part,
    is_excluded, is_local, is_url_byte, known_replacement, known_url, lemma_marker_bytes,
    lemma_run_end, lemma_wide_marker_units, lemma_wide_run_end, marker_at, parsed_url,
    replacement_of, run_end, stands_alone, unit_at, url_entries, url_entry, wide_marker_at,
    wide_run_end, wide_stands_alone, wide_text, wide_urls, UrlView, HTTP, HTTPS, HTTPS_WIDE,
    HTTP_WIDE, MAX_URL_BYTES,
};
use crate::search::occurs_at;
use crate::text::lowercase;
use crate::utf16::{lemma_narrow_units, units_bytes, utf16_bytes, utf16_units};
use vstd::prelude::*;
use vstd::utf8::{encode_utf8, is_ascii_chars, is_ascii_chars_encode_utf8};

verus! {

/// The bytes of a text in one of the two encodings.
pub open spec fn text_bytes(wide: bool, text: Seq<char>) -> Seq<u8> {
    if wide {
        utf16_bytes(text)
    } else {
        encode_utf8(text)
    }
}

/// Whether a text stands in the image at `rva`, byte by byte.
pub open spec fn text_at(image: Seq<u8>, wide: bool, rva: int, text: Seq<char>) -> bool {
    occurs_at(image, text_bytes(wide, text), rva)
}

/// What holds of a string that is found: it stands where it is said to stand, it is ASCII, it
/// begins with a scheme and takes at most 512 bytes.
pub open spec fn well_found(image: Seq<u8>, wide: bool, found: (int, Seq<char>)) -> bool {
    &&& text_at(image, wide, found.0, found.1)
    &&& is_ascii_chars(found.1)
    &&& after_scheme(found.1) is Some
    &&& 8 <= found.1.len()
    &&& text_bytes(wide, found.1).len() == byte_len(wide, found.1) <= MAX_URL_BYTES
}

/// The strings that are found in one of the two encodings.
pub open spec fn found_urls(image: Seq<u8>, wide: bool) -> Seq<(int, Seq<char>)> {
    if wide {
        wide_urls(image, 0)
    } else {
        ascii_urls(image, 0)
    }
}

proof fn lemma_ascii_bytes(text: Seq<char>)
    requires
        is_ascii_chars(text),
    ensures
        encode_utf8(text) == Seq::new(text.len(), |i: int| text[i] as u8),
{
    is_ascii_chars_encode_utf8(text);
    assert(encode_utf8(text) =~= Seq::new(text.len(), |i: int| text[i] as u8));
}

proof fn lemma_ascii_wide_bytes(text: Seq<char>)
    requires
        is_ascii_chars(text),
    ensures
        utf16_bytes(text) == Seq::new(
            2 * text.len(),
            |i: int|
                if i % 2 == 0 {
                    text[i / 2] as u8
                } else {
                    0u8
                },
        ),
{
    lemma_narrow_units(text);
    let units = utf16_units(text);
    assert forall|i: int| 0 <= i < 2 * text.len() implies #[trigger] units_bytes(units)[i] == (if i
        % 2 == 0 {
        text[i / 2] as u8
    } else {
        0u8
    }) by {
        assert(units[i / 2] == text[i / 2] as u16);
        assert('\0' <= text[i / 2] <= '\u{7f}');
    }
    assert(utf16_bytes(text) =~= Seq::new(
        2 * text.len(),
        |i: int|
            if i % 2 == 0 {
                text[i / 2] as u8
            } else {
                0u8
            },
    ));
}

proof fn lemma_scheme(text: Seq<char>)
    requires
        text.len() >= 8,
        (forall|k: int| 0 <= k < 7 ==> text[k] as int == #[trigger] HTTP@[k]) || (forall|k: int|
            0 <= k < 8 ==> text[k] as int == #[trigger] HTTPS@[k]),
    ensures
        after_scheme(text) is Some,
{
    reveal_strlit("http://");
    reveal_strlit("https://");
    if forall|k: int| 0 <= k < 7 ==> text[k] as int == #[trigger] HTTP@[k] {
        assert(HTTP@[0] == 0x68 && HTTP@[1] == 0x74 && HTTP@[2] == 0x74 && HTTP@[3] == 0x70
            && HTTP@[4] == 0x3a && HTTP@[5] == 0x2f && HTTP@[6] == 0x2f);
        assert("http://"@ =~= text.subrange(0, 7));
        assert("http://"@.is_prefix_of(text));
    } else {
        assert(HTTPS@[0] == 0x68 && HTTPS@[1] == 0x74 && HTTPS@[2] == 0x74 && HTTPS@[3] == 0x70
            && HTTPS@[4] == 0x73 && HTTPS@[5] == 0x3a && HTTPS@[6] == 0x2f && HTTPS@[7] == 0x2f);
        assert("https://"@ =~= text.subrange(0, 8));
        assert("https://"@.is_prefix_of(text));
    }
}

proof fn lemma_ascii_found(image: Seq<u8>, i: int, end: int)
    requires
        0 <= i,
        i + 8 <= image.len(),
        marker_at(image, i) != 0,
        end == run_end(image, i + marker_at(image, i)),
        8 <= end - i <= MAX_URL_BYTES,
    ensures
        well_found(image, false, (i, ascii_text(image, i, end))),
        end <= image.len(),
{
    let m = marker_at(image, i);
    lemma_run_end(image, i + m);
    let text = ascii_text(image, i, end);
    assert forall|k: int| 0 <= k < m implies text[k] as int == image.subrange(i, i + m)[k] by {
        assert(image.subrange(i, i + m)[k] == image[i + k]);
    }
    assert forall|k: int| 0 <= k < text.len() implies '\0' <= #[trigger] text[k] <= '\u{7f}' by {
        if k < m {
            assert(image.subrange(i, i + m)[k] == image[i + k]);
        } else {
            assert(is_url_byte(image[i + k] as int));
        }
    }
    lemma_ascii_bytes(text);
    assert(image.subrange(i, i + text.len()) =~= encode_utf8(text));
    lemma_scheme(text);
}

proof fn lemma_wide_found(image: Seq<u8>, i: int, end: int)
    requires
        0 <= i,
        i + 8 <= image.len(),
        wide_marker_at(image, i) != 0,
        end == wide_run_end(image, i + wide_marker_at(image, i)),
        16 <= end - i <= MAX_URL_BYTES,
    ensures
        well_found(image, true, (i, wide_text(image, i, end))),
        end <= image.len(),
        (end - i) % 2 == 0,
{
    let m = wide_marker_at(image, i);
    lemma_wide_run_end(image, i + m);
    let text = wide_text(image, i, end);
    assert forall|k: int| 0 <= k && 2 * k < m implies text[k] as int == image.subrange(i, i + m)[2
        * k] && image[i + 2 * k + 1] == 0 && image[i + 2 * k] <= 0x7e by {
        assert(image.subrange(i, i + m)[2 * k] == image[i + 2 * k]);
        assert(image.subrange(i, i + m)[2 * k + 1] == image[i + 2 * k + 1]);
        assert(unit_at(image, i + 2 * k) == image[i + 2 * k]);
    }
    assert forall|k: int| 0 <= k < text.len() implies 0 <= #[trigger] unit_at(image, i + 2 * k)
        <= 0x7e && image[i + 2 * k + 1] == 0 && text[k] as u8 == image[i + 2 * k] by {
        if 2 * k < m {
            assert(image.subrange(i, i + m)[2 * k] == image[i + 2 * k]);
        } else {
            assert(unit_at(image, i + m + 2 * (k - m / 2)) == unit_at(image, i + 2 * k));
            assert(is_url_byte(unit_at(image, i + 2 * k)));
        }
    }
    assert forall|k: int| 0 <= k < text.len() implies '\0' <= #[trigger] text[k] <= '\u{7f}' by {
        assert(0 <= unit_at(image, i + 2 * k) <= 0x7e);
    }
    lemma_ascii_wide_bytes(text);
    assert forall|j: int| 0 <= j < 2 * text.len() implies image.subrange(i, end)[j]
        == #[trigger] utf16_bytes(text)[j] by {
        assert(unit_at(image, i + 2 * (j / 2)) <= 0x7e);
        assert(j == 2 * (j / 2) || j == 2 * (j / 2) + 1);
    }
    assert(image.subrange(i, i + 2 * text.len()) =~= utf16_bytes(text));
    if m == 14 {
        assert forall|k: int| 0 <= k < 7 implies text[k] as int == #[trigger] HTTP@[k] by {
            assert(image.subrange(i, i + m)[2 * k] == HTTP_WIDE@[2 * k]);
            assert(HTTP_WIDE@[2 * k] == HTTP@[k]);
        }
    } else {
        assert forall|k: int| 0 <= k < 8 implies text[k] as int == #[trigger] HTTPS@[k] by {
            assert(image.subrange(i, i + m)[2 * k] == HTTPS_WIDE@[2 * k]);
            assert(HTTPS_WIDE@[2 * k] == HTTPS@[k]);
        }
    }
    lemma_scheme(text);
}

proof fn lemma_ascii_urls(image: Seq<u8>, i: int, k: int)
    requires
        0 <= i,
        0 <= k < ascii_urls(image, i).len(),
    ensures
        well_found(image, false, ascii_urls(image, i)[k]),
        i <= ascii_urls(image, i)[k].0,
        k + 1 < ascii_urls(image, i).len() ==> ascii_urls(image, i)[k].0 + ascii_urls(
            image,
            i,
        )[k].1.len() <= ascii_urls(image, i)[k + 1].0,
    decreases image.len() - i,
{
    let m = marker_at(image, i);
    if m == 0 {
        lemma_ascii_urls(image, i + 1, k);
    } else {
        let end = run_end(image, i + m);
        lemma_run_end(image, i + m);
        let rest = ascii_urls(image, end);
        if stands_alone(image, i, end) && 8 <= end - i <= MAX_URL_BYTES {
            lemma_ascii_found(image, i, end);
            if k > 0 {
                lemma_ascii_urls(image, end, k - 1);
            } else if rest.len() > 0 {
                lemma_ascii_urls(image, end, 0);
            }
        } else {
            lemma_ascii_urls(image, end, k);
        }
    }
}

proof fn lemma_wide_urls(image: Seq<u8>, i: int, k: int)
    requires
        0 <= i,
        0 <= k < wide_urls(image, i).len(),
    ensures
        well_found(image, true, wide_urls(image, i)[k]),
        i <= wide_urls(image, i)[k].0,
        k + 1 < wide_urls(image, i).len() ==> wide_urls(image, i)[k].0 + 2 * wide_urls(
            image,
            i,
        )[k].1.len() <= wide_urls(image, i)[k + 1].0,
    decreases image.len() - i,
{
    let m = wide_marker_at(image, i);
    if m == 0 {
        lemma_wide_urls(image, i + 2, k);
    } else {
        let end = wide_run_end(image, i + m);
        lemma_wide_run_end(image, i + m);
        let rest = wide_urls(image, end);
        if wide_stands_alone(image, i, end) && 16 <= end - i <= MAX_URL_BYTES {
            lemma_wide_found(image, i, end);
            if k > 0 {
                lemma_wide_urls(image, end, k - 1);
            } else if rest.len() > 0 {
                lemma_wide_urls(image, end, 0);
            }
        } else {
            lemma_wide_urls(image, end, k);
        }
    }
}

/// Every string that is found stands in the image where it is said to stand, is ASCII, begins
/// with a scheme and takes at most 512 bytes; and the next one begins behind its end.
pub proof fn law_found_where_it_stands(image: Seq<u8>, wide: bool, k: int)
    requires
        0 <= k < found_urls(image, wide).len(),
    ensures
        well_found(image, wide, found_urls(image, wide)[k]),
        k + 1 < found_urls(image, wide).len() ==> found_urls(image, wide)[k].0 + byte_len(
            wide,
            found_urls(image, wide)[k].1,
        ) <= found_urls(image, wide)[k + 1].0,
{
    if wide {
        lemma_wide_urls(image, 0, k);
    } else {
        lemma_ascii_urls(image, 0, k);
    }
}

/// The entries of the strings that are found in one of the two encodings.
pub open spec fn entries_of(image: Seq<u8>, wide: bool) -> Seq<UrlView> {
    url_entries(found_urls(image, wide), wide)
}

/// The string that an entry is made from.
proof fn lemma_entry_source(found: Seq<(int, Seq<char>)>, wide: bool, k: int) -> (j: int)
    requires
        0 <= k < url_entries(found, wide).len(),
    ensures
        0 <= j < found.len(),
        url_entry(found[j].0, wide, found[j].1) == Some(url_entries(found, wide)[k]),
    decreases found.len(),
{
    let before = url_entries(found.drop_last(), wide);
    if k < before.len() {
        lemma_entry_source(found.drop_last(), wide, k)
    } else {
        found.len() - 1
    }
}

proof fn lemma_entries_ascend(found: Seq<(int, Seq<char>)>, wide: bool, a: int, b: int)
    requires
        0 <= a < b < url_entries(found, wide).len(),
        forall|i: int, j: int|
            0 <= i < j < found.len() ==> #[trigger] found[i].0 < #[trigger] found[j].0,
    ensures
        url_entries(found, wide)[a].rva < url_entries(found, wide)[b].rva,
    decreases found.len(),
{
    let front = found.drop_last();
    let before = url_entries(front, wide);
    if b < before.len() {
        lemma_entries_ascend(front, wide, a, b);
    } else {
        let j = lemma_entry_source(front, wide, a);
        assert(found[j].0 < found[found.len() - 1].0);
    }
}

proof fn lemma_found_ascend(image: Seq<u8>, wide: bool, i: int, j: int)
    requires
        0 <= i < j < found_urls(image, wide).len(),
    ensures
        found_urls(image, wide)[i].0 < found_urls(image, wide)[j].0,
    decreases j - i,
{
    law_found_where_it_stands(image, wide, i);
    if i + 1 < j {
        lemma_found_ascend(image, wide, i + 1, j);
    }
}

/// The entries come in the order in which their strings stand, no two at one place.
pub proof fn law_entries_ascend(image: Seq<u8>, wide: bool, a: int, b: int)
    requires
        0 <= a < b < entries_of(image, wide).len(),
    ensures
        entries_of(image, wide)[a].rva < entries_of(image, wide)[b].rva,
{
    let found = found_urls(image, wide);
    assert forall|i: int, j: int| 0 <= i < j < found.len() implies #[trigger] found[i].0
        < #[trigger] found[j].0 by {
        lemma_found_ascend(image, wide, i, j);
    }
    lemma_entries_ascend(found, wide, a, b);
}

/// An entry holds the string that stands at its place, its encoding and the bytes that it takes
/// there; and it gives a reason exactly where it is skipped.
pub proof fn law_entry_is_what_stands_there(image: Seq<u8>, wide: bool, k: int)
    requires
        0 <= k < entries_of(image, wide).len(),
    ensures
        text_at(image, wide, entries_of(image, wide)[k].rva, entries_of(image, wide)[k].original),
        entries_of(image, wide)[k].length == text_bytes(
            wide,
            entries_of(image, wide)[k].original,
        ).len(),
        entries_of(image, wide)[k].encoding == encoding_name(wide),
        entries_of(image, wide)[k].skipped == entries_of(image, wide)[k].reason is Some,
        is_ascii_chars(entries_of(image, wide)[k].original),
{
    let j = lemma_entry_source(found_urls(image, wide), wide, k);
    law_found_where_it_stands(image, wide, j);
}

proof fn lemma_authority_end(rest: Seq<char>, from: int)
    requires
        0 <= from <= rest.len(),
    ensures
        from <= authority_end(rest, from) <= rest.len(),
    decreases rest.len() - from,
{
    if from < rest.len() && authority_end(rest, from) != from {
        lemma_authority_end(rest, from + 1);
    }
}

proof fn lemma_replacement(url: Seq<char>)
    requires
        replacement_of(url) is Some,
        is_ascii_chars(url),
    ensures
        replacement_of(url) matches Some((text, _, _)) ==> "http://localhost"@.is_prefix_of(text)
            && is_ascii_chars(text),
{
    reveal_strlit("http://localhost");
    let local = "http://localhost"@;
    if url == known_url() {
        reveal_strlit("http://localhost/Data/Upload.ashx?a=%1&b=%2");
        assert(local =~= known_replacement().subrange(0, local.len() as int));
    } else {
        let rest = after_scheme(url)->0;
        lemma_authority_end(rest, 0);
        let after = rest.skip(authority_end(rest, 0));
        assert(local =~= (local + after).subrange(0, local.len() as int));
        assert forall|i: int| 0 <= i < (local + after).len() implies '\0' <= #[trigger] (local
            + after)[i] <= '\u{7f}' by {
            if i >= local.len() {
                let d = url.len() - after.len();
                assert(after[i - local.len()] == url[d + (i - local.len())]);
            }
        }
    }
}

/// The replacement of an entry that is not skipped leads to this machine, is ASCII and takes no
/// more bytes than the original.
pub proof fn law_replacement_is_local_and_fits(image: Seq<u8>, wide: bool, k: int)
    requires
        0 <= k < entries_of(image, wide).len(),
        !entries_of(image, wide)[k].skipped,
    ensures
        "http://localhost"@.is_prefix_of(entries_of(image, wide)[k].replacement),
        is_ascii_chars(entries_of(image, wide)[k].replacement),
        text_bytes(wide, entries_of(image, wide)[k].replacement).len() <= entries_of(
            image,
            wide,
        )[k].length,
{
    let j = lemma_entry_source(found_urls(image, wide), wide, k);
    law_found_where_it_stands(image, wide, j);
    let e = entries_of(image, wide)[k];
    lemma_replacement(e.original);
    lemma_ascii_bytes(e.replacement);
    lemma_ascii_wide_bytes(e.replacement);
}

/// The replacement of an entry that is not skipped keeps everything behind the authority, and
/// the host that it leaves is neither local nor excluded and holds no placeholder; the one known
/// URL has its own replacement.
pub proof fn law_replacement_keeps_the_path(image: Seq<u8>, wide: bool, k: int)
    requires
        0 <= k < entries_of(image, wide).len(),
        !entries_of(image, wide)[k].skipped,
        entries_of(image, wide)[k].original != known_url(),
    ensures
        ({
            let e = entries_of(image, wide)[k];
            &&& parsed_url(e.original) matches Some((authority, rest))
            &&& e.replacement == "http://localhost"@ + rest
            &&& e.host == lowercase(host_part(authority))
            &&& authority.len() > 0
            &&& !authority.contains('%')
            &&& !is_local(authority, e.host)
            &&& !is_excluded(lowercase(e.host))
        }),
{
    let j = lemma_entry_source(found_urls(image, wide), wide, k);
}

/// Whether an entry of the offsets holds what the scanner wrote down.
pub open spec fn carries(u: UrlEntry, e: UrlView) -> bool {
    &&& u.rva == e.rva
    &&& u.encoding@ == e.encoding
    &&& u.length == e.length
    &&& u.original@ == e.original
    &&& u.replacement@ == e.replacement
    &&& u.skipped == e.skipped
}

/// On the image that was scanned every entry that is not skipped is patched: what stands at its
/// place is what it asks for, and what is written there is as long, the whole replacement with
/// zeros behind it.
pub proof fn law_scanned_urls_are_patched(image: Seq<u8>, wide: bool, k: int, u: UrlEntry)
    requires
        0 <= k < entries_of(image, wide).len(),
        !entries_of(image, wide)[k].skipped,
        carries(u, entries_of(image, wide)[k]),
    ensures
        ({
            let e = entries_of(image, wide)[k];
            let new = text_bytes(wide, e.replacement);
            &&& occurs_at(image, original_of(u), e.rva)
            &&& original_of(u).len() == e.length
            &&& url_action(u, image.subrange(e.rva, e.rva + e.length)) matches ActionView::Write(
                at,
                bytes,
                _,
                _,
            )
            &&& at == e.rva
            &&& bytes.len() == e.length
            &&& bytes == new + Seq::new((e.length - new.len()) as nat, |i: int| 0u8)
        }),
{
    let e = entries_of(image, wide)[k];
    law_entry_is_what_stands_there(image, wide, k);
    law_replacement_is_local_and_fits(image, wide, k);
    reveal_strlit("utf16");
    reveal_strlit("ascii");
    assert("utf16"@[0] != "ascii"@[0]);
    assert(is_wide(u) == wide);
    let new = text_bytes(wide, e.replacement);
    lemma_ascii_bytes(e.original);
    lemma_ascii_wide_bytes(e.original);
    lemma_ascii_bytes(e.replacement);
    lemma_ascii_wide_bytes(e.replacement);
    let want = new + Seq::new((e.length - new.len()) as nat, |i: int| 0u8);
    if wide {
        lemma_narrow_units(e.replacement);
        assert(padded_units(utf16_units(e.replacement), e.length as nat) =~= want);
    } else {
        assert(padded(encode_utf8(e.replacement), e.length as nat) =~= want);
    }
    assert(replacement_bytes(u) == want);
}

proof fn lemma_ascii_reached(image: Seq<u8>, j: int, i: int)
    requires
        0 <= j <= i,
        i + 8 <= image.len(),
        marker_at(image, i) != 0,
        i == 0 || !is_url_byte(image[i - 1] as int),
        ({
            let end = run_end(image, i + marker_at(image, i));
            stands_alone(image, i, end) && 8 <= end - i <= MAX_URL_BYTES
        }),
    ensures
        ascii_urls(image, j).contains(
            (i, ascii_text(image, i, run_end(image, i + marker_at(image, i)))),
        ),
    decreases i - j,
{
    let m = marker_at(image, j);
    let all = ascii_urls(image, j);
    if j == i {
        assert(all[0] == (i, ascii_text(image, i, run_end(image, i + marker_at(image, i)))));
    } else if m == 0 {
        lemma_ascii_reached(image, j + 1, i);
    } else {
        let end = run_end(image, j + m);
        lemma_run_end(image, j + m);
        lemma_marker_bytes(image, j);
        assert(end <= i) by {
            if end > i {
                assert(is_url_byte(image[i - 1] as int));
            }
        }
        lemma_ascii_reached(image, end, i);
        let rest = ascii_urls(image, end);
        let want = (i, ascii_text(image, i, run_end(image, i + marker_at(image, i))));
        let k = choose|k: int| 0 <= k < rest.len() && rest[k] == want;
        if stands_alone(image, j, end) && 8 <= end - j <= MAX_URL_BYTES {
            assert(all[k + 1] == want);
        } else {
            assert(all[k] == want);
        }
    }
}

/// Every ASCII URL string of its own is found: a scheme before which no URL byte stands, with
/// nothing printable before the string or a zero byte behind it, of at least 8 and at most 512
/// bytes.
pub proof fn law_standing_urls_are_found(image: Seq<u8>, i: int)
    requires
        0 <= i,
        i + 8 <= image.len(),
        marker_at(image, i) != 0,
        i == 0 || !is_url_byte(image[i - 1] as int),
        ({
            let end = run_end(image, i + marker_at(image, i));
            stands_alone(image, i, end) && 8 <= end - i <= MAX_URL_BYTES
        }),
    ensures
        found_urls(image, false).contains(
            (i, ascii_text(image, i, run_end(image, i + marker_at(image, i)))),
        ),
{
    lemma_ascii_reached(image, 0, i);
}

proof fn lemma_wide_reached(image: Seq<u8>, j: int, i: int)
    requires
        0 <= j <= i,
        (i - j) % 2 == 0,
        i + 8 <= image.len(),
        wide_marker_at(image, i) != 0,
        i < 2 || !is_url_byte(unit_at(image, i - 2)),
        ({
            let end = wide_run_end(image, i + wide_marker_at(image, i));
            wide_stands_alone(image, i, end) && 16 <= end - i <= MAX_URL_BYTES
        }),
    ensures
        wide_urls(image, j).contains(
            (i, wide_text(image, i, wide_run_end(image, i + wide_marker_at(image, i)))),
        ),
    decreases i - j,
{
    let m = wide_marker_at(image, j);
    let all = wide_urls(image, j);
    let want = (i, wide_text(image, i, wide_run_end(image, i + wide_marker_at(image, i))));
    if j == i {
        assert(all[0] == want);
    } else if m == 0 {
        lemma_wide_reached(image, j + 2, i);
    } else {
        let end = wide_run_end(image, j + m);
        lemma_wide_run_end(image, j + m);
        lemma_wide_marker_units(image, j);
        assert(end <= i) by {
            if end > i {
                let k = (i - 2 - j) / 2;
                assert(i - 2 == j + 2 * k);
                if 2 * k < m {
                    assert(is_url_byte(unit_at(image, j + 2 * k)));
                } else {
                    assert(unit_at(image, j + m + 2 * (k - m / 2)) == unit_at(image, i - 2));
                }
            }
        }
        lemma_wide_reached(image, end, i);
        let rest = wide_urls(image, end);
        let k = choose|k: int| 0 <= k < rest.len() && rest[k] == want;
        if wide_stands_alone(image, j, end) && 16 <= end - j <= MAX_URL_BYTES {
            assert(all[k + 1] == want);
        } else {
            assert(all[k] == want);
        }
    }
}

/// Every UTF-16 URL string of its own at an even offset is found: a scheme before which no URL
/// unit stands, with no printable unit before the string or a zero unit behind it, of at least 8
/// units and at most 512 bytes.
pub proof fn law_standing_wide_urls_are_found(image: Seq<u8>, i: int)
    requires
        0 <= i,
        i % 2 == 0,
        i + 8 <= image.len(),
        wide_marker_at(image, i) != 0,
        i < 2 || !is_url_byte(unit_at(image, i - 2)),
        ({
            let end = wide_run_end(image, i + wide_marker_at(image, i));
            wide_stands_alone(image, i, end) && 16 <= end - i <= MAX_URL_BYTES
        }),
    ensures
        found_urls(image, true).contains(
            (i, wide_text(image, i, wide_run_end(image, i + wide_marker_at(image, i)))),
        ),
{
    lemma_wide_reached(image, 0, i);
}

/// Every string that is found and is not local already has its entry.
pub proof fn law_found_urls_have_entries(found: Seq<(int, Seq<char>)>, wide: bool, j: int)
    requires
        0 <= j < found.len(),
        url_entry(found[j].0, wide, found[j].1) is Some,
    ensures
        url_entries(found, wide).contains(url_entry(found[j].0, wide, found[j].1)->0),
    decreases found.len(),
{
    let front = found.drop_last();
    let before = url_entries(front, wide);
    let all = url_entries(found, wide);
    let want = url_entry(found[j].0, wide, found[j].1)->0;
    if j < front.len() {
        law_found_urls_have_entries(front, wide, j);
        let k = choose|k: int| 0 <= k < before.len() && before[k] == want;
        assert(all[k] == want);
    } else {
        assert(all[all.len() - 1] == want);
    }
}

} // verus!
