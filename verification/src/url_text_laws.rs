//! Which URL strings are found and what becomes of them, stated on bytes and characters.
use crate::scan_urls::{
    ascii_text, ascii_urls, is_url_byte, lemma_marker_bytes, lemma_wide_marker_units, marker_at,
    run_end, stands_alone, unit_at, wide_marker_at, wide_run_end, wide_stands_alone, wide_text,
    wide_urls, HTTP, HTTPS, HTTPS_WIDE, HTTP_WIDE,
};
use crate::search::occurs_at;
use crate::url_laws::found_urls;
use vstd::prelude::*;

verus! {

/// Whether a byte may stand in a URL string: printable ASCII without the space, the quotation
/// marks and the angle brackets.
pub open spec fn url_byte(b: int) -> bool {
    0x21 <= b <= 0x7e && b != '"' as int && b != '\'' as int && b != '<' as int && b != '>' as int
}

/// Whether `http://` or `https://` stands at `i`.
pub open spec fn scheme_stands(image: Seq<u8>, i: int) -> bool {
    &&& 0 <= i && i + 7 <= image.len()
    &&& image[i] == 'h' as int && image[i + 1] == 't' as int && image[i + 2] == 't' as int
        && image[i + 3] == 'p' as int
    &&& (image[i + 4] == ':' as int && image[i + 5] == '/' as int && image[i + 6] == '/' as int)
        || (i + 8 <= image.len() && image[i + 4] == 's' as int && image[i + 5] == ':' as int
        && image[i + 6] == '/' as int && image[i + 7] == '/' as int)
}

/// Whether all bytes from `a` to `b` may stand in a URL string.
pub open spec fn all_url_bytes(image: Seq<u8>, a: int, b: int) -> bool {
    forall|k: int| a <= k < b ==> url_byte(#[trigger] image[k] as int)
}

/// Whether the bytes from `i` to `end` are a URL string of their own: they begin with a scheme, go
/// on as far as URL bytes go, are at least 8 and at most 512, follow nothing printable or are
/// followed by a zero, and no scheme before them runs into them.
pub open spec fn url_stands(image: Seq<u8>, i: int, end: int) -> bool {
    &&& scheme_stands(image, i)
    &&& i + 8 <= end <= i + 512
    &&& end <= image.len()
    &&& all_url_bytes(image, i, end)
    &&& end == image.len() || !url_byte(image[end] as int)
    &&& i == 0 || !(0x21 <= image[i - 1] <= 0x7e) || (end < image.len() && image[end] == 0)
    &&& forall|j: int|
        0 <= j < i && #[trigger] scheme_stands(image, j) ==> !all_url_bytes(image, j, i)
}

/// The characters of the bytes from `i` to `end`.
pub open spec fn chars_of(image: Seq<u8>, i: int, end: int) -> Seq<char> {
    Seq::new((end - i) as nat, |k: int| image[i + k] as char)
}

proof fn lemma_marker(image: Seq<u8>, i: int)
    requires
        0 <= i,
        i + 8 <= image.len(),
    ensures
        marker_at(image, i) != 0 <==> scheme_stands(image, i),
        marker_at(image, i) == 0 || marker_at(image, i) == 7 || marker_at(image, i) == 8,
        scheme_stands(image, i) ==> all_url_bytes(image, i, i + marker_at(image, i)),
{
    assert(HTTP@[0] == 0x68 && HTTP@[1] == 0x74 && HTTP@[2] == 0x74 && HTTP@[3] == 0x70 && HTTP@[4]
        == 0x3a && HTTP@[5] == 0x2f && HTTP@[6] == 0x2f);
    assert(HTTPS@[0] == 0x68 && HTTPS@[1] == 0x74 && HTTPS@[2] == 0x74 && HTTPS@[3] == 0x70
        && HTTPS@[4] == 0x73 && HTTPS@[5] == 0x3a && HTTPS@[6] == 0x2f && HTTPS@[7] == 0x2f);
    let a = image.subrange(i, i + 7);
    let b = image.subrange(i, i + 8);
    assert(a[0] == image[i] && a[1] == image[i + 1] && a[2] == image[i + 2] && a[3] == image[i + 3]
        && a[4] == image[i + 4] && a[5] == image[i + 5] && a[6] == image[i + 6]);
    assert(b[0] == image[i] && b[1] == image[i + 1] && b[2] == image[i + 2] && b[3] == image[i + 3]
        && b[4] == image[i + 4] && b[5] == image[i + 5] && b[6] == image[i + 6] && b[7] == image[i
        + 7]);
    if scheme_stands(image, i) {
        if image[i + 4] == 0x3a {
            assert(a =~= HTTP@);
        } else {
            assert(b =~= HTTPS@);
        }
    }
    lemma_marker_bytes(image, i);
    if marker_at(image, i) != 0 {
        assert forall|k: int| i <= k < i + marker_at(image, i) implies url_byte(
            #[trigger] image[k] as int,
        ) by {
            assert(is_url_byte(image[k] as int));
        }
    }
}

proof fn lemma_run(image: Seq<u8>, from: int)
    requires
        0 <= from <= image.len(),
    ensures
        from <= run_end(image, from) <= image.len(),
        all_url_bytes(image, from, run_end(image, from)),
        run_end(image, from) == image.len() || !url_byte(image[run_end(image, from)] as int),
    decreases image.len() - from,
{
    if from < image.len() && is_url_byte(image[from] as int) {
        lemma_run(image, from + 1);
        assert forall|k: int| from <= k < run_end(image, from) implies url_byte(
            #[trigger] image[k] as int,
        ) by {}
    }
}

proof fn lemma_run_is(image: Seq<u8>, from: int, end: int)
    requires
        0 <= from <= end <= image.len(),
        all_url_bytes(image, from, end),
        end == image.len() || !url_byte(image[end] as int),
    ensures
        run_end(image, from) == end,
    decreases end - from,
{
    if from < end {
        assert(url_byte(image[from] as int));
        lemma_run_is(image, from + 1, end);
    }
}

/// What holds while the search stands at `j`: no scheme before `j` runs on over it.
spec fn free_at(image: Seq<u8>, j: int) -> bool {
    forall|a: int| 0 <= a < j && #[trigger] scheme_stands(image, a) ==> !all_url_bytes(image, a, j)
}

proof fn lemma_free_step(image: Seq<u8>, j: int)
    requires
        0 <= j,
        j + 8 <= image.len(),
        free_at(image, j),
    ensures
        marker_at(image, j) == 0 ==> free_at(image, j + 1),
        marker_at(image, j) != 0 ==> {
            let end = run_end(image, j + marker_at(image, j));
            end < image.len() ==> free_at(image, end + 1)
        },
{
    lemma_marker(image, j);
    if marker_at(image, j) == 0 {
        assert forall|a: int| 0 <= a < j + 1 && #[trigger] scheme_stands(
            image,
            a,
        ) implies !all_url_bytes(image, a, j + 1) by {
            if a < j && all_url_bytes(image, a, j + 1) {
                assert(all_url_bytes(image, a, j));
            }
        }
    } else {
        let end = run_end(image, j + marker_at(image, j));
        lemma_run(image, j + marker_at(image, j));
        if end < image.len() {
            assert forall|a: int| 0 <= a < end + 1 && #[trigger] scheme_stands(
                image,
                a,
            ) implies !all_url_bytes(image, a, end + 1) by {
                if all_url_bytes(image, a, end + 1) {
                    assert(url_byte(image[end] as int));
                }
            }
        }
    }
}

/// The search from `j` finds exactly the strings that stand at or behind `j`.
proof fn lemma_found(image: Seq<u8>, j: int, i: int, end: int)
    requires
        0 <= j <= i,
        url_stands(image, i, end),
    ensures
        ascii_urls(image, j).contains((i, chars_of(image, i, end))),
    decreases image.len() - j,
{
    let want = (i, chars_of(image, i, end));
    let all = ascii_urls(image, j);
    lemma_marker(image, j);
    let m = marker_at(image, j);
    if j == i {
        assert(all_url_bytes(image, i + m, end)) by {
            assert forall|k: int| i + m <= k < end implies url_byte(#[trigger] image[k] as int) by {
            }
        }
        lemma_run_is(image, i + m, end);
        assert(ascii_text(image, i, end) =~= chars_of(image, i, end));
        assert(all[0] == want);
    } else if m == 0 {
        lemma_found(image, j + 1, i, end);
    } else {
        let e = run_end(image, j + m);
        lemma_run(image, j + m);
        assert(e <= i) by {
            if e > i {
                assert(all_url_bytes(image, j, i)) by {
                    assert forall|k: int| j <= k < i implies url_byte(
                        #[trigger] image[k] as int,
                    ) by {
                        if k >= j + m {
                        }
                    }
                }
                assert(scheme_stands(image, j));
            }
        }
        lemma_found(image, e, i, end);
        let rest = ascii_urls(image, e);
        let k = choose|k: int| 0 <= k < rest.len() && rest[k] == want;
        if stands_alone(image, j, e) && 8 <= e - j <= 512 {
            assert(all[k + 1] == want);
        } else {
            assert(all[k] == want);
        }
    }
}

/// Every ASCII URL string that stands in the image by itself is found.
pub proof fn law_url_strings_are_found(image: Seq<u8>, i: int, end: int)
    requires
        url_stands(image, i, end),
    ensures
        found_urls(image, false).contains((i, chars_of(image, i, end))),
{
    lemma_found(image, 0, i, end);
}

proof fn lemma_sound(image: Seq<u8>, j: int, k: int)
    requires
        0 <= j <= image.len(),
        j + 8 <= image.len() ==> free_at(image, j),
        0 <= k < ascii_urls(image, j).len(),
    ensures
        ({
            let f = ascii_urls(image, j)[k];
            url_stands(image, f.0, f.0 + f.1.len()) && f.1 == chars_of(
                image,
                f.0,
                f.0 + f.1.len(),
            )
        }),
    decreases image.len() - j,
{
    lemma_marker(image, j);
    let m = marker_at(image, j);
    let all = ascii_urls(image, j);
    lemma_free_step(image, j);
    if m == 0 {
        lemma_sound(image, j + 1, k);
    } else {
        let e = run_end(image, j + m);
        lemma_run(image, j + m);
        let rest = ascii_urls(image, e);
        let here = stands_alone(image, j, e) && 8 <= e - j <= 512;
        if here && k == 0 {
            assert(all[0] == (j, ascii_text(image, j, e)));
            assert(ascii_text(image, j, e) =~= chars_of(image, j, e));
            assert(all_url_bytes(image, j, e)) by {
                assert forall|q: int| j <= q < e implies url_byte(#[trigger] image[q] as int) by {
                    if q >= j + m {
                    }
                }
            }
        } else {
            let r = if here {
                k - 1
            } else {
                k
            };
            assert(all[k] == rest[r]);
            lemma_behind(image, e);
            lemma_sound(image, e + 1, r);
        }
    }
}

/// At a byte that ends a run nothing begins.
proof fn lemma_behind(image: Seq<u8>, e: int)
    requires
        0 <= e <= image.len(),
        e == image.len() || !url_byte(image[e] as int),
    ensures
        ascii_urls(image, e).len() > 0 ==> e < image.len() && ascii_urls(image, e) == ascii_urls(
            image,
            e + 1,
        ),
{
    if e + 8 <= image.len() {
        lemma_marker(image, e);
        if marker_at(image, e) != 0 {
            assert(all_url_bytes(image, e, e + marker_at(image, e)));
            assert(url_byte(image[e] as int));
        }
    }
}

/// Nothing else is found: every ASCII string that is found stands in the image by itself.
pub proof fn law_only_url_strings_are_found(image: Seq<u8>, k: int)
    requires
        0 <= k < found_urls(image, false).len(),
    ensures
        ({
            let f = found_urls(image, false)[k];
            url_stands(image, f.0, f.0 + f.1.len()) && f.1 == chars_of(
                image,
                f.0,
                f.0 + f.1.len(),
            )
        }),
{
    lemma_sound(image, 0, k);
}

/// The sixteen bits at `i`, low byte first.
pub open spec fn bits_at(image: Seq<u8>, i: int) -> int {
    image[i] + 0x100 * image[i + 1]
}

/// Whether `http://` or `https://` stands at `i` in UTF-16.
pub open spec fn wide_scheme_stands(image: Seq<u8>, i: int) -> bool {
    &&& 0 <= i && i + 14 <= image.len()
    &&& bits_at(image, i) == 'h' as int && bits_at(image, i + 2) == 't' as int && bits_at(
        image,
        i + 4,
    ) == 't' as int && bits_at(image, i + 6) == 'p' as int
    &&& (bits_at(image, i + 8) == ':' as int && bits_at(image, i + 10) == '/' as int && bits_at(
        image,
        i + 12,
    ) == '/' as int) || (i + 16 <= image.len() && bits_at(image, i + 8) == 's' as int && bits_at(
        image,
        i + 10,
    ) == ':' as int && bits_at(image, i + 12) == '/' as int && bits_at(image, i + 14) == '/' as int)
}

/// Whether all units from `a` to `b` may stand in a URL string.
pub open spec fn all_url_units(image: Seq<u8>, a: int, b: int) -> bool {
    forall|k: int| 0 <= k && a + 2 * k < b ==> url_byte(#[trigger] bits_at(image, a + 2 * k))
}

/// Whether the bytes from `i` to `end` are a UTF-16 URL string of their own, at an even offset: as
/// for ASCII, with units in place of bytes, of at least 8 units and at most 512 bytes.
pub open spec fn wide_url_stands(image: Seq<u8>, i: int, end: int) -> bool {
    &&& i % 2 == 0 && end % 2 == 0
    &&& wide_scheme_stands(image, i)
    &&& i + 16 <= end <= i + 512
    &&& end <= image.len()
    &&& all_url_units(image, i, end)
    &&& end + 1 >= image.len() || !url_byte(bits_at(image, end))
    &&& i == 0 || !(0x21 <= bits_at(image, i - 2) <= 0x7e) || (end + 1 < image.len() && bits_at(
        image,
        end,
    ) == 0)
    &&& forall|j: int|
        0 <= j < i && j % 2 == 0 && #[trigger] wide_scheme_stands(image, j) ==> !all_url_units(
            image,
            j,
            i,
        )
}

/// The characters of the units from `i` to `end`.
pub open spec fn wide_chars_of(image: Seq<u8>, i: int, end: int) -> Seq<char> {
    Seq::new(((end - i) / 2) as nat, |k: int| bits_at(image, i + 2 * k) as char)
}

proof fn lemma_bits(image: Seq<u8>, i: int, b: int)
    requires
        0 <= b < 0x100,
    ensures
        bits_at(image, i) == b <==> image[i] == b && image[i + 1] == 0,
        bits_at(image, i) == unit_at(image, i),
{
}

proof fn lemma_wide_marker(image: Seq<u8>, i: int)
    requires
        0 <= i,
    ensures
        wide_marker_at(image, i) != 0 <==> wide_scheme_stands(image, i),
        wide_marker_at(image, i) == 0 || wide_marker_at(image, i) == 14 || wide_marker_at(image, i)
            == 16,
        wide_marker_at(image, i) != 0 ==> i + wide_marker_at(image, i) <= image.len()
            && all_url_units(image, i, i + wide_marker_at(image, i)),
{
    let a = image.subrange(i, i + 14);
    let b = image.subrange(i, i + 16);
    let h = HTTP_WIDE@;
    let s = HTTPS_WIDE@;
    assert(h[0] == 0x68 && h[2] == 0x74 && h[4] == 0x74 && h[6] == 0x70 && h[8] == 0x3a && h[10]
        == 0x2f && h[12] == 0x2f);
    assert(h[1] == 0 && h[3] == 0 && h[5] == 0 && h[7] == 0 && h[9] == 0 && h[11] == 0 && h[13]
        == 0);
    assert(s[0] == 0x68 && s[2] == 0x74 && s[4] == 0x74 && s[6] == 0x70 && s[8] == 0x73 && s[10]
        == 0x3a && s[12] == 0x2f && s[14] == 0x2f);
    assert(s[1] == 0 && s[3] == 0 && s[5] == 0 && s[7] == 0 && s[9] == 0 && s[11] == 0 && s[13]
        == 0 && s[15] == 0);
    if i + 14 <= image.len() {
        assert(forall|k: int| 0 <= k < 14 ==> a[k] == #[trigger] image[i + k]);
    }
    if i + 16 <= image.len() {
        assert(forall|k: int| 0 <= k < 16 ==> b[k] == #[trigger] image[i + k]);
    }
    if wide_scheme_stands(image, i) {
        if bits_at(image, i + 8) == 0x3a {
            assert(a =~= h);
        } else {
            assert(b =~= s);
        }
    }
    if occurs_at(image, h, i) {
        assert(a == h);
        assert(image[i] == h[0] && image[i + 1] == h[1] && image[i + 2] == h[2] && image[i + 3]
            == h[3] && image[i + 4] == h[4] && image[i + 5] == h[5] && image[i + 6] == h[6]
            && image[i + 7] == h[7] && image[i + 8] == h[8] && image[i + 9] == h[9] && image[i
            + 10] == h[10] && image[i + 11] == h[11] && image[i + 12] == h[12] && image[i + 13]
            == h[13]);
    } else if occurs_at(image, s, i) {
        assert(b == s);
        assert(image[i] == s[0] && image[i + 1] == s[1] && image[i + 2] == s[2] && image[i + 3]
            == s[3] && image[i + 4] == s[4] && image[i + 5] == s[5] && image[i + 6] == s[6]
            && image[i + 7] == s[7] && image[i + 8] == s[8] && image[i + 9] == s[9] && image[i
            + 10] == s[10] && image[i + 11] == s[11] && image[i + 12] == s[12] && image[i + 13]
            == s[13] && image[i + 14] == s[14] && image[i + 15] == s[15]);
    }
    lemma_wide_marker_units(image, i);
    if wide_marker_at(image, i) != 0 {
        assert forall|k: int|
            0 <= k && i + 2 * k < i + wide_marker_at(image, i) implies url_byte(
            #[trigger] bits_at(image, i + 2 * k),
        ) by {
            assert(is_url_byte(unit_at(image, i + 2 * k)));
        }
    }
}

proof fn lemma_wide_run(image: Seq<u8>, from: int)
    requires
        0 <= from <= image.len(),
    ensures
        from <= wide_run_end(image, from) <= image.len(),
        (wide_run_end(image, from) - from) % 2 == 0,
        all_url_units(image, from, wide_run_end(image, from)),
        wide_run_end(image, from) + 1 >= image.len() || !url_byte(
            bits_at(image, wide_run_end(image, from)),
        ),
    decreases image.len() - from,
{
    if from + 1 < image.len() && is_url_byte(unit_at(image, from)) {
        lemma_wide_run(image, from + 2);
        assert forall|k: int| 0 <= k && from + 2 * k < wide_run_end(image, from) implies url_byte(
            #[trigger] bits_at(image, from + 2 * k),
        ) by {
            if k > 0 {
                assert(bits_at(image, from + 2 + 2 * (k - 1)) == bits_at(image, from + 2 * k));
            }
        }
    }
}

proof fn lemma_wide_run_is(image: Seq<u8>, from: int, end: int)
    requires
        0 <= from <= end <= image.len(),
        (end - from) % 2 == 0,
        all_url_units(image, from, end),
        end + 1 >= image.len() || !url_byte(bits_at(image, end)),
    ensures
        wide_run_end(image, from) == end,
    decreases end - from,
{
    if from < end {
        assert(url_byte(bits_at(image, from + 2 * 0)));
        assert forall|k: int| 0 <= k && from + 2 + 2 * k < end implies url_byte(
            #[trigger] bits_at(image, from + 2 + 2 * k),
        ) by {
            assert(bits_at(image, from + 2 * (k + 1)) == bits_at(image, from + 2 + 2 * k));
        }
        lemma_wide_run_is(image, from + 2, end);
    }
}

/// Units that may stand in a URL string, cut off at the front by whole units or at the end.
proof fn lemma_units_part(image: Seq<u8>, a: int, b: int, c: int, d: int)
    requires
        all_url_units(image, a, d),
        a <= b,
        (b - a) % 2 == 0,
        c <= d,
    ensures
        all_url_units(image, b, c),
{
    assert forall|k: int| 0 <= k && b + 2 * k < c implies url_byte(
        #[trigger] bits_at(image, b + 2 * k),
    ) by {
        let m = (b - a) / 2 + k;
        assert(a + 2 * m == b + 2 * k);
        assert(url_byte(bits_at(image, a + 2 * m)));
    }
}

proof fn lemma_units_join(image: Seq<u8>, a: int, b: int, c: int)
    requires
        all_url_units(image, a, b),
        all_url_units(image, b, c),
        a <= b,
        (b - a) % 2 == 0,
    ensures
        all_url_units(image, a, c),
{
    assert forall|k: int| 0 <= k && a + 2 * k < c implies url_byte(
        #[trigger] bits_at(image, a + 2 * k),
    ) by {
        if a + 2 * k >= b {
            let m = k - (b - a) / 2;
            assert(b + 2 * m == a + 2 * k);
            assert(url_byte(bits_at(image, b + 2 * m)));
        }
    }
}

proof fn lemma_wide_found(image: Seq<u8>, j: int, i: int, end: int)
    requires
        0 <= j <= i,
        j % 2 == 0,
        wide_url_stands(image, i, end),
    ensures
        wide_urls(image, j).contains((i, wide_chars_of(image, i, end))),
    decreases image.len() - j,
{
    let want = (i, wide_chars_of(image, i, end));
    let all = wide_urls(image, j);
    lemma_wide_marker(image, j);
    let m = wide_marker_at(image, j);
    if j == i {
        lemma_units_part(image, i, i + m, end, end);
        lemma_wide_run_is(image, i + m, end);
        assert(wide_text(image, i, end) =~= wide_chars_of(image, i, end));
        assert(all[0] == want);
    } else if m == 0 {
        lemma_wide_found(image, j + 2, i, end);
    } else {
        let e = wide_run_end(image, j + m);
        lemma_wide_run(image, j + m);
        assert(e <= i) by {
            if e > i {
                lemma_units_join(image, j, j + m, e);
                lemma_units_part(image, j, j, i, e);
                assert(wide_scheme_stands(image, j));
            }
        }
        lemma_wide_found(image, e, i, end);
        let rest = wide_urls(image, e);
        let k = choose|k: int| 0 <= k < rest.len() && rest[k] == want;
        if wide_stands_alone(image, j, e) && 16 <= e - j <= 512 {
            assert(all[k + 1] == want);
        } else {
            assert(all[k] == want);
        }
    }
}

/// Every UTF-16 URL string that stands in the image by itself is found.
pub proof fn law_wide_url_strings_are_found(image: Seq<u8>, i: int, end: int)
    requires
        wide_url_stands(image, i, end),
    ensures
        found_urls(image, true).contains((i, wide_chars_of(image, i, end))),
{
    lemma_wide_found(image, 0, i, end);
}

spec fn wide_free_at(image: Seq<u8>, j: int) -> bool {
    forall|a: int|
        0 <= a < j && a % 2 == 0 && #[trigger] wide_scheme_stands(image, a) ==> !all_url_units(
            image,
            a,
            j,
        )
}

proof fn lemma_wide_sound(image: Seq<u8>, j: int, k: int)
    requires
        0 <= j <= image.len() + 1,
        j % 2 == 0,
        wide_free_at(image, j),
        0 <= k < wide_urls(image, j).len(),
    ensures
        ({
            let f = wide_urls(image, j)[k];
            wide_url_stands(image, f.0, f.0 + 2 * f.1.len()) && f.1 == wide_chars_of(
                image,
                f.0,
                f.0 + 2 * f.1.len(),
            )
        }),
    decreases image.len() + 2 - j,
{
    lemma_wide_marker(image, j);
    let m = wide_marker_at(image, j);
    let all = wide_urls(image, j);
    if m == 0 {
        assert forall|a: int|
            0 <= a < j + 2 && a % 2 == 0 && #[trigger] wide_scheme_stands(
                image,
                a,
            ) implies !all_url_units(image, a, j + 2) by {
            if a < j && all_url_units(image, a, j + 2) {
                lemma_units_part(image, a, a, j, j + 2);
            }
        }
        lemma_wide_sound(image, j + 2, k);
    } else {
        let e = wide_run_end(image, j + m);
        lemma_wide_run(image, j + m);
        let rest = wide_urls(image, e);
        let here = wide_stands_alone(image, j, e) && 16 <= e - j <= 512;
        if here && k == 0 {
            assert(all[0] == (j, wide_text(image, j, e)));
            assert(wide_text(image, j, e) =~= wide_chars_of(image, j, e));
            lemma_units_join(image, j, j + m, e);
        } else {
            let r = if here {
                k - 1
            } else {
                k
            };
            assert(all[k] == rest[r]);
            lemma_wide_behind(image, e);
            assert forall|a: int|
                0 <= a < e + 2 && a % 2 == 0 && #[trigger] wide_scheme_stands(
                    image,
                    a,
                ) implies !all_url_units(image, a, e + 2) by {
                if all_url_units(image, a, e + 2) {
                    let q = (e - a) / 2;
                    assert(a + 2 * q == e);
                    assert(url_byte(bits_at(image, a + 2 * q)));
                }
            }
            lemma_wide_sound(image, e + 2, r);
        }
    }
}

proof fn lemma_wide_behind(image: Seq<u8>, e: int)
    requires
        0 <= e <= image.len(),
        e + 1 >= image.len() || !url_byte(bits_at(image, e)),
    ensures
        wide_urls(image, e).len() > 0 ==> e + 1 < image.len() && wide_urls(image, e) == wide_urls(
            image,
            e + 2,
        ),
{
    lemma_wide_marker(image, e);
    if wide_marker_at(image, e) != 0 {
        assert(url_byte(bits_at(image, e + 2 * 0)));
    }
}

/// Nothing else is found: every UTF-16 string that is found stands in the image by itself.
pub proof fn law_only_wide_url_strings_are_found(image: Seq<u8>, k: int)
    requires
        0 <= k < found_urls(image, true).len(),
    ensures
        ({
            let f = found_urls(image, true)[k];
            wide_url_stands(image, f.0, f.0 + 2 * f.1.len()) && f.1 == wide_chars_of(
                image,
                f.0,
                f.0 + 2 * f.1.len(),
            )
        }),
{
    lemma_wide_sound(image, 0, k);
}

} // verus!
