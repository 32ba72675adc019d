//! URL strings in an image, and what they are replaced with.
use crate::pe::PeImage;
use crate::search::{bytes_at, chars_at, find_chars, occurs_at};
use crate::text::{
    begins_with, ends_with, find_char, from_chars_between, has_part, index_of, join, lowercase,
    opt_view, same_text, to_chars, to_lowercase,
};
use vstd::prelude::*;
use vstd::slice::{slice_subrange, slice_to_vec};

verus! {

/// A URL string of the image and its replacement; a skipped one is to be left alone, for
/// the reason given.
#[derive(Debug, Clone)]
pub struct UrlEntry {
    pub rva: usize,
    /// `ascii` or `utf16`.
    pub encoding: String,
    /// The bytes that the original takes.
    pub length: usize,
    pub original: String,
    pub replacement: String,
    pub host: String,
    pub skipped: bool,
    pub reason: Option<String>,
}

/// What a `UrlEntry` holds.
#[verifier::ext_equal]
pub struct UrlView {
    pub rva: int,
    pub encoding: Seq<char>,
    pub length: int,
    pub original: Seq<char>,
    pub replacement: Seq<char>,
    pub host: Seq<char>,
    pub skipped: bool,
    pub reason: Option<Seq<char>>,
}

impl View for UrlEntry {
    type V = UrlView;

    open spec fn view(&self) -> UrlView {
        UrlView {
            rva: self.rva as int,
            encoding: self.encoding@,
            length: self.length as int,
            original: self.original@,
            replacement: self.replacement@,
            host: self.host@,
            skipped: self.skipped,
            reason: opt_view(self.reason),
        }
    }
}

/// The entries of a vector.
pub open spec fn url_views(v: Seq<UrlEntry>) -> Seq<UrlView> {
    v.map_values(|e: UrlEntry| e@)
}

/// The longest URL string that is reported, in bytes.
pub const MAX_URL_BYTES: usize = 512;

/// `http://`.
pub const HTTP: [u8; 7] = [0x68, 0x74, 0x74, 0x70, 0x3a, 0x2f, 0x2f];

/// `https://`.
pub const HTTPS: [u8; 8] = [0x68, 0x74, 0x74, 0x70, 0x73, 0x3a, 0x2f, 0x2f];

/// `http://` in little-endian UTF-16.
pub const HTTP_WIDE: [u8; 14] = [
    0x68, 0, 0x74, 0, 0x74, 0, 0x70, 0, 0x3a, 0, 0x2f, 0, 0x2f, 0,
];

/// `https://` in little-endian UTF-16.
pub const HTTPS_WIDE: [u8; 16] = [
    0x68, 0, 0x74, 0, 0x74, 0, 0x70, 0, 0x73, 0, 0x3a, 0, 0x2f, 0, 0x2f, 0,
];

/// What stands behind the scheme of an `http` or `https` URL.
pub open spec fn after_scheme(url: Seq<char>) -> Option<Seq<char>> {
    if "http://"@.is_prefix_of(url) {
        Some(url.subrange("http://"@.len() as int, url.len() as int))
    } else if "https://"@.is_prefix_of(url) {
        Some(url.subrange("https://"@.len() as int, url.len() as int))
    } else {
        None
    }
}

/// Whether the character ends an authority.
pub open spec fn ends_authority(c: char) -> bool {
    c == '/' || c == '?' || c == '#'
}

/// The index of the first character that ends the authority `rest` begins with, or the
/// length of `rest`.
pub open spec fn authority_end(rest: Seq<char>, from: int) -> int
    decreases rest.len() - from,
{
    if from < 0 || from >= rest.len() {
        rest.len() as int
    } else if ends_authority(rest[from]) {
        from
    } else {
        authority_end(rest, from + 1)
    }
}

/// The authority of a URL and what follows it.
pub open spec fn parsed_url(url: Seq<char>) -> Option<(Seq<char>, Seq<char>)> {
    match after_scheme(url) {
        Some(rest) => {
            let end = authority_end(rest, 0);
            Some((rest.take(end), rest.skip(end)))
        },
        None => None,
    }
}

/// What stands before the first colon of an authority.
pub open spec fn host_part(authority: Seq<char>) -> Seq<char> {
    authority.take(index_of(authority, ':', 0))
}

/// Whether the URL leads to this machine already: its host, in small letters, is `host`.
pub open spec fn is_local(authority: Seq<char>, host: Seq<char>) -> bool {
    ||| host == "localhost"@
    ||| host == "127.0.0.1"@
    ||| host == "0.0.0.0"@
    ||| authority == "[::1]"@
    ||| "[::1]:"@.is_prefix_of(authority)
}

/// The replacement of a URL with the given authority, rest and lower-case host, whether it
/// is to be skipped (its authority holds placeholders), and the host.
pub open spec fn local_url(authority: Seq<char>, rest: Seq<char>, host: Seq<char>) -> Option<
    (Seq<char>, bool, Seq<char>),
> {
    if authority.len() == 0 || is_local(authority, host) {
        None
    } else {
        Some(("http://localhost"@ + rest, authority.contains('%'), host))
    }
}

/// The URL for which a replacement of the same length is known.
pub open spec fn known_url() -> Seq<char> {
    "https://data.%1/Data/Upload.ashx?assetid=%2"@
}

/// The replacement of the known URL.
pub open spec fn known_replacement() -> Seq<char> {
    "http://localhost/Data/Upload.ashx?a=%1&b=%2"@
}

/// The replacement of a URL, whether it is to be skipped, and its host; nothing for what
/// has no authority or is local already.
pub open spec fn replacement_of(url: Seq<char>) -> Option<(Seq<char>, bool, Seq<char>)> {
    if url == known_url() {
        Some((known_replacement(), false, "data.%1"@))
    } else {
        match parsed_url(url) {
            Some((authority, rest)) => local_url(authority, rest, lowercase(host_part(authority))),
            None => None,
        }
    }
}

/// The hosts, each with all its subdomains, that name schemas and documents.
pub open spec fn excluded_hosts() -> Seq<Seq<char>> {
    seq![
        "w3.org"@,
        "ns.adobe.com"@,
        "purl.org"@,
        "schemas.microsoft.com"@,
        "webrtc.org"@,
        "ietf.org"@,
        "crbug.com"@,
        "chromium.org"@,
        "github.com"@,
        "curl.se"@,
        "creativecommons.org"@,
        "exif.org"@,
        "iptc.org"@,
        "xml.org"@,
    ]
}

/// Whether a lower-case host is excluded or is a subdomain of one that is.
pub open spec fn is_excluded(host: Seq<char>) -> bool {
    exists|k: int|
        0 <= k < excluded_hosts().len() && (host == #[trigger] excluded_hosts()[k] || ("."@
            + excluded_hosts()[k]).is_suffix_of(host))
}

/// Whether an entry is skipped, and why: `excluded` says that its host is.
pub open spec fn verdict(placeholder: bool, host: Seq<char>, excluded: bool, fits: bool) -> (
    bool,
    Option<Seq<char>>,
) {
    if placeholder {
        (true, Some("placeholder authority; no generic replacement"@))
    } else if excluded {
        (true, Some("non-service host '"@ + host + "' excluded"@))
    } else if !fits {
        (true, Some("replacement longer than original"@))
    } else {
        (false, None)
    }
}

/// Whether a character may stand in an authority.
pub open spec fn is_host_char(c: char) -> bool {
    ||| 'a' <= c <= 'z'
    ||| 'A' <= c <= 'Z'
    ||| '0' <= c <= '9'
    ||| c == '.'
    ||| c == '-'
    ||| c == ':'
    ||| c == '%'
    ||| c == '_'
    ||| c == '['
    ||| c == ']'
    ||| c == '@'
}

/// Whether a string is one URL: no second `://`, and an authority that is not empty and
/// holds nothing but what may stand in one.
pub open spec fn is_clean(url: Seq<char>) -> bool {
    match after_scheme(url) {
        Some(rest) => {
            let authority = rest.take(authority_end(rest, 0));
            &&& !has_part(rest, "://"@)
            &&& authority.len() > 0
            &&& forall|i: int| 0 <= i < authority.len() ==> is_host_char(#[trigger] authority[i])
        },
        None => false,
    }
}

/// The entry of a string that is no single URL.
pub open spec fn blob_entry(rva: int, wide: bool, url: Seq<char>) -> UrlView {
    UrlView {
        rva,
        encoding: encoding_name(wide),
        length: byte_len(wide, url),
        original: url,
        replacement: Seq::empty(),
        host: Seq::empty(),
        skipped: true,
        reason: Some("not a single clean URL (concatenated blob)"@),
    }
}

/// The name of an encoding.
pub open spec fn encoding_name(wide: bool) -> Seq<char> {
    if wide {
        "utf16"@
    } else {
        "ascii"@
    }
}

/// The bytes that ASCII text takes, in UTF-16 or as it is.
pub open spec fn byte_len(wide: bool, text: Seq<char>) -> int {
    if wide {
        2 * (text.len() as int)
    } else {
        text.len() as int
    }
}

/// The entry of a URL with its replacement; one that is longer than the URL gives way to
/// the bare `http://localhost`.
pub open spec fn replaced_entry(
    rva: int,
    wide: bool,
    url: Seq<char>,
    r: (Seq<char>, bool, Seq<char>),
    excluded: bool,
) -> UrlView {
    let fits = r.0.len() <= url.len();
    let v = verdict(r.1, r.2, excluded, fits);
    UrlView {
        rva,
        encoding: encoding_name(wide),
        length: byte_len(wide, url),
        original: url,
        replacement: if fits {
            r.0
        } else {
            "http://localhost"@
        },
        host: r.2,
        skipped: v.0,
        reason: v.1,
    }
}

/// The entry of a URL string that stands at `rva`; nothing for one that is local already.
pub open spec fn url_entry(rva: int, wide: bool, url: Seq<char>) -> Option<UrlView> {
    if !is_clean(url) {
        Some(blob_entry(rva, wide, url))
    } else {
        match replacement_of(url) {
            Some(r) => Some(replaced_entry(rva, wide, url, r, is_excluded(lowercase(r.2)))),
            None => None,
        }
    }
}

/// The entries of the strings that were found.
pub open spec fn url_entries(found: Seq<(int, Seq<char>)>, wide: bool) -> Seq<UrlView>
    decreases found.len(),
{
    if found.len() == 0 {
        Seq::empty()
    } else {
        let before = url_entries(found.drop_last(), wide);
        match url_entry(found.last().0, wide, found.last().1) {
            Some(e) => before.push(e),
            None => before,
        }
    }
}

/// Whether a byte may stand in a URL string: printable ASCII without quotes and angle
/// brackets.
pub open spec fn is_url_byte(b: int) -> bool {
    0x21 <= b <= 0x7e && b != 0x22 && b != 0x27 && b != 0x3c && b != 0x3e
}

/// Whether a byte is printable ASCII, the space left out.
pub open spec fn is_printable(b: int) -> bool {
    0x21 <= b <= 0x7e
}

/// The length of the scheme that stands at `i`, zero where none does.
pub open spec fn marker_at(image: Seq<u8>, i: int) -> int {
    if occurs_at(image, HTTP@, i) {
        7
    } else if occurs_at(image, HTTPS@, i) {
        8
    } else {
        0
    }
}

/// The end of the bytes from `from` on that may stand in a URL string.
pub open spec fn run_end(image: Seq<u8>, from: int) -> int
    decreases image.len() - from,
{
    if 0 <= from < image.len() && is_url_byte(image[from] as int) {
        run_end(image, from + 1)
    } else {
        from
    }
}

/// The text of the ASCII bytes from `i` to `end`.
pub open spec fn ascii_text(image: Seq<u8>, i: int, end: int) -> Seq<char> {
    Seq::new((end - i) as nat, |k: int| image[i + k] as char)
}

/// Whether the bytes from `i` to `end` are a string of their own: nothing printable stands
/// before them, or a zero byte behind them.
pub open spec fn stands_alone(image: Seq<u8>, i: int, end: int) -> bool {
    i == 0 || !is_printable(image[i - 1] as int) || (end < image.len() && image[end] == 0)
}

/// The URL strings from `i` on, with their offsets. The search goes on behind the end of
/// each string that begins with a scheme.
pub open spec fn ascii_urls(image: Seq<u8>, i: int) -> Seq<(int, Seq<char>)>
    decreases image.len() - i,
{
    if i < 0 || i + 8 > image.len() {
        Seq::empty()
    } else {
        let m = marker_at(image, i);
        if m == 0 {
            ascii_urls(image, i + 1)
        } else {
            let end = run_end(image, i + m);
            proof {
                lemma_run_end(image, i + m);
            }
            let rest = ascii_urls(image, end);
            if stands_alone(image, i, end) && 8 <= end - i <= MAX_URL_BYTES {
                seq![(i, ascii_text(image, i, end))] + rest
            } else {
                rest
            }
        }
    }
}

/// The UTF-16 unit at `i`, low byte first.
pub open spec fn unit_at(image: Seq<u8>, i: int) -> int {
    image[i] + 0x100 * image[i + 1]
}

/// The length in bytes of the UTF-16 scheme that stands at `i`, zero where none does.
pub open spec fn wide_marker_at(image: Seq<u8>, i: int) -> int {
    if occurs_at(image, HTTP_WIDE@, i) {
        14
    } else if occurs_at(image, HTTPS_WIDE@, i) {
        16
    } else {
        0
    }
}

/// The end of the units from `from` on that may stand in a URL string.
pub open spec fn wide_run_end(image: Seq<u8>, from: int) -> int
    decreases image.len() - from,
{
    if 0 <= from && from + 1 < image.len() && is_url_byte(unit_at(image, from)) {
        wide_run_end(image, from + 2)
    } else {
        from
    }
}

/// The text of the ASCII units from `i` to `end`.
pub open spec fn wide_text(image: Seq<u8>, i: int, end: int) -> Seq<char> {
    Seq::new(((end - i) / 2) as nat, |k: int| unit_at(image, i + 2 * k) as char)
}

/// Whether the units from `i` to `end` are a string of their own: no printable unit stands
/// before them, or a zero unit behind them.
pub open spec fn wide_stands_alone(image: Seq<u8>, i: int, end: int) -> bool {
    i < 2 || !is_printable(unit_at(image, i - 2)) || (end + 1 < image.len() && unit_at(image, end)
        == 0)
}

/// The UTF-16 URL strings from `i` on, unit by unit, with their offsets. The search goes on
/// behind the end of each string that begins with a scheme.
pub open spec fn wide_urls(image: Seq<u8>, i: int) -> Seq<(int, Seq<char>)>
    decreases image.len() - i,
{
    if i < 0 || i + 8 > image.len() {
        Seq::empty()
    } else {
        let m = wide_marker_at(image, i);
        if m == 0 {
            wide_urls(image, i + 2)
        } else {
            let end = wide_run_end(image, i + m);
            proof {
                lemma_wide_run_end(image, i + m);
            }
            let rest = wide_urls(image, end);
            if wide_stands_alone(image, i, end) && 16 <= end - i <= MAX_URL_BYTES {
                seq![(i, wide_text(image, i, end))] + rest
            } else {
                rest
            }
        }
    }
}

/// The strings of a vector, with their offsets.
pub open spec fn found_views(v: Seq<(usize, String)>) -> Seq<(int, Seq<char>)> {
    v.map_values(|p: (usize, String)| (p.0 as int, p.1@))
}

/// The run begins at `from`, ends inside the image and holds what may stand in a URL string.
pub proof fn lemma_run_end(image: Seq<u8>, from: int)
    requires
        0 <= from <= image.len(),
    ensures
        from <= run_end(image, from) <= image.len(),
        forall|j: int|
            from <= j < run_end(image, from) ==> is_url_byte(#[trigger] image[j] as int),
    decreases image.len() - from,
{
    if from < image.len() && is_url_byte(image[from] as int) {
        lemma_run_end(image, from + 1);
    }
}

/// The run begins at `from`, ends inside the image after whole units and holds what may stand
/// in a URL string.
pub proof fn lemma_wide_run_end(image: Seq<u8>, from: int)
    requires
        0 <= from <= image.len(),
    ensures
        from <= wide_run_end(image, from) <= image.len(),
        (wide_run_end(image, from) - from) % 2 == 0,
        forall|k: int|
            0 <= k && from + 2 * k < wide_run_end(image, from) ==> is_url_byte(
                #[trigger] unit_at(image, from + 2 * k),
            ),
    decreases image.len() - from,
{
    if from + 1 < image.len() && is_url_byte(unit_at(image, from)) {
        lemma_wide_run_end(image, from + 2);
        assert forall|k: int|
            0 <= k && from + 2 * k < wide_run_end(image, from) implies is_url_byte(
            #[trigger] unit_at(image, from + 2 * k),
        ) by {
            if k > 0 {
                assert(unit_at(image, from + 2 + 2 * (k - 1)) == unit_at(image, from + 2 * k));
            }
        }
    }
}

/// What stands behind the scheme of an `http` or `https` URL.
fn strip_scheme(url: &[char]) -> (r: Option<Vec<char>>)
    ensures
        match r {
            Some(rest) => after_scheme(url@) == Some(rest@),
            None => after_scheme(url@) is None,
        },
{
    let http = to_chars("http://");
    let https = to_chars("https://");
    if chars_at(url, &http, 0) {
        assert("http://"@.is_prefix_of(url@));
        Some(slice_to_vec(slice_subrange(url, http.len(), url.len())))
    } else if chars_at(url, &https, 0) {
        assert("https://"@.is_prefix_of(url@));
        Some(slice_to_vec(slice_subrange(url, https.len(), url.len())))
    } else {
        None
    }
}

fn find_authority_end(rest: &[char]) -> (r: usize)
    ensures
        r == authority_end(rest@, 0),
        r <= rest@.len(),
{
    let mut i: usize = 0;
    while i < rest.len()
        invariant
            i <= rest@.len(),
            authority_end(rest@, 0) == authority_end(rest@, i as int),
        decreases rest.len() - i,
    {
        let c: char = rest[i];
        if c == '/' || c == '?' || c == '#' {
            return i;
        }
        i += 1;
    }
    i
}

/// The authority of a URL and what follows it.
fn parse_url(url: &str) -> (r: Option<(String, String)>)
    ensures
        match r {
            Some((authority, rest)) => parsed_url(url@) == Some((authority@, rest@)),
            None => parsed_url(url@) is None,
        },
{
    let chars = to_chars(url);
    match strip_scheme(&chars) {
        Some(rest) => {
            let end: usize = find_authority_end(&rest);
            let authority = from_chars_between(&rest, 0, end);
            let after = from_chars_between(&rest, end, rest.len());
            assert(authority@ =~= rest@.take(end as int));
            assert(after@ =~= rest@.skip(end as int));
            Some((authority, after))
        },
        None => None,
    }
}

/// The replacement of a URL with the given authority, rest and lower-case host, whether it
/// is to be skipped, and the host.
pub fn local_replacement(authority: &str, rest: &str, host: String) -> (r: Option<
    (String, bool, String),
>)
    ensures
        match r {
            Some((replacement, skipped, h)) => local_url(authority@, rest@, host@) == Some(
                (replacement@, skipped, h@),
            ),
            None => local_url(authority@, rest@, host@) is None,
        },
{
    let chars = to_chars(authority);
    if chars.len() == 0 {
        return None;
    }
    if same_text(&host, "localhost") || same_text(&host, "127.0.0.1") || same_text(
        &host,
        "0.0.0.0",
    ) || same_text(authority, "[::1]") || begins_with(authority, "[::1]:") {
        return None;
    }
    let percent: usize = find_char(&chars, '%', 0);
    assert((percent < chars@.len()) == authority@.contains('%'));
    Some((join("http://localhost", rest), percent < chars.len(), host))
}

/// The replacement of a URL, whether it is to be skipped, and its host; nothing for what has
/// no authority or is local already.
pub fn localhost_replacement(url: &str) -> (r: Option<(String, bool, String)>)
    ensures
        match r {
            Some((replacement, skipped, host)) => replacement_of(url@) == Some(
                (replacement@, skipped, host@),
            ),
            None => replacement_of(url@) is None,
        },
{
    if same_text(url, "https://data.%1/Data/Upload.ashx?assetid=%2") {
        return Some(
            (
                "http://localhost/Data/Upload.ashx?a=%1&b=%2".to_string(),
                false,
                "data.%1".to_string(),
            ),
        );
    }
    match parse_url(url) {
        Some((authority, rest)) => {
            let chars = to_chars(&authority);
            let colon: usize = find_char(&chars, ':', 0);
            let part = from_chars_between(&chars, 0, colon);
            assert(part@ =~= host_part(authority@));
            local_replacement(&authority, &rest, to_lowercase(&part))
        },
        None => None,
    }
}

fn excluded_list() -> (out: Vec<&'static str>)
    ensures
        out@.map_values(|s: &'static str| s@) == excluded_hosts(),
{
    let mut out: Vec<&'static str> = Vec::new();
    out.push("w3.org");
    out.push("ns.adobe.com");
    out.push("purl.org");
    out.push("schemas.microsoft.com");
    out.push("webrtc.org");
    out.push("ietf.org");
    out.push("crbug.com");
    out.push("chromium.org");
    out.push("github.com");
    out.push("curl.se");
    out.push("creativecommons.org");
    out.push("exif.org");
    out.push("iptc.org");
    out.push("xml.org");
    assert(out@.map_values(|s: &'static str| s@) =~= excluded_hosts());
    out
}

/// Whether a lower-case host is excluded or is a subdomain of one that is.
pub fn is_excluded_host(host: &str) -> (r: bool)
    ensures
        r == is_excluded(host@),
{
    let list = excluded_list();
    for i in 0..list.len()
        invariant
            list@.map_values(|s: &'static str| s@) == excluded_hosts(),
            forall|k: int|
                0 <= k < i ==> !(host@ == #[trigger] excluded_hosts()[k] || ("."@
                    + excluded_hosts()[k]).is_suffix_of(host@)),
    {
        let suffix: &'static str = list[i];
        assert(excluded_hosts()[i as int] == suffix@);
        if same_text(host, suffix) || ends_with(host, &join(".", suffix)) {
            return true;
        }
    }
    false
}

/// Whether the host names schemas and documents, in whatever letters it is written.
fn is_denylisted_host(host: &str) -> (r: bool)
    ensures
        r == is_excluded(lowercase(host@)),
{
    is_excluded_host(&to_lowercase(host))
}

/// Whether an entry is skipped, and why: `excluded` says that its host is.
pub fn classify(placeholder: bool, host: &str, excluded: bool, fits: bool) -> (r: (
    bool,
    Option<String>,
))
    ensures
        (r.0, opt_view(r.1)) == verdict(placeholder, host@, excluded, fits),
{
    if placeholder {
        return (true, Some("placeholder authority; no generic replacement".to_string()));
    }
    if excluded {
        let head = join("non-service host '", host);
        return (true, Some(join(&head, "' excluded")));
    }
    if !fits {
        return (true, Some("replacement longer than original".to_string()));
    }
    (false, None)
}

fn host_char(c: char) -> (r: bool)
    ensures
        r == is_host_char(c),
{
    ('a' <= c && c <= 'z') || ('A' <= c && c <= 'Z') || ('0' <= c && c <= '9') || c == '.' || c
        == '-' || c == ':' || c == '%' || c == '_' || c == '[' || c == ']' || c == '@'
}

/// Whether a string is one URL.
pub fn is_clean_single_url(url: &str) -> (r: bool)
    ensures
        r == is_clean(url@),
{
    let chars = to_chars(url);
    let rest = match strip_scheme(&chars) {
        Some(rest) => rest,
        None => {
            return false;
        },
    };
    if find_chars(&rest, &to_chars("://"), 0).is_some() {
        return false;
    }
    let end: usize = find_authority_end(&rest);
    if end == 0 {
        return false;
    }
    let ghost authority = rest@.take(end as int);
    for i in 0..end
        invariant
            end == authority_end(rest@, 0),
            end <= rest@.len(),
            after_scheme(url@) == Some(rest@),
            authority == rest@.take(end as int),
            forall|k: int| 0 <= k < i ==> is_host_char(#[trigger] authority[k]),
    {
        if !host_char(rest[i]) {
            assert(!is_host_char(authority[i as int]));
            return false;
        }
    }
    true
}

fn encoding_text(wide: bool) -> (r: String)
    ensures
        r@ == encoding_name(wide),
{
    if wide {
        "utf16".to_string()
    } else {
        "ascii".to_string()
    }
}

fn make_url_entry(rva: usize, wide: bool, url: &str) -> (r: Option<UrlEntry>)
    requires
        url@.len() <= MAX_URL_BYTES,
    ensures
        opt_view(r) == url_entry(rva as int, wide, url@),
{
    let count: usize = to_chars(url).len();
    let length: usize = if wide {
        2 * count
    } else {
        count
    };
    if !is_clean_single_url(url) {
        let e = UrlEntry {
            rva,
            encoding: encoding_text(wide),
            length,
            original: url.to_string(),
            replacement: String::new(),
            host: String::new(),
            skipped: true,
            reason: Some("not a single clean URL (concatenated blob)".to_string()),
        };
        assert(e@ =~= blob_entry(rva as int, wide, url@));
        return Some(e);
    }
    match localhost_replacement(url) {
        Some((replacement, placeholder, host)) => {
            let fits: bool = to_chars(&replacement).len() <= count;
            let (skipped, reason) = classify(
                placeholder,
                &host,
                is_denylisted_host(&host),
                fits,
            );
            Some(
                UrlEntry {
                    rva,
                    encoding: encoding_text(wide),
                    length,
                    original: url.to_string(),
                    replacement: if fits {
                        replacement
                    } else {
                        "http://localhost".to_string()
                    },
                    host,
                    skipped,
                    reason,
                },
            )
        },
        None => None,
    }
}

fn is_url_char(b: u8) -> (r: bool)
    ensures
        r == is_url_byte(b as int),
{
    b >= 0x21 && b <= 0x7e && b != 0x22 && b != 0x27 && b != 0x3c && b != 0x3e
}

/// The URL strings of the bytes, with their offsets.
pub fn scan_ascii_urls(image: &[u8]) -> (out: Vec<(usize, String)>)
    ensures
        found_views(out@) == ascii_urls(image@, 0),
        forall|k: int| 0 <= k < out@.len() ==> (#[trigger] out@[k]).1@.len() <= MAX_URL_BYTES,
{
    let mut out: Vec<(usize, String)> = Vec::new();
    let mut i: usize = 0;
    while image.len() - i >= 8
        invariant
            i <= image@.len(),
            ascii_urls(image@, 0) =~= found_views(out@) + ascii_urls(image@, i as int),
            forall|k: int|
                0 <= k < out@.len() ==> (#[trigger] out@[k]).1@.len() <= MAX_URL_BYTES,
        decreases image.len() - i,
    {
        let m: usize = if bytes_at(image, HTTP.as_slice(), i) {
            7
        } else if bytes_at(image, HTTPS.as_slice(), i) {
            8
        } else {
            i += 1;
            continue;
        };
        let mut end: usize = i + m;
        proof {
            lemma_run_end(image@, end as int);
            lemma_marker_bytes(image@, i as int);
        }
        while end < image.len() && is_url_char(image[end])
            invariant
                i + m <= end <= image@.len(),
                run_end(image@, i + m) == run_end(image@, end as int),
            decreases image.len() - end,
        {
            end += 1;
        }
        let alone: bool = i == 0 || image[i - 1] < 0x21 || image[i - 1] > 0x7e || (end
            < image.len() && image[end] == 0);
        if alone && end - i >= 8 && end - i <= MAX_URL_BYTES {
            let mut text = String::new();
            for j in i..end
                invariant
                    i < end <= image@.len(),
                    forall|k: int| i <= k < end ==> is_url_byte(#[trigger] image@[k] as int),
                    text@ =~= ascii_text(image@, i as int, end as int).take(j - i),
            {
                assert(is_url_byte(image@[j as int] as int));
                text.push(image[j] as char);
            }
            assert(text@ =~= ascii_text(image@, i as int, end as int));
            let ghost before = found_views(out@);
            out.push((i, text));
            assert(found_views(out@) =~= before.push((i as int, text@)));
        }
        i = end;
    }
    out
}

/// What stands in a scheme may stand in a URL string.
pub proof fn lemma_marker_bytes(image: Seq<u8>, i: int)
    ensures
        forall|k: int| i <= k < i + marker_at(image, i) ==> is_url_byte(#[trigger] image[k] as int),
{
    let m = marker_at(image, i);
    assert forall|k: int| i <= k < i + m implies is_url_byte(#[trigger] image[k] as int) by {
        assert(image.subrange(i, i + m)[k - i] == image[k]);
    }
}

fn read_unit(image: &[u8], i: usize) -> (r: u16)
    requires
        i + 1 < image@.len(),
    ensures
        r == unit_at(image@, i as int),
{
    image[i] as u16 + 0x100 * (image[i + 1] as u16)
}

/// The UTF-16 URL strings of the bytes, with their offsets.
pub fn scan_utf16_urls(image: &[u8]) -> (out: Vec<(usize, String)>)
    ensures
        found_views(out@) == wide_urls(image@, 0),
        forall|k: int| 0 <= k < out@.len() ==> (#[trigger] out@[k]).1@.len() <= MAX_URL_BYTES,
{
    let mut out: Vec<(usize, String)> = Vec::new();
    let mut i: usize = 0;
    while image.len() - i >= 8
        invariant
            i <= image@.len(),
            wide_urls(image@, 0) =~= found_views(out@) + wide_urls(image@, i as int),
            forall|k: int|
                0 <= k < out@.len() ==> (#[trigger] out@[k]).1@.len() <= MAX_URL_BYTES,
        decreases image.len() - i,
    {
        let m: usize = if bytes_at(image, HTTP_WIDE.as_slice(), i) {
            14
        } else if bytes_at(image, HTTPS_WIDE.as_slice(), i) {
            16
        } else {
            i += 2;
            continue;
        };
        let mut end: usize = i + m;
        proof {
            lemma_wide_run_end(image@, end as int);
            lemma_wide_marker_units(image@, i as int);
        }
        while image.len() - end >= 2 && is_url_unit(read_unit(image, end))
            invariant
                i + m <= end <= image@.len(),
                wide_run_end(image@, i + m) == wide_run_end(image@, end as int),
            decreases image.len() - end,
        {
            end += 2;
        }
        let before_ok: bool = if i < 2 {
            true
        } else {
            let prev: u16 = read_unit(image, i - 2);
            prev < 0x21 || prev > 0x7e
        };
        let alone: bool = before_ok || (image.len() - end >= 2 && read_unit(image, end) == 0);
        if alone && end - i >= 16 && end - i <= MAX_URL_BYTES {
            let count: usize = (end - i) / 2;
            let mut text = String::new();
            assert forall|k: int| 0 <= k < count implies is_url_byte(
                #[trigger] unit_at(image@, i + 2 * k),
            ) by {
                if 2 * k >= m {
                    assert(unit_at(image@, i + m + 2 * (k - m / 2)) == unit_at(image@, i + 2 * k));
                }
            }
            for k in 0..count
                invariant
                    count == (end - i) / 2,
                    i < end <= image@.len(),
                    forall|k: int|
                        0 <= k < count ==> is_url_byte(#[trigger] unit_at(image@, i + 2 * k)),
                    text@ =~= wide_text(image@, i as int, end as int).take(k as int),
            {
                let u: u16 = read_unit(image, i + 2 * k);
                assert(is_url_byte(unit_at(image@, i + 2 * k)));
                text.push((u as u8) as char);
            }
            assert(text@ =~= wide_text(image@, i as int, end as int));
            let ghost before = found_views(out@);
            out.push((i, text));
            assert(found_views(out@) =~= before.push((i as int, text@)));
        }
        i = end;
    }
    out
}

fn is_url_unit(u: u16) -> (r: bool)
    ensures
        r == is_url_byte(u as int),
{
    u <= 0x7e && is_url_char(u as u8)
}

/// What stands in a UTF-16 scheme may stand in a URL string.
pub proof fn lemma_wide_marker_units(image: Seq<u8>, i: int)
    ensures
        forall|k: int|
            0 <= k && 2 * k < wide_marker_at(image, i) ==> is_url_byte(
                #[trigger] unit_at(image, i + 2 * k),
            ),
{
    let m = wide_marker_at(image, i);
    assert forall|k: int| 0 <= k && 2 * k < m implies is_url_byte(
        #[trigger] unit_at(image, i + 2 * k),
    ) by {
        assert(image.subrange(i, i + m)[2 * k] == image[i + 2 * k]);
        assert(image.subrange(i, i + m)[2 * k + 1] == image[i + 2 * k + 1]);
    }
}

fn push_url_entries(found: &Vec<(usize, String)>, wide: bool, out: &mut Vec<UrlEntry>)
    requires
        forall|k: int| 0 <= k < found@.len() ==> (#[trigger] found@[k]).1@.len() <= MAX_URL_BYTES,
    ensures
        url_views(final(out)@) == url_views(old(out)@) + url_entries(found_views(found@), wide),
{
    let ghost all = found_views(found@);
    let ghost start = url_views(out@);
    assert(start + Seq::<UrlView>::empty() =~= start);
    for i in 0..found.len()
        invariant
            all == found_views(found@),
            forall|k: int|
                0 <= k < found@.len() ==> (#[trigger] found@[k]).1@.len() <= MAX_URL_BYTES,
            url_views(out@) =~= start + url_entries(all.take(i as int), wide),
    {
        assert(all[i as int] == (found@[i as int].0 as int, found@[i as int].1@));
        assert(all.take(i + 1).drop_last() =~= all.take(i as int));
        let e = make_url_entry(found[i].0, wide, &found[i].1);
        if let Some(e) = e {
            let ghost before = url_views(out@);
            out.push(e);
            assert(url_views(out@) =~= before.push(e@));
        }
    }
    assert(all.take(found@.len() as int) =~= all);
}

/// The URL strings of the image that are not local already, with their replacements: first
/// the ASCII ones, then those in UTF-16, each in the order in which they stand.
pub fn find_urls(image: &PeImage) -> (out: Vec<UrlEntry>)
    ensures
        url_views(out@) == url_entries(ascii_urls(image.reconstructed@, 0), false) + url_entries(
            wide_urls(image.reconstructed@, 0),
            true,
        ),
{
    let mut out: Vec<UrlEntry> = Vec::new();
    let ascii = scan_ascii_urls(&image.reconstructed);
    push_url_entries(&ascii, false, &mut out);
    let wide = scan_utf16_urls(&image.reconstructed);
    push_url_entries(&wide, true, &mut out);
    assert(url_views(Seq::<UrlEntry>::empty()) =~= Seq::empty());
    out
}

} // verus!
