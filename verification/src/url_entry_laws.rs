//! What becomes of a URL string, stated on its scheme, its authority and the rest.
use crate::scan_urls::{
    after_scheme, authority_end, excluded_hosts, host_part, is_clean, is_excluded, is_host_char,
    is_local, known_url, parsed_url, replacement_of, url_entry, UrlView,
};
use crate::text::{index_of, lowercase};
use crate::text_laws::law_parts_are_held;
use crate::url_laws::{entries_of, found_urls, law_found_urls_have_entries};
use crate::url_text_laws::{
    chars_of, law_url_strings_are_found, law_wide_url_strings_are_found, url_stands, wide_chars_of,
    wide_url_stands,
};
use vstd::prelude::*;

verus! {

/// Whether a text is a URL with this authority and this rest.
pub open spec fn made_of(
    url: Seq<char>,
    secure: bool,
    authority: Seq<char>,
    rest: Seq<char>,
) -> bool {
    &&& url == (if secure {
        "https://"@
    } else {
        "http://"@
    }) + authority + rest
    &&& forall|i: int|
        0 <= i < authority.len() ==> #[trigger] authority[i] != '/' && authority[i] != '?'
            && authority[i] != '#'
    &&& rest.len() > 0 ==> rest[0] == '/' || rest[0] == '?' || rest[0] == '#'
}

/// Whether an authority holds nothing but letters, digits and `. - : % _ [ ] @`, and something.
pub open spec fn host_legal(authority: Seq<char>) -> bool {
    authority.len() > 0 && forall|i: int|
        0 <= i < authority.len() ==> {
            let c = #[trigger] authority[i];
            'a' <= c <= 'z' || 'A' <= c <= 'Z' || '0' <= c <= '9' || c == '.' || c == '-' || c
                == ':' || c == '%' || c == '_' || c == '[' || c == ']' || c == '@'
        }
}

/// Whether a second URL is joined to what stands behind the scheme.
pub open spec fn joined_to_another(authority: Seq<char>, rest: Seq<char>) -> bool {
    exists|a: Seq<char>, b: Seq<char>| authority + rest == #[trigger] (a + "://"@ + b)
}

/// Whether `host` is what stands before the first colon of an authority.
pub open spec fn host_of(authority: Seq<char>, host: Seq<char>) -> bool {
    &&& forall|i: int| 0 <= i < host.len() ==> #[trigger] host[i] != ':'
    &&& host == authority || (host.len() < authority.len() && authority.take(host.len() as int)
        == host && authority[host.len() as int] == ':')
}

/// Whether an authority, whose host in small letters is `h`, leads to this machine.
pub open spec fn leads_here(authority: Seq<char>, h: Seq<char>) -> bool {
    ||| h == "localhost"@
    ||| h == "127.0.0.1"@
    ||| h == "0.0.0.0"@
    ||| authority == "[::1]"@
    ||| authority.len() > 6 && authority.take(6) == "[::1]:"@
    ||| authority == "[::1]:"@
}

/// Whether a host is `name` or below it.
pub open spec fn under(h: Seq<char>, name: Seq<char>) -> bool {
    h == name || exists|sub: Seq<char>| h == #[trigger] (sub + "."@ + name)
}

/// Whether a host names schemas or documents.
pub open spec fn names_documents(h: Seq<char>) -> bool {
    ||| under(h, "w3.org"@)
    ||| under(h, "ns.adobe.com"@)
    ||| under(h, "purl.org"@)
    ||| under(h, "schemas.microsoft.com"@)
    ||| under(h, "webrtc.org"@)
    ||| under(h, "ietf.org"@)
    ||| under(h, "crbug.com"@)
    ||| under(h, "chromium.org"@)
    ||| under(h, "github.com"@)
    ||| under(h, "curl.se"@)
    ||| under(h, "creativecommons.org"@)
    ||| under(h, "exif.org"@)
    ||| under(h, "iptc.org"@)
    ||| under(h, "xml.org"@)
}

proof fn lemma_authority(authority: Seq<char>, rest: Seq<char>, from: int)
    requires
        0 <= from <= authority.len(),
        forall|i: int|
            0 <= i < authority.len() ==> #[trigger] authority[i] != '/' && authority[i] != '?'
                && authority[i] != '#',
        rest.len() > 0 ==> rest[0] == '/' || rest[0] == '?' || rest[0] == '#',
    ensures
        authority_end(authority + rest, from) == authority.len(),
    decreases authority.len() - from,
{
    let all = authority + rest;
    if from < authority.len() {
        assert(all[from] == authority[from]);
        lemma_authority(authority, rest, from + 1);
    } else if rest.len() > 0 {
        assert(all[from] == rest[0]);
    }
}

proof fn lemma_parsed(url: Seq<char>, secure: bool, authority: Seq<char>, rest: Seq<char>)
    requires
        made_of(url, secure, authority, rest),
    ensures
        after_scheme(url) == Some(authority + rest),
        authority_end(authority + rest, 0) == authority.len(),
        parsed_url(url) == Some((authority, rest)),
        (authority + rest).take(authority.len() as int) == authority,
{
    reveal_strlit("http://");
    reveal_strlit("https://");
    let body = authority + rest;
    let short = "http://"@;
    let long = "https://"@;
    if secure {
        assert(url[4] == 's');
        assert(short[4] == ':');
        assert(!short.is_prefix_of(url)) by {
            if short.is_prefix_of(url) {
                assert(url.subrange(0, 7)[4] == short[4]);
            }
        }
        assert(long =~= url.subrange(0, 8));
        assert(url.subrange(8, url.len() as int) =~= body);
    } else {
        assert(short =~= url.subrange(0, 7));
        assert(url.subrange(7, url.len() as int) =~= body);
    }
    lemma_authority(authority, rest, 0);
    assert(body.take(authority.len() as int) =~= authority);
    assert(body.skip(authority.len() as int) =~= rest);
}

proof fn lemma_host(authority: Seq<char>, host: Seq<char>)
    requires
        host_of(authority, host),
    ensures
        host_part(authority) == host,
{
    lemma_colon(authority, host, 0);
    if host == authority {
        assert(authority.take(authority.len() as int) =~= authority);
    }
}

proof fn lemma_colon(authority: Seq<char>, host: Seq<char>, from: int)
    requires
        host_of(authority, host),
        0 <= from <= host.len(),
    ensures
        index_of(authority, ':', from) == host.len(),
    decreases host.len() - from,
{
    if from < host.len() {
        if host != authority {
            assert(authority.take(host.len() as int)[from] == authority[from]);
        }
        assert(host[from] != ':');
        lemma_colon(authority, host, from + 1);
    }
}

proof fn lemma_under(h: Seq<char>, name: Seq<char>)
    ensures
        under(h, name) <==> h == name || ("."@ + name).is_suffix_of(h),
{
    let tail = "."@ + name;
    if tail.is_suffix_of(h) {
        let sub = h.take(h.len() - tail.len());
        assert(h =~= sub + "."@ + name) by {
            assert(h.subrange(h.len() - tail.len(), h.len() as int) == tail);
            assert forall|k: int| 0 <= k < h.len() implies h[k] == (sub + "."@ + name)[k] by {
                if k >= sub.len() {
                    assert(h.subrange(h.len() - tail.len(), h.len() as int)[k - sub.len()]
                        == tail[k - sub.len()]);
                }
            }
        }
    }
    if exists|sub: Seq<char>| h == #[trigger] (sub + "."@ + name) {
        let sub = choose|sub: Seq<char>| h == #[trigger] (sub + "."@ + name);
        assert(h.subrange(h.len() - tail.len(), h.len() as int) =~= tail);
    }
}

/// The hosts that are excluded are the fourteen that name schemas and documents, and all below
/// them.
pub proof fn law_excluded_hosts_name_documents(h: Seq<char>)
    ensures
        is_excluded(h) <==> names_documents(h),
{
    let x = excluded_hosts();
    lemma_under(h, "w3.org"@);
    lemma_under(h, "ns.adobe.com"@);
    lemma_under(h, "purl.org"@);
    lemma_under(h, "schemas.microsoft.com"@);
    lemma_under(h, "webrtc.org"@);
    lemma_under(h, "ietf.org"@);
    lemma_under(h, "crbug.com"@);
    lemma_under(h, "chromium.org"@);
    lemma_under(h, "github.com"@);
    lemma_under(h, "curl.se"@);
    lemma_under(h, "creativecommons.org"@);
    lemma_under(h, "exif.org"@);
    lemma_under(h, "iptc.org"@);
    lemma_under(h, "xml.org"@);
    assert(x[0] == "w3.org"@ && x[1] == "ns.adobe.com"@ && x[2] == "purl.org"@ && x[3]
        == "schemas.microsoft.com"@ && x[4] == "webrtc.org"@ && x[5] == "ietf.org"@ && x[6]
        == "crbug.com"@ && x[7] == "chromium.org"@ && x[8] == "github.com"@ && x[9] == "curl.se"@
        && x[10] == "creativecommons.org"@ && x[11] == "exif.org"@ && x[12] == "iptc.org"@ && x[13]
        == "xml.org"@);
}

proof fn lemma_here(authority: Seq<char>, h: Seq<char>)
    ensures
        is_local(authority, h) <==> leads_here(authority, h),
{
    reveal_strlit("[::1]:");
    let p = "[::1]:"@;
    if p.is_prefix_of(authority) {
        assert(authority.take(6) =~= authority.subrange(0, 6));
        if authority.len() == 6 {
            assert(authority =~= authority.subrange(0, 6));
        }
    }
    if authority.len() > 6 && authority.take(6) == p {
        assert(authority.subrange(0, 6) =~= authority.take(6));
    }
    if authority == p {
        assert(authority.subrange(0, 6) =~= authority);
    }
}

/// The replacement of a URL is `http://localhost` with what follows its authority. There is none
/// for an empty authority or one that leads here; one that holds a percent sign is to be skipped.
pub proof fn law_replacement_goes_by_the_authority(
    url: Seq<char>,
    secure: bool,
    authority: Seq<char>,
    rest: Seq<char>,
    host: Seq<char>,
)
    requires
        made_of(url, secure, authority, rest),
        host_of(authority, host),
        url != "https://data.%1/Data/Upload.ashx?assetid=%2"@,
    ensures
        authority.len() == 0 || leads_here(authority, lowercase(host)) ==> replacement_of(
            url,
        ) is None,
        authority.len() > 0 && !leads_here(authority, lowercase(host)) ==> replacement_of(url)
            == Some(
            ("http://localhost"@ + rest, authority.contains('%'), lowercase(host)),
        ),
{
    lemma_parsed(url, secure, authority, rest);
    lemma_host(authority, host);
    lemma_here(authority, lowercase(host));
}

/// What is no URL of either scheme has no replacement.
pub proof fn law_other_schemes_have_no_replacement(url: Seq<char>)
    requires
        !(url.len() >= 7 && url.take(7) == "http://"@),
        !(url.len() >= 8 && url.take(8) == "https://"@),
    ensures
        replacement_of(url) is None,
{
    reveal_strlit("http://");
    reveal_strlit("https://");
    reveal_strlit("https://data.%1/Data/Upload.ashx?assetid=%2");
    if "http://"@.is_prefix_of(url) {
        assert(url.take(7) =~= url.subrange(0, 7));
    }
    if "https://"@.is_prefix_of(url) {
        assert(url.take(8) =~= url.subrange(0, 8));
    }
    if url == known_url() {
        assert(url.take(8) =~= "https://"@);
    }
}

/// A string is one URL exactly where its authority is legal and no other URL is joined to it.
pub proof fn law_clean_urls_are_single(
    url: Seq<char>,
    secure: bool,
    authority: Seq<char>,
    rest: Seq<char>,
)
    requires
        made_of(url, secure, authority, rest),
    ensures
        is_clean(url) <==> host_legal(authority) && !joined_to_another(authority, rest),
{
    lemma_parsed(url, secure, authority, rest);
    law_parts_are_held(authority + rest, "://"@);
    let a = (authority + rest).take(authority.len() as int);
    assert(a == authority);
    if is_clean(url) {
        assert forall|i: int| 0 <= i < authority.len() implies {
            let c = #[trigger] authority[i];
            'a' <= c <= 'z' || 'A' <= c <= 'Z' || '0' <= c <= '9' || c == '.' || c == '-' || c
                == ':' || c == '%' || c == '_' || c == '[' || c == ']' || c == '@'
        } by {
            assert(is_host_char(a[i]));
        }
    }
    if host_legal(authority) {
        assert forall|i: int| 0 <= i < a.len() implies is_host_char(#[trigger] a[i]) by {
            let c = authority[i];
        }
    }
}

/// What an entry says of where the string stands.
pub open spec fn entry_at(e: UrlView, rva: int, wide: bool, url: Seq<char>) -> bool {
    &&& e.rva == rva
    &&& e.original == url
    &&& e.encoding == (if wide {
        "utf16"@
    } else {
        "ascii"@
    })
    &&& e.length == (if wide {
        2 * (url.len() as int)
    } else {
        url.len() as int
    })
}

/// A URL of any length whose authority is legal, to which no other is joined, whose host is
/// neither local nor one of the documents, which holds no placeholder and whose replacement fits is
/// replaced: the entry is not skipped. For every other URL the entry is skipped for its cause, and
/// one that leads here has no entry.
pub proof fn law_url_is_replaced_unless_a_cause_forbids(
    rva: int,
    wide: bool,
    url: Seq<char>,
    secure: bool,
    authority: Seq<char>,
    rest: Seq<char>,
    host: Seq<char>,
)
    requires
        made_of(url, secure, authority, rest),
        host_of(authority, host),
        url != "https://data.%1/Data/Upload.ashx?assetid=%2"@,
    ensures
        ({
            let h = lowercase(host);
            let clean = host_legal(authority) && !joined_to_another(authority, rest);
            let fits = 16 + rest.len() <= url.len();
            let entry = url_entry(rva, wide, url);
            &&& entry matches Some(e) ==> entry_at(e, rva, wide, url)
            &&& !clean ==> entry is Some && entry->0.skipped && entry->0.replacement
                == Seq::<char>::empty() && entry->0.host == Seq::<char>::empty()
                && entry->0.reason == Some("not a single clean URL (concatenated blob)"@)
            &&& clean ==> (entry is None <==> leads_here(authority, h))
            &&& clean && !leads_here(authority, h) ==> {
                let e = entry->0;
                &&& e.host == h
                &&& e.replacement == (if fits {
                    "http://localhost"@ + rest
                } else {
                    "http://localhost"@
                })
                &&& e.skipped == e.reason is Some
                &&& e.reason == (if authority.contains('%') {
                    Some("placeholder authority; no generic replacement"@)
                } else if names_documents(lowercase(h)) {
                    Some("non-service host '"@ + h + "' excluded"@)
                } else if !fits {
                    Some("replacement longer than original"@)
                } else {
                    None
                })
            }
        }),
{
    reveal_strlit("http://localhost");
    law_clean_urls_are_single(url, secure, authority, rest);
    law_replacement_goes_by_the_authority(url, secure, authority, rest, host);
    law_excluded_hosts_name_documents(lowercase(lowercase(host)));
    assert(("http://localhost"@ + rest).len() == 16 + rest.len());
}

/// The URL that asks for the latest version of a place keeps its placeholders: its replacement has
/// its length and is not skipped.
pub proof fn law_version_url_keeps_its_placeholders(rva: int, wide: bool)
    requires
        !names_documents(lowercase("data.%1"@)),
    ensures
        url_entry(rva, wide, "https://data.%1/Data/Upload.ashx?assetid=%2"@) matches Some(e)
            && !e.skipped && e.replacement == "http://localhost/Data/Upload.ashx?a=%1&b=%2"@
            && e.host == "data.%1"@ && entry_at(
            e,
            rva,
            wide,
            "https://data.%1/Data/Upload.ashx?assetid=%2"@,
        ) && e.replacement.len() == e.original.len(),
{
    reveal_strlit("https://data.%1/Data/Upload.ashx?assetid=%2");
    reveal_strlit("http://localhost/Data/Upload.ashx?a=%1&b=%2");
    reveal_strlit("https://");
    reveal_strlit("://");
    let url = "https://data.%1/Data/Upload.ashx?assetid=%2"@;
    let authority = url.subrange(8, 15);
    let rest = url.subrange(15, 43);
    assert("https://"@ =~= url.subrange(0, 8));
    assert(url =~= "https://"@ + authority + rest);
    assert(authority[0] == 'd' && authority[1] == 'a' && authority[2] == 't' && authority[3] == 'a'
        && authority[4] == '.' && authority[5] == '%' && authority[6] == '1');
    assert(rest[0] == '/');
    assert(made_of(url, true, authority, rest));
    law_clean_urls_are_single(url, true, authority, rest);
    assert(!joined_to_another(authority, rest)) by {
        if joined_to_another(authority, rest) {
            let (a, b) = choose|a: Seq<char>, b: Seq<char>|
                authority + rest == #[trigger] (a + "://"@ + b);
            let s = authority + rest;
            let k = a.len() as int;
            assert(s.len() == 35);
            assert(s =~= url.subrange(8, 43));
            assert((a + "://"@ + b)[k] == "://"@[0]);
            assert((a + "://"@ + b).len() == a.len() + 3 + b.len());
            assert(s[k] == url.subrange(8, 43)[k]);
            assert(url.subrange(8, 43)[k] == url[8 + k]);
            assert(url[8 + k] == ':');
        }
    }
    assert(host_legal(authority));
    law_excluded_hosts_name_documents(lowercase("data.%1"@));
}

/// Every service URL that stands in the image by itself, in ASCII or UTF-16, has an entry that
/// replaces it.
pub proof fn law_service_urls_are_replaced(
    image: Seq<u8>,
    wide: bool,
    i: int,
    end: int,
    secure: bool,
    authority: Seq<char>,
    rest: Seq<char>,
    host: Seq<char>,
)
    requires
        if wide {
            wide_url_stands(image, i, end)
        } else {
            url_stands(image, i, end)
        },
        made_of(
            if wide {
                wide_chars_of(image, i, end)
            } else {
                chars_of(image, i, end)
            },
            secure,
            authority,
            rest,
        ),
        host_of(authority, host),
        host_legal(authority),
        !joined_to_another(authority, rest),
        !leads_here(authority, lowercase(host)),
        !names_documents(lowercase(lowercase(host))),
        !authority.contains('%'),
        16 + rest.len() <= (if secure {
            8int
        } else {
            7int
        }) + authority.len() + rest.len(),
    ensures
        exists|e: UrlView|
            {
                &&& #[trigger] entries_of(image, wide).contains(e)
                &&& e.rva == i
                &&& !e.skipped
                &&& e.replacement == "http://localhost"@ + rest
                &&& e.host == lowercase(host)
                &&& e.length == end - i
            },
{
    reveal_strlit("http://");
    reveal_strlit("https://");
    let url = if wide {
        wide_chars_of(image, i, end)
    } else {
        chars_of(image, i, end)
    };
    if wide {
        law_wide_url_strings_are_found(image, i, end);
    } else {
        law_url_strings_are_found(image, i, end);
    }
    let found = found_urls(image, wide);
    let j = choose|j: int| 0 <= j < found.len() && found[j] == (i, url);
    if url == known_url() {
        lemma_parsed(url, secure, authority, rest);
        lemma_known_placeholder(secure, authority, rest);
    }
    law_url_is_replaced_unless_a_cause_forbids(i, wide, url, secure, authority, rest, host);
    law_found_urls_have_entries(found, wide, j);
    let e = url_entry(i, wide, url)->0;
    assert(url.len() == (if secure {
        8int
    } else {
        7int
    }) + authority.len() + rest.len());
    assert(!e.skipped);
    assert(e.length == end - i);
    assert(entries_of(image, wide).contains(e));
}

proof fn lemma_known_placeholder(secure: bool, authority: Seq<char>, rest: Seq<char>)
    requires
        made_of(known_url(), secure, authority, rest),
    ensures
        authority.contains('%'),
{
    reveal_strlit("https://data.%1/Data/Upload.ashx?assetid=%2");
    reveal_strlit("https://");
    reveal_strlit("http://");
    let url = known_url();
    assert(url[4] == 's');
    if !secure {
        assert("http://"@[4] == ':');
        assert(url[4] == ':');
    }
    if authority.len() <= 5 {
        if rest.len() > 0 {
            assert(url[8 + authority.len() as int] == rest[0]);
        }
    } else {
        assert(authority[5] == url[13]);
        assert(url[13] == '%');
    }
}

} // verus!
