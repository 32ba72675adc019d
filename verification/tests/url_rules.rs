use studio_offline::pe::PeImage;
use studio_offline::scan_urls::{
    classify, find_urls, is_clean_single_url, is_excluded_host, local_replacement,
    localhost_replacement, scan_ascii_urls, scan_utf16_urls,
};

fn image_with(pieces: &[(usize, &[u8])]) -> PeImage {
    let mut buf = vec![0u8; 2048];
    for (at, bytes) in pieces {
        buf[*at..*at + bytes.len()].copy_from_slice(bytes);
    }
    PeImage {
        image_base: 0x140000000,
        image_size: buf.len(),
        sections: vec![],
        reconstructed: buf,
        sha256: String::new(),
        file_size: 2048,
    }
}

fn wide(text: &str) -> Vec<u8> {
    text.encode_utf16().flat_map(|u| u.to_le_bytes()).collect()
}

#[test]
fn nul_terminated_url_behind_printable_byte_is_found() {
    let img = image_with(&[(100, b"xhttps://www.roblox.com/games/")]);
    let found = find_urls(&img);
    assert_eq!(found.len(), 1);
    assert_eq!(found[0].rva, 101);
    assert_eq!(found[0].replacement, "http://localhost/games/");
    assert_eq!(found[0].length, 29);
    assert!(!found[0].skipped);
}

#[test]
fn mid_string_url_without_nul_is_not_found() {
    let img = image_with(&[(100, b"=\"http://www.w3.org/1999/\">")]);
    assert_eq!(find_urls(&img).len(), 0);
}

#[test]
fn boundary_alone_is_enough() {
    let img = image_with(&[(100, b" https://a.example.com/x y")]);
    let found = scan_ascii_urls(&img.reconstructed);
    assert_eq!(found, vec![(101, "https://a.example.com/x".to_string())]);
}

#[test]
fn concatenated_tail_is_not_matched_again() {
    let img = image_with(&[(32, b"https://luau.orghttps://create.roblox.com/foo")]);
    let found = find_urls(&img);
    assert_eq!(found.len(), 1);
    assert_eq!(found[0].rva, 32);
    assert_eq!(
        found[0].reason.as_deref(),
        Some("not a single clean URL (concatenated blob)")
    );
    assert_eq!(found[0].replacement, "");
    assert_eq!(found[0].host, "");
}

#[test]
fn short_and_long_strings_are_dropped() {
    assert_eq!(scan_ascii_urls(b"http://\0\0\0\0"), vec![]);
    assert_eq!(scan_ascii_urls(b"http://").len(), 0);
    let mut long = b"http://".to_vec();
    long.extend(vec![b'a'; 505]);
    assert_eq!(long.len(), 512);
    long.push(0);
    assert_eq!(scan_ascii_urls(&long).len(), 1);
    long.insert(8, b'a');
    assert_eq!(scan_ascii_urls(&long).len(), 0);
}

#[test]
fn strings_ascend_and_do_not_overlap() {
    let img = image_with(&[
        (300, b"http://c.example.org/"),
        (10, b"http://a.example.org/"),
        (60, b"http://b.example.org/"),
    ]);
    let found = scan_ascii_urls(&img.reconstructed);
    let places: Vec<usize> = found.iter().map(|f| f.0).collect();
    assert_eq!(places, vec![10, 60, 300]);
    for pair in found.windows(2) {
        assert!(pair[0].0 + pair[0].1.len() <= pair[1].0);
    }
}

#[test]
fn entries_hold_what_stands_there() {
    let w = wide("https://api.roblox.com/v1/x");
    let img = image_with(&[(40, b"https://www.roblox.com/a?b=c"), (400, &w)]);
    let found = find_urls(&img);
    assert_eq!(found.len(), 2);
    let a = &found[0];
    assert_eq!(a.encoding, "ascii");
    assert_eq!(
        &img.reconstructed[a.rva..a.rva + a.length],
        a.original.as_bytes()
    );
    let b = &found[1];
    assert_eq!(b.encoding, "utf16");
    assert_eq!(b.rva, 400);
    assert_eq!(b.length, 54);
    assert_eq!(&img.reconstructed[b.rva..b.rva + b.length], &w[..]);
    assert_eq!(b.replacement, "http://localhost/v1/x");
}

#[test]
fn utf16_boundaries_and_odd_offsets() {
    let mut buf = vec![0u8; 300];
    let url = wide("https://a.roblox.com/x");
    buf[101..101 + url.len()].copy_from_slice(&url);
    assert_eq!(scan_utf16_urls(&buf).len(), 0);
    let mut buf = vec![0u8; 300];
    let text = wide("zhttps://a.roblox.com/x\"");
    buf[100..100 + text.len()].copy_from_slice(&text);
    assert_eq!(scan_utf16_urls(&buf).len(), 0);
    let mut buf = vec![0u8; 300];
    let text = wide("zhttps://a.roblox.com/x");
    buf[100..100 + text.len()].copy_from_slice(&text);
    assert_eq!(
        scan_utf16_urls(&buf),
        vec![(102, "https://a.roblox.com/x".to_string())]
    );
}

#[test]
fn local_hosts_have_no_replacement() {
    for url in [
        "http://localhost/x",
        "http://LOCALHOST:8080/x",
        "https://127.0.0.1/",
        "http://0.0.0.0:1/",
        "http://[::1]/x",
        "http://[::1]:80/x",
        "http:///x",
        "https://",
        "ftp://a.b/",
    ] {
        assert!(localhost_replacement(url).is_none(), "{}", url);
    }
}

#[test]
fn replacement_keeps_what_follows_the_authority() {
    assert_eq!(
        localhost_replacement("https://WWW.Roblox.com:443/a/b?c#d"),
        Some((
            "http://localhost/a/b?c#d".to_string(),
            false,
            "www.roblox.com".to_string()
        ))
    );
    assert_eq!(
        localhost_replacement("https://x.com?q"),
        Some(("http://localhost?q".to_string(), false, "x.com".to_string()))
    );
    assert_eq!(
        localhost_replacement("https://data.%1/Other"),
        Some(("http://localhost/Other".to_string(), true, "data.%1".to_string()))
    );
    assert_eq!(
        local_replacement("[2001:db8::1]", "/x", "[2001".to_string()),
        Some(("http://localhost/x".to_string(), false, "[2001".to_string()))
    );
}

#[test]
fn known_url_has_a_replacement_of_its_length() {
    let url = "https://data.%1/Data/Upload.ashx?assetid=%2";
    let (text, skipped, host) = localhost_replacement(url).unwrap();
    assert_eq!(text.len(), url.len());
    assert_eq!(text, "http://localhost/Data/Upload.ashx?a=%1&b=%2");
    assert!(!skipped);
    assert_eq!(host, "data.%1");
}

#[test]
fn every_reason_to_skip() {
    let img = image_with(&[
        (16, b"https://data.%1/Data/Other.ashx"),
        (80, b"https://schemas.MICROSOFT.com/x"),
        (160, b"http://a.b/cdef"),
        (240, b"https://a\\b.com/"),
    ]);
    let found = find_urls(&img);
    assert_eq!(found.len(), 4);
    assert!(found.iter().all(|e| e.skipped));
    assert_eq!(
        found[0].reason.as_deref(),
        Some("placeholder authority; no generic replacement")
    );
    assert_eq!(
        found[1].reason.as_deref(),
        Some("non-service host 'schemas.microsoft.com' excluded")
    );
    assert_eq!(
        found[2].reason.as_deref(),
        Some("replacement longer than original")
    );
    assert_eq!(found[2].replacement, "http://localhost");
    assert_eq!(
        found[3].reason.as_deref(),
        Some("not a single clean URL (concatenated blob)")
    );
}

#[test]
fn excluded_hosts_with_their_subdomains() {
    for host in ["w3.org", "www.w3.org", "a.b.github.com", "xml.org", "ns.adobe.com"] {
        assert!(is_excluded_host(host), "{}", host);
    }
    for host in ["notw3.org", "w3.org.example", "adobe.com", "github.co", ""] {
        assert!(!is_excluded_host(host), "{}", host);
    }
}

#[test]
fn verdicts_in_their_order() {
    assert_eq!(classify(false, "h", false, true), (false, None));
    assert_eq!(
        classify(true, "h", true, false).1.unwrap(),
        "placeholder authority; no generic replacement"
    );
    assert_eq!(
        classify(false, "h", true, false).1.unwrap(),
        "non-service host 'h' excluded"
    );
    assert_eq!(
        classify(false, "h", false, false).1.unwrap(),
        "replacement longer than original"
    );
}

#[test]
fn clean_urls() {
    assert!(is_clean_single_url("https://a-b.c_d:80%@[x]/whatever<"));
    assert!(!is_clean_single_url("https://a b/"));
    assert!(!is_clean_single_url("https:///x"));
    assert!(!is_clean_single_url("https://a/x?u=http://b"));
    assert!(!is_clean_single_url("a.b"));
}
