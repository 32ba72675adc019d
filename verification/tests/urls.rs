use studio_offline::pe::PeImage;
use studio_offline::scan_urls::find_urls;


fn fake_image(payload: Vec<u8>) -> PeImage {
    let len = payload.len();
    PeImage {
        image_base: 0x140000000,
        image_size: len,
        sections: vec![],
        reconstructed: payload,
        sha256: "test".to_string(),
        file_size: len as u64,
    }
}

#[test]
fn finds_ascii_urls() {
    let mut buf = vec![0u8; 256];
    let url = b"https://www.roblox.com/asset/?id=123";
    buf[32..32 + url.len()].copy_from_slice(url);
    let img = fake_image(buf);
    let found = find_urls(&img);
    assert_eq!(found.len(), 1);
    assert_eq!(found[0].host, "www.roblox.com");
    assert_eq!(found[0].replacement, "http://localhost/asset/?id=123");
    assert_eq!(found[0].rva, 32);
}

#[test]
fn skips_localhost() {
    let mut buf = vec![0u8; 256];
    let url = b"http://localhost/asset/?id=123";
    buf[16..16 + url.len()].copy_from_slice(url);
    let img = fake_image(buf);
    assert_eq!(find_urls(&img).len(), 0);
}

#[test]
fn handles_placeholder_host() {
    let mut buf = vec![0u8; 256];
    let url = b"https://data.%1/Data/Upload.ashx?assetid=%2";
    buf[8..8 + url.len()].copy_from_slice(url);
    let img = fake_image(buf);
    let found = find_urls(&img);
    assert_eq!(found.len(), 1);
    assert_eq!(
        found[0].replacement,
        "http://localhost/Data/Upload.ashx?a=%1&b=%2"
    );
    assert!(!found[0].skipped);
}

#[test]
fn finds_utf16_urls() {
    let mut buf = vec![0u8; 512];
    let url = "https://api.roblox.com/foo";
    let units: Vec<u16> = url.encode_utf16().collect();
    let mut pos = 64;
    for u in units {
        buf[pos] = (u & 0xff) as u8;
        buf[pos + 1] = (u >> 8) as u8;
        pos += 2;
    }
    let img = fake_image(buf);
    let found = find_urls(&img);
    assert_eq!(found.len(), 1);
    assert_eq!(found[0].encoding, "utf16");
    assert_eq!(found[0].replacement, "http://localhost/foo");
}

#[test]
fn skips_xmp_namespace_blob() {
    // An XMP metadata packet embeds w3.org/ns.adobe.com namespace URLs.
    // These are not service endpoints; they must not produce a patchable
    // entry (the old scanner captured the entire blob and corrupted it).
    let mut buf = vec![0u8; 2048];
    let blob = br#"<?xpacket begin=""><rdf:RDF xmlns:rdf="http://www.w3.org/1999/02/22-rdf-syntax-ns#">"#;
    buf[64..64 + blob.len()].copy_from_slice(blob);
    let img = fake_image(buf);
    let found = find_urls(&img);
    assert!(
        found.iter().all(|e| e.skipped),
        "XMP namespace URLs must be skipped: {:?}",
        found.iter().map(|e| (&e.host, &e.skipped)).collect::<Vec<_>>()
    );
}

#[test]
fn skips_concatenated_urls() {
    // Two URLs joined without a separator in the binary must not be
    // captured as a single blob.
    let mut buf = vec![0u8; 512];
    let blob = b"https://luau.orghttps://create.roblox.com/foo";
    buf[32..32 + blob.len()].copy_from_slice(blob);
    let img = fake_image(buf);
    let found = find_urls(&img);
    assert!(found.iter().all(|e| e.skipped));
}

#[test]
fn url_with_space_is_truncated_not_blob() {
    // A metadata string containing spaces/quotes after a URL must not
    // swallow the trailing junk.
    let mut buf = vec![0u8; 512];
    let blob = b"https://www.roblox.com/asset \"extra junk <tag>\"";
    buf[16..16 + blob.len()].copy_from_slice(blob);
    let img = fake_image(buf);
    let found = find_urls(&img);
    assert_eq!(found.len(), 1);
    assert_eq!(found[0].original, "https://www.roblox.com/asset");
    assert_eq!(found[0].replacement, "http://localhost/asset");
}
