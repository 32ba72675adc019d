use studio_offline::pe::PeImage;
use studio_offline::scan_patterns::scan_patterns;


fn fake_image(payload: Vec<u8>) -> PeImage {
    let len = payload.len();
    PeImage {
        image_base: 0x140000000,
        image_size: len,
        sections: vec![],
        reconstructed: payload,
        sha256: "test".to_string(),
        file_size: len as u64,
    }
}

#[test]
fn finds_async_trust_check() {
    let pattern = b"\x44\x0F\xB6\x4C\x24\x40\x45\x0F\xB6\xC4\x33\xD2\xE8\x00\x00\x00\x00\x84\xC0\x0F\x85\x00\x00\x00\x00\x48\x8D\x05\x00\x00\x00\x00";
    let mut buf = vec![0u8; 512];
    buf[100..100 + pattern.len()].copy_from_slice(pattern);
    let img = fake_image(buf);
    let found = scan_patterns(&img);
    assert_eq!(found.len(), 1);
    assert_eq!(found[0].name, "ASYNC_TRUST_CHECK");
    assert_eq!(found[0].rva, 100);
    assert_eq!(found[0].patch_offset, Some(17));
    assert_eq!(found[0].patch_bytes, Some(vec![0x0C, 0x01]));
}

#[test]
fn finds_fetcher_jne() {
    let pattern = b"\x80\xBD\xA8\x01\x00\x00\x00\x0F\x85\x66\x02\x00\x00\x49\x8B\xD5\x48\x8D\x4C\x24\x50";
    let mut buf = vec![0u8; 512];
    buf[50..50 + pattern.len()].copy_from_slice(pattern);
    let img = fake_image(buf);
    let found = scan_patterns(&img);
    assert_eq!(found.len(), 1);
    assert_eq!(found[0].name, "FETCHER_JNE_THROW");
    assert_eq!(found[0].rva, 50);
}
