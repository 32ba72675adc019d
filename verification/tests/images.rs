use sha2::{Digest, Sha256};
use studio_offline::cookie::{
    find_security_cookie, jnz_patch, last_guarded_je, make_cookie_entry, walk_on, Decoded, Walk,
};
use studio_offline::pe::{
    build_image, extent, load, section_flags, trim_nuls, PeHeaders, PeImage, RawSection,
};
use studio_offline::runtime::{runtime_plan, search_cookie, turn_jump, CookieSearch};

const TEXT: &[u8] =
    b"[FLog::StudioCookieManager] Security cookie is cached so we proceed saving now.";

fn section(name: &[u8], va: u32, vs: u32, ptr: u32, raw: u32, flags: u32) -> RawSection {
    RawSection {
        name: name.to_vec(),
        virtual_address: va,
        virtual_size: vs,
        pointer_to_raw_data: ptr,
        size_of_raw_data: raw,
        characteristics: flags,
    }
}

fn executable(size_of_image: u32) -> Vec<u8> {
    let mut b = vec![0u8; 0x400];
    b[0..2].copy_from_slice(b"MZ");
    b[0x3c..0x40].copy_from_slice(&0x80u32.to_le_bytes());
    b[0x80..0x84].copy_from_slice(b"PE\0\0");
    b[0x84..0x86].copy_from_slice(&0x8664u16.to_le_bytes());
    b[0x86..0x88].copy_from_slice(&1u16.to_le_bytes());
    b[0x94..0x96].copy_from_slice(&240u16.to_le_bytes());
    b[0x96..0x98].copy_from_slice(&0x22u16.to_le_bytes());
    let o = 0x98;
    b[o..o + 2].copy_from_slice(&0x20bu16.to_le_bytes());
    b[o + 24..o + 32].copy_from_slice(&0x140000000u64.to_le_bytes());
    b[o + 32..o + 36].copy_from_slice(&0x1000u32.to_le_bytes());
    b[o + 36..o + 40].copy_from_slice(&0x200u32.to_le_bytes());
    b[o + 56..o + 60].copy_from_slice(&size_of_image.to_le_bytes());
    b[o + 60..o + 64].copy_from_slice(&0x200u32.to_le_bytes());
    b[o + 68..o + 70].copy_from_slice(&3u16.to_le_bytes());
    b[o + 108..o + 112].copy_from_slice(&16u32.to_le_bytes());
    let s = o + 240;
    b[s..s + 5].copy_from_slice(b".text");
    b[s + 8..s + 12].copy_from_slice(&0x150u32.to_le_bytes());
    b[s + 12..s + 16].copy_from_slice(&0x1000u32.to_le_bytes());
    b[s + 16..s + 20].copy_from_slice(&0x200u32.to_le_bytes());
    b[s + 20..s + 24].copy_from_slice(&0x200u32.to_le_bytes());
    b[s + 36..s + 40].copy_from_slice(&0x6000_0020u32.to_le_bytes());
    for i in 0x200..0x400 {
        b[i] = (i % 251) as u8;
    }
    b
}

#[test]
fn loads_an_executable() {
    let bytes = executable(0x2000);
    let image = load(&bytes).unwrap();
    assert_eq!(image.image_base, 0x140000000);
    assert_eq!(image.image_size, 0x2000);
    assert_eq!(image.reconstructed.len(), 0x2000);
    assert_eq!(image.file_size, 0x400);
    assert_eq!(image.sections.len(), 1);
    let s = &image.sections[0];
    assert_eq!(s.name, ".text");
    assert_eq!((s.virtual_address, s.virtual_size), (0x1000, 0x150));
    assert_eq!((s.raw_pointer, s.raw_size), (0x200, 0x200));
    assert!(s.executable && s.readable);
    assert_eq!(&image.reconstructed[0x1000..0x1150], &bytes[0x200..0x350]);
    assert!(image.reconstructed[..0x1000].iter().all(|b| *b == 0));
    assert!(image.reconstructed[0x1150..].iter().all(|b| *b == 0));
    let digest: Vec<String> = Sha256::digest(&bytes)
        .iter()
        .map(|b| format!("{:02x}", b))
        .collect();
    assert_eq!(image.sha256, digest.concat());
    assert_eq!(image.sha256.len(), 64);
}

#[test]
fn size_falls_back_to_the_sections() {
    let image = load(&executable(0)).unwrap();
    assert_eq!(image.image_size, 0x1150);
}

#[test]
fn what_is_no_executable_is_refused() {
    let e = load(b"").unwrap_err();
    assert!(e.starts_with("PE parse failed: "), "{}", e);
    let e = load(b"not an executable at all, only some text of a certain length").unwrap_err();
    assert!(e.starts_with("PE parse failed: "), "{}", e);
    assert!(e.len() > "PE parse failed: ".len());
}

#[test]
fn later_sections_lie_over_earlier_ones() {
    let bytes: Vec<u8> = (0..100u8).collect();
    let h = PeHeaders {
        image_base: 7,
        size_of_image: Some(20),
        sections: vec![
            section(b"a\0\0", 2, 10, 10, 10, 0x2000_0000),
            section(b"b", 5, 3, 90, 50, 0x4000_0000),
            section(b"c", 15, 50, 40, 50, 0),
            section(b"d", 30, 5, 0, 5, 0),
            section(b"e", 0, 2, 99, 5, 0),
            section(b"f", 1, 2, 200, 5, 0),
        ],
    };
    assert_eq!(extent(&h), Some(20));
    let image = build_image(&h, &bytes, &[0xAB, 0x01]);
    assert_eq!(
        image.reconstructed,
        vec![
            99, 0, 10, 11, 12, 90, 91, 92, 16, 17, 18, 19, 0, 0, 0, 40, 41, 42, 43, 44
        ]
    );
    assert_eq!(image.sha256, "ab01");
    assert_eq!(image.file_size, 100);
    let names: Vec<&str> = image.sections.iter().map(|s| s.name.as_str()).collect();
    assert_eq!(names, vec!["a", "b", "c", "d", "e", "f"]);
    assert!(image.sections[0].executable && !image.sections[0].readable);
    assert!(!image.sections[1].executable && image.sections[1].readable);
}

#[test]
fn extents_and_flags() {
    let h = |size| PeHeaders {
        image_base: 0,
        size_of_image: size,
        sections: vec![section(b"", 10, 5, 0, 0, 0), section(b"", 3, 4, 0, 0, 0)],
    };
    assert_eq!(extent(&h(None)), Some(15));
    assert_eq!(extent(&h(Some(0))), Some(15));
    assert_eq!(extent(&h(Some(8))), Some(8));
    assert_eq!(section_flags(0x6000_0000), (true, true));
    assert_eq!(section_flags(0x9FFF_FFFF), (false, false));
    assert_eq!(trim_nuls("a\0b\0\0"), "a\0b");
    assert_eq!(trim_nuls("\0"), "");
}

#[test]
fn broken_section_names_are_replaced() {
    let h = PeHeaders {
        image_base: 0,
        size_of_image: Some(1),
        sections: vec![section(b"a\xFFb\0", 0, 0, 0, 0, 0)],
    };
    assert_eq!(build_image(&h, b"", b"").sections[0].name, "a\u{FFFD}b");
}

fn cookie_image(code: &[u8]) -> PeImage {
    let mut buf = vec![0x90u8; 0x800];
    let xref = 0x200;
    buf[xref - code.len()..xref].copy_from_slice(code);
    buf[xref..xref + 3].copy_from_slice(&[0x48, 0x8D, 0x15]);
    buf[xref + 3..xref + 7].copy_from_slice(&(0x400i32 - 0x207).to_le_bytes());
    buf[0x400..0x400 + TEXT.len()].copy_from_slice(TEXT);
    PeImage {
        image_base: 0x140000000,
        image_size: buf.len(),
        sections: vec![],
        reconstructed: buf,
        sha256: String::new(),
        file_size: 0,
    }
}

#[test]
fn short_jump_of_the_cookie_check() {
    // cmp eax, 1; je +16
    let img = cookie_image(&[0x83, 0xF8, 0x01, 0x74, 0x10]);
    let e = find_security_cookie(&img).unwrap();
    assert_eq!(e.string_rva, 0x400);
    assert_eq!(e.xref_rva, 0x200);
    assert_eq!(e.jz_rva, 0x1FE);
    assert_eq!(e.opcode_len, 2);
    assert_eq!(e.original_opcode, vec![0x74, 0x10]);
    assert_eq!(e.patch_bytes, vec![0x75]);
}

#[test]
fn near_jump_of_the_cookie_check() {
    // cmp eax, 1; je near; mov eax, ebx
    let img = cookie_image(&[0x83, 0xF8, 0x01, 0x0F, 0x84, 1, 2, 0, 0, 0x8B, 0xC3]);
    let e = find_security_cookie(&img).unwrap();
    assert_eq!(e.jz_rva, 0x1F8);
    assert_eq!(e.original_opcode, vec![0x0F, 0x84, 1, 2, 0, 0]);
    assert_eq!(e.patch_bytes, vec![0x0F, 0x85]);
    match search_cookie(&img) {
        CookieSearch::Patch(jz, bytes) => assert_eq!((jz, bytes), (0x1F8, vec![0x0F, 0x85])),
        other => panic!("{:?}", other),
    }
}

#[test]
fn last_jump_behind_a_compare_counts() {
    // cmp; je; cmp; je; test eax, eax; je
    let img = cookie_image(&[
        0x83, 0xF8, 0x01, 0x74, 0x10, 0x83, 0xF8, 0x02, 0x74, 0x20, 0x85, 0xC0, 0x74, 0x30,
    ]);
    let e = find_security_cookie(&img).unwrap();
    assert_eq!(e.original_opcode, vec![0x74, 0x20]);
    assert_eq!(e.jz_rva, 0x1FA);
}

#[test]
fn missing_parts_of_the_cookie_check() {
    assert!(find_security_cookie(&cookie_image(&[])).is_none());
    assert!(matches!(
        search_cookie(&cookie_image(&[])),
        CookieSearch::NoJump(0x200)
    ));
    let mut img = cookie_image(&[0x83, 0xF8, 0x01, 0x74, 0x10]);
    img.reconstructed[0x201] = 0x90;
    assert!(matches!(search_cookie(&img), CookieSearch::NoReference(0x400)));
    img.reconstructed[0x400] = 0;
    assert!(matches!(search_cookie(&img), CookieSearch::NoText));
    assert!(find_security_cookie(&img).is_none());
}

#[test]
fn jumps_are_turned_round() {
    assert_eq!(jnz_patch(&[0x74, 9]), Some(vec![0x75]));
    assert_eq!(jnz_patch(&[0x0F, 0x84, 1]), Some(vec![0x0F, 0x85]));
    assert_eq!(jnz_patch(&[0x0F, 0x85]), None);
    assert_eq!(jnz_patch(&[0x0F]), None);
    assert_eq!(jnz_patch(&[]), None);
    assert!(make_cookie_entry(1, 2, 3, vec![0x2E, 0x74, 0]).is_none());
    assert!(matches!(turn_jump(5, &[0x2E, 0x74]), CookieSearch::OtherForm(5)));
}

#[test]
fn guarded_jump_among_instructions() {
    let d = |je, compares| Decoded { len: 2, short_je: je, near_je: false, compares };
    assert_eq!(last_guarded_je(&[d(true, false)]), None);
    assert_eq!(last_guarded_je(&[d(false, true), d(true, false)]), Some(1));
    assert_eq!(
        last_guarded_je(&[d(false, true), d(true, false), d(false, false), d(true, false)]),
        Some(1)
    );
    let near = Decoded { len: 6, short_je: false, near_je: true, compares: false };
    assert_eq!(last_guarded_je(&[d(false, true), near]), Some(1));
    assert_eq!(walk_on(0x1000, 10, 5, 15), Walk::Met);
    assert_eq!(walk_on(0x1000, 16, 5, 15), Walk::Lost);
    assert_eq!(walk_on(0x1000, 10, 4, 15), Walk::On);
    assert_eq!(walk_on(u64::MAX, 0, 4, 15), Walk::Lost);
}

#[test]
fn running_program_without_offsets() {
    let mut img = cookie_image(&[0x83, 0xF8, 0x01, 0x74, 0x10]);
    let url = b"https://data.%1/Data/Upload.ashx?assetid=%2";
    img.reconstructed[0x500..0x500 + url.len()].copy_from_slice(url);
    let plan = runtime_plan(&img);
    assert_eq!(plan.url_on_component, None);
    assert_eq!(plan.trust_check, None);
    assert_eq!(plan.http_request_url, None);
    let (at, bytes) = plan.url.unwrap();
    assert_eq!(at, 0x500);
    assert_eq!(bytes, b"http://localhost/Data/Upload.ashx?a=%1&b=%2".to_vec());
    assert!(matches!(plan.cookie, CookieSearch::Patch(0x1FE, _)));
}
