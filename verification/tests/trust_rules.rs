use studio_offline::code::{jcc_info, read_i32, rva_from, wrapped};
use studio_offline::pe::PeImage;
use studio_offline::scan::scan;
use studio_offline::scan_patterns::{
    can_compare, find_byte_pattern, matches_at, scan_patterns, PatternEntry, ASYNC_TRUST_CHECK,
    HTTP_REQUEST_URL, TRUSTCHECK, URL_ONCOMPONENT,
};
use studio_offline::scan_trust::{can_read_callers, find_trust_checks, find_trust_strings};

fn image(buf: Vec<u8>) -> PeImage {
    let len = buf.len();
    PeImage {
        image_base: 0x140000000,
        image_size: len,
        sections: vec![],
        reconstructed: buf,
        sha256: String::new(),
        file_size: len as u64,
    }
}

fn put(buf: &mut [u8], at: usize, bytes: &[u8]) {
    buf[at..at + bytes.len()].copy_from_slice(bytes);
}

fn call(buf: &mut [u8], at: usize, target: usize) {
    buf[at] = 0xE8;
    let disp = target as i64 - (at as i64 + 5);
    put(buf, at + 1, &(disp as i32).to_le_bytes());
}

fn lea(buf: &mut [u8], at: usize, target: usize) {
    put(buf, at, &[0x48, 0x8D, 0x0D]);
    let disp = target as i64 - (at as i64 + 7);
    put(buf, at + 3, &(disp as i32).to_le_bytes());
}

fn seeded() -> Vec<u8> {
    let mut buf = vec![0u8; 0x5000];
    call(&mut buf, 0x2000, 0x1000);
    put(&mut buf, 0x2005, &[0x84, 0xC0, 0x75, 0x20]);
    lea(&mut buf, 0x2010, 0x3000);
    put(&mut buf, 0x3000, b"x is not trusted");
    buf
}

#[test]
fn string_anchored_short_gate() {
    // "is not trusted" begins two bytes behind the text and has its own reference.
    let mut buf = seeded();
    lea(&mut buf, 0x2010, 0x3002);
    let found = find_trust_checks(&image(buf.clone()), &[]);
    assert_eq!(found.len(), 1);
    let e = &found[0];
    assert_eq!(e.name, "TRUST_CHECK_0");
    assert_eq!(e.rva, 0x2000);
    assert_eq!(e.pattern_bytes, buf[0x2000..0x2009].to_vec());
    assert_eq!(e.pattern_mask, b"x????xxx?".to_vec());
    assert_eq!(
        e.description,
        "trust gate: test al,al -> or al,1 (fn rva 0x1000)"
    );
    assert!(matches_at(&buf, &e.pattern_bytes, &e.pattern_mask, e.rva));
}

#[test]
fn near_gate_anchors_both_opcode_bytes() {
    let mut buf = seeded();
    put(&mut buf, 0x2007, &[0x0F, 0x85, 0x40, 0, 0, 0]);
    lea(&mut buf, 0x2010, 0x3002);
    let found = find_trust_checks(&image(buf), &[]);
    assert_eq!(found[0].pattern_mask, b"x????xxxx????".to_vec());
}

#[test]
fn nearest_gate_decides() {
    let mut buf = seeded();
    lea(&mut buf, 0x2010, 0x3002);
    // An earlier gate that also jumps over the reference.
    call(&mut buf, 0x1FF0, 0x1800);
    put(&mut buf, 0x1FF5, &[0x84, 0xC0, 0x75, 0x40]);
    let found = find_trust_checks(&image(buf), &[]);
    assert_eq!(found.len(), 1);
    assert_eq!(found[0].rva, 0x2000);
}

#[test]
fn jump_must_decide_on_the_reference() {
    // A jne that lands before the reference does not skip it.
    let mut buf = seeded();
    lea(&mut buf, 0x2010, 0x3002);
    buf[0x2008] = 0x05;
    assert_eq!(find_trust_checks(&image(buf), &[]).len(), 0);
    // A je whose target lies behind the reference does not lead to it.
    let mut buf = seeded();
    lea(&mut buf, 0x2010, 0x3002);
    buf[0x2007] = 0x74;
    assert_eq!(find_trust_checks(&image(buf.clone()), &[]).len(), 0);
    buf[0x2008] = 0x07;
    assert_eq!(find_trust_checks(&image(buf), &[]).len(), 1);
}

#[test]
fn every_caller_of_the_function_is_gated() {
    let mut buf = seeded();
    lea(&mut buf, 0x2010, 0x3002);
    call(&mut buf, 0x4000, 0x1000);
    put(&mut buf, 0x4005, &[0x84, 0xC0, 0x0F, 0x84, 1, 2, 3, 4]);
    call(&mut buf, 0x4100, 0x1000);
    put(&mut buf, 0x4105, &[0x0F, 0xB6, 0xC8, 0x90, 0x84, 0xC9, 0x75, 0x10]);
    // A caller without any gate.
    call(&mut buf, 0x4200, 0x1000);
    let img = image(buf);
    assert!(can_read_callers(&img));
    let found = find_trust_checks(&img, &[]);
    let places: Vec<usize> = found.iter().map(|e| e.rva).collect();
    assert_eq!(places, vec![0x2000, 0x4000, 0x4100]);
    let names: Vec<&str> = found.iter().map(|e| e.name.as_str()).collect();
    assert_eq!(names, vec!["TRUST_CHECK_0", "TRUST_CHECK_1", "TRUST_CHECK_2"]);
    assert_eq!(found[1].pattern_mask, b"x????xxx?????".to_vec());
    assert_eq!(found[1].pattern_bytes.len(), 13);
    assert_eq!(found[2].patch_offset, Some(11));
    assert_eq!(found[2].patch_bytes, Some(vec![0xEB]));
    assert_eq!(found[2].pattern_mask, b"x????????xxx?".to_vec());
    assert_eq!(found[2].description, "trust gate (movzx): short jne -> jmp");
    for e in &found {
        assert!(matches_at(
            &img.reconstructed,
            &e.pattern_bytes,
            &e.pattern_mask,
            e.rva
        ));
    }
}

#[test]
fn references_with_and_without_a_prefix() {
    let mut buf = seeded();
    put(&mut buf, 0x2010, &[0; 7]);
    // lea ecx, [rip + disp] without a prefix
    put(&mut buf, 0x2010, &[0x8D, 0x0D]);
    put(&mut buf, 0x2012, &(0x3002i32 - 0x2016).to_le_bytes());
    let found = find_trust_checks(&image(buf.clone()), &[]);
    assert_eq!(found.len(), 1);
    assert_eq!(found[0].rva, 0x2000);
    // an operand that is not relative to the instruction pointer
    buf[0x2011] = 0x4D;
    assert_eq!(find_trust_checks(&image(buf), &[]).len(), 0);
}

#[test]
fn covered_gates_are_left_out_and_numbering_goes_on() {
    let mut buf = seeded();
    lea(&mut buf, 0x2010, 0x3002);
    call(&mut buf, 0x4000, 0x1000);
    put(&mut buf, 0x4005, &[0x84, 0xC0, 0x75, 0x10]);
    let existing = vec![PatternEntry {
        name: "OTHER".to_string(),
        rva: 0x1FF0,
        kind: "bytepatch".to_string(),
        patch_offset: Some(0x15),
        patch_bytes: Some(vec![0x0C, 0x01]),
        pattern_bytes: vec![],
        pattern_mask: vec![],
        description: String::new(),
    }];
    let found = find_trust_checks(&image(buf.clone()), &existing);
    assert_eq!(found.len(), 1);
    assert_eq!(found[0].name, "TRUST_CHECK_0");
    assert_eq!(found[0].rva, 0x4000);
    let mut hook = existing;
    hook[0].kind = "hook".to_string();
    assert_eq!(find_trust_checks(&image(buf), &hook).len(), 2);
}

#[test]
fn cut_off_caller_cannot_be_read() {
    let mut buf = seeded();
    lea(&mut buf, 0x2010, 0x3002);
    let len = buf.len();
    call(&mut buf, len - 6, 0x1000);
    buf[len - 1] = 0x84;
    assert!(!can_read_callers(&image(buf.clone())));
    buf[len - 1] = 0x90;
    assert!(can_read_callers(&image(buf)));
}

#[test]
fn trust_strings_and_their_references() {
    let mut buf = vec![0u8; 0x1000];
    put(&mut buf, 0x200, b"TrustCheck");
    put(&mut buf, 0x300, b"url is not trusted");
    lea(&mut buf, 0x100, 0x200);
    let found = find_trust_strings(&image(buf));
    let seen: Vec<(usize, &str, Option<usize>)> = found
        .iter()
        .map(|e| (e.rva, e.text.as_str(), e.xref_rva))
        .collect();
    assert_eq!(
        seen,
        vec![
            (0x304, "is not trusted", None),
            (0x307, "not trusted", None),
            (0x200, "TrustCheck", Some(0x100)),
            (0x300, "url is not trusted", None),
        ]
    );
}

#[test]
fn first_match_of_a_masked_pattern() {
    let img = image(vec![1, 2, 3, 1, 9, 3, 1, 2]);
    assert_eq!(find_byte_pattern(&img, &[1, 0, 3], b"x?x"), Some(0));
    assert_eq!(find_byte_pattern(&img, &[1, 9], b"xx"), Some(3));
    assert_eq!(find_byte_pattern(&img, &[7], b"x"), None);
    assert_eq!(find_byte_pattern(&img, &[], b""), None);
    assert_eq!(find_byte_pattern(&img, &[1], b"x????????"), None);
    assert_eq!(find_byte_pattern(&img, &[], b"???"), Some(0));
    assert_eq!(find_byte_pattern(&img, &[1, 2], b"xx?"), Some(0));
}

#[test]
fn patterns_shorter_than_their_mask() {
    assert!(can_compare(&[1, 2], &[1, 2], b"xx"));
    assert!(can_compare(&[1, 2], &[1], b"x?"));
    assert!(can_compare(&[1, 2], &[9], b"xx"));
    assert!(!can_compare(&[1, 2], &[1], b"xx"));
    assert!(!can_compare(&[1, 2], &[], b"?x"));
}

#[test]
fn every_signature_is_known_by_its_bytes() {
    let mut buf = vec![0u8; 1024];
    put(&mut buf, 600, &URL_ONCOMPONENT);
    put(&mut buf, 300, &TRUSTCHECK);
    put(&mut buf, 100, &HTTP_REQUEST_URL);
    put(&mut buf, 700, &URL_ONCOMPONENT);
    let found = scan_patterns(&image(buf));
    let seen: Vec<(&str, usize, &str)> = found
        .iter()
        .map(|e| (e.name.as_str(), e.rva, e.kind.as_str()))
        .collect();
    assert_eq!(
        seen,
        vec![
            ("URL_ONCOMPONENT", 600, "hook"),
            ("TRUSTCHECK", 300, "hook"),
            ("HTTP_REQUEST_URL", 100, "hook"),
        ]
    );
    assert!(found.iter().all(|e| e.patch_offset.is_none() && e.patch_bytes.is_none()));
}

#[test]
fn async_check_is_not_reported_twice() {
    let mut buf = vec![0u8; 0x4000];
    put(&mut buf, 0x2000, &ASYNC_TRUST_CHECK);
    call(&mut buf, 0x200C, 0x1000);
    put(&mut buf, 0x2013, &[0x0F, 0x85, 0x40, 0, 0, 0]);
    put(&mut buf, 0x2019, &[0x48, 0x8D, 0x05]);
    put(&mut buf, 0x201C, &(0x3000i32 - 0x2020).to_le_bytes());
    put(&mut buf, 0x3000, b"Trust check failed");
    let img = image(buf);
    assert_eq!(find_trust_checks(&img, &[]).len(), 1);
    let all = scan(&img);
    let names: Vec<&str> = all.patterns.iter().map(|e| e.name.as_str()).collect();
    assert_eq!(names, vec!["ASYNC_TRUST_CHECK"]);
    assert_eq!(all.trust_strings.len(), 1);
    assert_eq!(all.trust_strings[0].xref_rva, Some(0x2019));
    assert!(all.security_cookie.is_none());
    assert!(all.urls.is_empty());
}

#[test]
fn code_bytes() {
    assert_eq!(read_i32(&[0xFF, 0xFF, 0xFF, 0xFF], 0), -1);
    assert_eq!(read_i32(&[0, 0x78, 0x56, 0x34, 0x12], 1), 0x12345678);
    assert_eq!(wrapped(-1), u64::MAX);
    assert_eq!(wrapped(0x1_0000_0000_0000_0003), 3);
    assert_eq!(rva_from(0x1000, -1), None);
    assert_eq!(rva_from(0x1000, 5), Some(5));
    assert_eq!(rva_from(0, -1), Some(u64::MAX));
    let j = jcc_info(&[0x75, 0xFE], 0).unwrap();
    assert_eq!((j.opcode, j.len, j.disp), (0x75, 2, -2));
    let j = jcc_info(&[0x0F, 0x84, 1, 0, 0, 0], 0).unwrap();
    assert_eq!((j.opcode, j.len, j.disp), (0x84, 6, 1));
    assert!(jcc_info(&[0x74], 0).is_none());
    assert!(jcc_info(&[0x0F, 0x86], 0).is_none());
    assert!(jcc_info(&[0xEB, 0x00], 0).is_none());
}
