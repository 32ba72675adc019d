use studio_offline::pe::PeImage;
use studio_offline::scan_patterns::PatternEntry;
use studio_offline::scan_trust::find_trust_checks;


const IMG_BASE: u64 = 0x140000000;

fn fake_image(payload: Vec<u8>) -> PeImage {
    let len = payload.len();
    PeImage {
        image_base: IMG_BASE,
        image_size: len,
        sections: vec![],
        reconstructed: payload,
        sha256: "test".to_string(),
        file_size: len as u64,
    }
}

// call at 0x2000 -> trust fn at 0x1000; test al,al; jne32 to 0x2040;
// fall-through lea loads "Trust check failed" at 0x3000.
fn build_jne_gate() -> Vec<u8> {
    let mut buf = vec![0u8; 0x4000];
    // call 0x146ce7bdb-style: E8 disp where call_va+5+disp == 0x140001000
    buf[0x2000..0x2005].copy_from_slice(&[0xE8, 0xFB, 0xEF, 0xFF, 0xFF]);
    buf[0x2005] = 0x84;
    buf[0x2006] = 0xC0;
    // jne32: next = 0x200D, target 0x2040 => disp 0x33
    buf[0x2007..0x200D].copy_from_slice(&[0x0F, 0x85, 0x33, 0x00, 0x00, 0x00]);
    // lea rax, [rip+disp] -> 0x3000; instr at 0x200D, next_ip 0x2014, disp 0xFFC
    buf[0x200D..0x2014].copy_from_slice(&[0x48, 0x8D, 0x05, 0xEC, 0x0F, 0x00, 0x00]);
    buf[0x3000..0x3000 + 18].copy_from_slice(b"Trust check failed");
    buf
}

#[test]
fn finds_jne32_gate() {
    let img = fake_image(build_jne_gate());
    let found = find_trust_checks(&img, &[]);
    assert_eq!(found.len(), 1);
    assert_eq!(found[0].name, "TRUST_CHECK_0");
    assert_eq!(found[0].rva, 0x2000);
    assert_eq!(found[0].kind, "bytepatch");
    assert_eq!(found[0].patch_offset, Some(5));
    assert_eq!(found[0].patch_bytes, Some(vec![0x0C, 0x01]));
    // pattern starts with the call and anchors the jcc
    assert_eq!(found[0].pattern_bytes[0], 0xE8);
    assert_eq!(found[0].pattern_mask[0], b'x');
}

#[test]
fn finds_je_gate() {
    let mut buf = vec![0u8; 0x4000];
    buf[0x2000..0x2005].copy_from_slice(&[0xE8, 0xFB, 0xEF, 0xFF, 0xFF]);
    buf[0x2005] = 0x84;
    buf[0x2006] = 0xC0;
    // je32: next = 0x200D, failure target 0x2030 => disp 0x23
    buf[0x2007..0x200D].copy_from_slice(&[0x0F, 0x84, 0x23, 0x00, 0x00, 0x00]);
    // success in fall-through (0x200D)
    buf[0x200D] = 0xC3; // ret
    // failure block at 0x2030: lea rax,[rip+disp] -> 0x3000, next_ip 0x2037, disp 0xFC9
    buf[0x2030..0x2037].copy_from_slice(&[0x48, 0x8D, 0x05, 0xC9, 0x0F, 0x00, 0x00]);
    buf[0x3000..0x3000 + 18].copy_from_slice(b"Trust check failed");
    let img = fake_image(buf);
    let found = find_trust_checks(&img, &[]);
    assert_eq!(found.len(), 1);
    assert_eq!(found[0].patch_bytes, Some(vec![0x0C, 0x01]));
}

#[test]
fn finds_movzx_gate_via_caller_enumeration() {
    let mut buf = vec![0u8; 0x5000];
    // Seed a trust fn at 0x1000 via a string-anchored jne gate (so the
    // detector learns the trust-fn address from a known trust string).
    buf[0x2000..0x2005].copy_from_slice(&[0xE8, 0xFB, 0xEF, 0xFF, 0xFF]);
    buf[0x2005] = 0x84;
    buf[0x2006] = 0xC0;
    buf[0x2007..0x200D].copy_from_slice(&[0x0F, 0x85, 0x33, 0x00, 0x00, 0x00]);
    buf[0x200D..0x2014].copy_from_slice(&[0x48, 0x8D, 0x05, 0xEC, 0x0F, 0x00, 0x00]);
    buf[0x3000..0x3000 + 18].copy_from_slice(b"Trust check failed");
    // A second caller of the same trust fn using the movzx pattern.
    // call at 0x4000 -> trust fn 0x1000; movzx ecx,al; ...; test cl,cl; jne short
    buf[0x4000..0x4005].copy_from_slice(&[0xE8, 0x00, 0x00, 0x00, 0x00]);
    {
        // disp for call at 0x4000: call_va+5 = 0x140004005, target 0x140001000 => -0x3005
        let disp = (-0x3005i32).to_le_bytes();
        buf[0x4001..0x4005].copy_from_slice(&disp);
    }
    buf[0x4005..0x4008].copy_from_slice(&[0x0F, 0xB6, 0xC8]);
    for b in buf[0x4008..0x4020].iter_mut() {
        *b = 0x90;
    }
    buf[0x4020] = 0x84;
    buf[0x4021] = 0xC9;
    buf[0x4022] = 0x75;
    buf[0x4023] = 0x30;
    let img = fake_image(buf);
    let found = find_trust_checks(&img, &[]);
    let jne_gate = found
        .iter()
        .find(|p| p.patch_bytes == Some(vec![0x0C, 0x01]) && p.rva == 0x2000);
    assert!(jne_gate.is_some());
    let movzx = found.iter().find(|p| p.patch_bytes == Some(vec![0xEB]));
    assert!(movzx.is_some(), "expected a movzx-gate patch, got {:?}", found);
    let g = movzx.unwrap();
    assert_eq!(g.rva, 0x4000);
    assert_eq!(g.patch_offset, Some(0x22));
}

#[test]
fn dedupes_against_existing_bytepatch() {
    let img = fake_image(build_jne_gate());
    let existing = vec![PatternEntry {
        name: "ASYNC_TRUST_CHECK".to_string(),
        rva: 0x2000,
        kind: "bytepatch".to_string(),
        patch_offset: Some(5),
        patch_bytes: Some(vec![0x0C, 0x01]),
        pattern_bytes: vec![],
        pattern_mask: vec![],
        description: "".to_string(),
    }];
    let found = find_trust_checks(&img, &existing);
    assert_eq!(found.len(), 0);
}
