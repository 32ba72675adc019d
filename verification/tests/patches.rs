use studio_offline::offsets::{
    accept, decide, padded_ascii, padded_utf16, probe, should_start, steps, Action, OffsetsFile,
    PatternEntry, SecurityCookieEntry, Step, UrlEntry,
};
use studio_offline::pe::PeImage;
use studio_offline::scan::scan;

fn url(rva: usize, encoding: &str, original: &str, replacement: &str, length: usize) -> UrlEntry {
    UrlEntry {
        rva,
        encoding: encoding.to_string(),
        length,
        original: original.to_string(),
        replacement: replacement.to_string(),
        skipped: false,
    }
}

fn pattern(kind: &str, offset: Option<usize>, bytes: Option<Vec<u8>>) -> PatternEntry {
    PatternEntry {
        name: "P".to_string(),
        rva: 0x20,
        kind: kind.to_string(),
        patch_offset: offset,
        patch_bytes: bytes,
        pattern_bytes: vec![1, 2, 3],
        pattern_mask: b"x?x".to_vec(),
    }
}

fn file(urls: Vec<UrlEntry>, patterns: Vec<PatternEntry>) -> OffsetsFile {
    OffsetsFile { format_version: 1, urls, patterns, security_cookie: None }
}

fn run(f: &OffsetsFile, memory: &mut [u8]) -> Vec<String> {
    let mut log = Vec::new();
    for s in steps(f) {
        let (at, len) = probe(f, s);
        let actual = memory[at..at + len].to_vec();
        match decide(f, s, &actual) {
            Action::Skip(text) => log.push(text),
            Action::Write(at, bytes, done, _) => {
                memory[at as usize..at as usize + bytes.len()].copy_from_slice(&bytes);
                log.push(done);
            }
            Action::Hook => log.push("hook".to_string()),
            Action::Nothing => log.push("nothing".to_string()),
        }
    }
    log
}

#[test]
fn only_the_known_format_is_accepted() {
    assert!(accept(file(vec![], vec![])).is_ok());
    let mut f = file(vec![], vec![]);
    f.format_version = 20;
    assert_eq!(
        accept(f).unwrap_err(),
        "offsets.json format version 20 not supported"
    );
}

#[test]
fn ascii_replacement_is_padded() {
    assert_eq!(padded_ascii("ab", 4), vec![b'a', b'b', 0, 0]);
    assert_eq!(padded_ascii("abc", 2), vec![b'a', b'b']);
    assert_eq!(padded_ascii("\u{e9}", 3), vec![0xC3, 0xA9, 0]);
    assert_eq!(padded_ascii("", 0), Vec::<u8>::new());
}

#[test]
fn utf16_replacement_is_padded_by_whole_units() {
    assert_eq!(padded_utf16("ab", 6), vec![b'a', 0, b'b', 0, 0, 0]);
    assert_eq!(padded_utf16("ab", 3), vec![b'a', 0, 0]);
    assert_eq!(padded_utf16("ab", 2), vec![b'a', 0]);
    assert_eq!(padded_utf16("\u{1F600}", 4), vec![0x3D, 0xD8, 0x00, 0xDE]);
}

#[test]
fn steps_leave_out_skipped_urls() {
    let mut skipped = url(0, "ascii", "http://x", "", 8);
    skipped.skipped = true;
    let mut f = file(
        vec![skipped, url(8, "ascii", "http://y", "", 8)],
        vec![pattern("hook", None, None)],
    );
    assert_eq!(steps(&f), vec![Step::Url(1), Step::Pattern(0)]);
    f.security_cookie = Some(SecurityCookieEntry {
        jz_rva: 3,
        original_opcode: vec![0x74, 1],
        patch_bytes: vec![0x75],
    });
    assert_eq!(steps(&f), vec![Step::Url(1), Step::Pattern(0), Step::Cookie]);
    assert_eq!(probe(&f, Step::Url(1)), (8, 8));
    assert_eq!(probe(&f, Step::Pattern(0)), (0x20, 3));
    assert_eq!(probe(&f, Step::Cookie), (3, 2));
}

#[test]
fn url_is_replaced_where_it_stands() {
    let f = file(
        vec![url(4, "ascii", "https://a.b.com/x", "http://localhost/", 17)],
        vec![],
    );
    let mut memory = vec![7u8; 40];
    memory[4..21].copy_from_slice(b"https://a.b.com/x");
    let log = run(&f, &mut memory);
    assert_eq!(log, vec!["Patched URL a.b.com/x -> http://localhost/ at 0x4"]);
    assert_eq!(&memory[4..21], b"http://localhost/");
    assert!(memory[..4].iter().chain(&memory[21..]).all(|b| *b == 7));
}

#[test]
fn wide_url_is_replaced_where_it_stands() {
    let f = file(vec![url(2, "utf16", "http://ab", "http://c", 18)], vec![]);
    let mut memory = vec![7u8; 30];
    for (i, u) in "http://ab".encode_utf16().enumerate() {
        memory[2 + 2 * i..4 + 2 * i].copy_from_slice(&u.to_le_bytes());
    }
    run(&f, &mut memory);
    let text: Vec<u8> = "http://c\0".encode_utf16().flat_map(|u| u.to_le_bytes()).collect();
    assert_eq!(&memory[2..20], &text[..]);
    assert_eq!((memory[1], memory[20]), (7, 7));
}

#[test]
fn stale_offsets_change_nothing() {
    let mut f = file(
        vec![url(4, "ascii", "https://a.b.com/x", "http://localhost/", 17)],
        vec![
            pattern("bytepatch", Some(1), Some(vec![9])),
            pattern("hook", None, None),
        ],
    );
    f.security_cookie = Some(SecurityCookieEntry {
        jz_rva: 0x30,
        original_opcode: vec![0x74, 1],
        patch_bytes: vec![0x75],
    });
    let mut memory = vec![5u8; 80];
    let log = run(&f, &mut memory);
    assert_eq!(memory, vec![5u8; 80]);
    assert_eq!(
        log,
        vec![
            "SKIP URL at rva 0x4: original not found (stale offsets?)",
            "SKIP P at rva 0x20: pattern mismatch (stale offsets?)",
            "SKIP P at rva 0x20: pattern mismatch (stale offsets?)",
            "SKIP security cookie at rva 0x30: opcode mismatch (stale offsets?)",
        ]
    );
}

#[test]
fn signatures_are_hooked_or_patched() {
    let f = file(
        vec![],
        vec![
            pattern("hook", None, None),
            pattern("bytepatch", Some(0x1e), Some(vec![8, 9])),
            pattern("bytepatch", None, Some(vec![8])),
            pattern("bytepatch", Some(1), None),
            pattern("other", Some(1), Some(vec![8])),
        ],
    );
    let mut memory = vec![0u8; 80];
    memory[0x20..0x23].copy_from_slice(&[1, 77, 3]);
    let log = run(&f, &mut memory);
    assert_eq!(
        log,
        vec!["hook", "Patched P at rva 0x20 (+0x1e)", "nothing", "nothing", "nothing"]
    );
    assert_eq!(&memory[0x3e..0x40], &[8, 9]);
    match decide(&f, Step::Pattern(1), &[1, 0, 3]) {
        Action::Write(_, _, _, failed) => assert_eq!(failed, "Failed to patch P at rva 0x20"),
        other => panic!("{:?}", other),
    }
}

#[test]
fn cookie_jump_is_patched() {
    let mut f = file(vec![], vec![]);
    f.security_cookie = Some(SecurityCookieEntry {
        jz_rva: 3,
        original_opcode: vec![0x0F, 0x84, 1, 0, 0, 0],
        patch_bytes: vec![0x0F, 0x85],
    });
    let mut memory = vec![0, 0, 0, 0x0F, 0x84, 1, 0, 0, 0];
    let log = run(&f, &mut memory);
    assert_eq!(memory, vec![0, 0, 0, 0x0F, 0x85, 1, 0, 0, 0]);
    assert_eq!(log, vec!["Patched security cookie JZ at rva 0x3"]);
}

#[test]
fn short_names_of_urls() {
    let name = |s: &str| url(0, "ascii", s, "", 0).host_or_id();
    assert_eq!(name("https://www.roblox.com/a"), "www.roblox.com/a");
    assert_eq!(
        name("https://abcdefghijklmnopqrstuvwxyz.com"),
        "abcdefghijklmnopqrstuvwx"
    );
    assert_eq!(name("a://b://c"), "b");
    assert_eq!(name("no scheme"), "no scheme");
    assert_eq!(name("x://"), "");
}

#[test]
fn library_acts_only_when_it_should() {
    let args = vec!["studio".to_string(), "--offline".to_string()];
    assert!(should_start(true, false, &args));
    assert!(!should_start(false, true, &args));
    assert!(should_start(true, true, &[]));
    assert!(!should_start(true, false, &args[..1]));
}

#[test]
fn what_is_scanned_can_be_patched() {
    let mut buf = vec![0u8; 0x4000];
    buf[0x100..0x124].copy_from_slice(b"https://www.roblox.com/asset/?id=123");
    buf[0x2000..0x2005].copy_from_slice(&[0xE8, 0xFB, 0xEF, 0xFF, 0xFF]);
    buf[0x2005..0x2007].copy_from_slice(&[0x84, 0xC0]);
    buf[0x2007..0x200D].copy_from_slice(&[0x0F, 0x85, 0x33, 0x00, 0x00, 0x00]);
    buf[0x200D..0x2014].copy_from_slice(&[0x48, 0x8D, 0x05, 0xEC, 0x0F, 0x00, 0x00]);
    buf[0x3000..0x3012].copy_from_slice(b"Trust check failed");
    let image = PeImage {
        image_base: 0x140000000,
        image_size: buf.len(),
        sections: vec![],
        reconstructed: buf.clone(),
        sha256: String::new(),
        file_size: 0,
    };
    let found = scan(&image);
    let f = OffsetsFile {
        format_version: 1,
        urls: found
            .urls
            .iter()
            .map(|u| UrlEntry {
                rva: u.rva,
                encoding: u.encoding.clone(),
                length: u.length,
                original: u.original.clone(),
                replacement: u.replacement.clone(),
                skipped: u.skipped,
            })
            .collect(),
        patterns: found
            .patterns
            .iter()
            .map(|p| PatternEntry {
                name: p.name.clone(),
                rva: p.rva,
                kind: p.kind.clone(),
                patch_offset: p.patch_offset,
                patch_bytes: p.patch_bytes.clone(),
                pattern_bytes: p.pattern_bytes.clone(),
                pattern_mask: p.pattern_mask.clone(),
            })
            .collect(),
        security_cookie: None,
    };
    let log = run(&f, &mut buf);
    assert_eq!(log.len(), 2);
    assert!(log.iter().all(|l| l.starts_with("Patched")));
    assert_eq!(&buf[0x100..0x11e], b"http://localhost/asset/?id=123");
    assert!(buf[0x11e..0x124].iter().all(|b| *b == 0));
    assert_eq!(&buf[0x2005..0x2007], &[0x0C, 0x01]);
}
