//! Offsets of a build, and the patches that they ask for: what is read at each place, and what
//! is written there if the place still holds what was found.
use crate::code::{wrap, wrapped};
use crate::numbers::{decimal, decimal_text, hex_text, in_base};
use crate::scan_patterns::{matches_at, pattern_at, readable_at};
use crate::search::{find_chars, lemma_next_occurrence, next_occurrence, same_bytes};
use crate::text::{from_chars_between, join, same_text, to_chars};
use crate::utf16::{encode_utf16, to_le_bytes, units_bytes, utf16_bytes, utf16_units};
use vstd::prelude::*;
use vstd::slice::slice_to_vec;
use vstd::utf8::encode_utf8;

verus! {

/// A URL string to be replaced.
#[derive(Debug, Clone)]
pub struct UrlEntry {
    pub rva: usize,
    /// `utf16`, or anything else for ASCII.
    pub encoding: String,
    /// The bytes that the original takes.
    pub length: usize,
    pub original: String,
    pub replacement: String,
    pub skipped: bool,
}

/// A signature to be hooked or patched.
#[derive(Debug, Clone)]
pub struct PatternEntry {
    pub name: String,
    pub rva: usize,
    /// `hook` or `bytepatch`.
    pub kind: String,
    pub patch_offset: Option<usize>,
    pub patch_bytes: Option<Vec<u8>>,
    pub pattern_bytes: Vec<u8>,
    pub pattern_mask: Vec<u8>,
}

/// The jump of the security-cookie check.
#[derive(Debug, Clone)]
pub struct SecurityCookieEntry {
    pub jz_rva: usize,
    pub original_opcode: Vec<u8>,
    pub patch_bytes: Vec<u8>,
}

/// The offsets of a build.
#[derive(Debug, Clone)]
pub struct OffsetsFile {
    pub format_version: u32,
    pub urls: Vec<UrlEntry>,
    pub patterns: Vec<PatternEntry>,
    pub security_cookie: Option<SecurityCookieEntry>,
}

/// One patch of the offsets: a URL or a signature by its index, or the security cookie.
#[derive(Debug, Clone, Copy, PartialEq, Eq, Structural)]
pub enum Step {
    Url(usize),
    Pattern(usize),
    Cookie,
}

/// What is done about a patch.
#[derive(Debug, Clone)]
pub enum Action {
    /// The place holds something else: nothing is done but saying so.
    Skip(String),
    /// The bytes are written at an offset from the image base; then it is said that they were,
    /// or that they could not be.
    Write(u64, Vec<u8>, String, String),
    /// The function at the place is hooked.
    Hook,
    /// There is nothing to do.
    Nothing,
}

/// What an `Action` says.
pub enum ActionView {
    Skip(Seq<char>),
    Write(int, Seq<u8>, Seq<char>, Seq<char>),
    Hook,
    Nothing,
}

impl View for Action {
    type V = ActionView;

    open spec fn view(&self) -> ActionView {
        match self {
            Action::Skip(text) => ActionView::Skip(text@),
            Action::Write(at, bytes, done, failed) => ActionView::Write(
                *at as int,
                bytes@,
                done@,
                failed@,
            ),
            Action::Hook => ActionView::Hook,
            Action::Nothing => ActionView::Nothing,
        }
    }
}

/// The format that is understood.
pub const FORMAT_VERSION: u32 = 1;

/// Whether the entry is in UTF-16.
pub open spec fn is_wide(u: UrlEntry) -> bool {
    u.encoding@ == "utf16"@
}

/// The bytes of the original URL.
pub open spec fn original_of(u: UrlEntry) -> Seq<u8> {
    if is_wide(u) {
        utf16_bytes(u.original@)
    } else {
        encode_utf8(u.original@)
    }
}

/// The first `len` of the bytes, with zeros behind them where they are fewer.
pub open spec fn padded(bytes: Seq<u8>, len: nat) -> Seq<u8> {
    Seq::new(
        len,
        |i: int|
            if i < bytes.len() {
                bytes[i]
            } else {
                0u8
            },
    )
}

/// The first `len` bytes of the units, as far as whole units go, with zeros behind them.
pub open spec fn padded_units(units: Seq<u16>, len: nat) -> Seq<u8> {
    Seq::new(
        len,
        |i: int|
            if i / 2 < units.len() && 2 * (i / 2) + 1 < len {
                units_bytes(units)[i]
            } else {
                0u8
            },
    )
}

/// What is written in place of the original URL.
pub open spec fn replacement_bytes(u: UrlEntry) -> Seq<u8> {
    if is_wide(u) {
        padded_units(utf16_units(u.replacement@), u.length as nat)
    } else {
        padded(encode_utf8(u.replacement@), u.length as nat)
    }
}

/// At most the first 24 characters of what stands behind the first `://` of the URL, up to the
/// next one; of the whole URL where it has none.
pub open spec fn short_name(original: Seq<char>) -> Seq<char> {
    let part = match next_occurrence(original, "://"@, 0) {
        Some(i) => match next_occurrence(original, "://"@, i + "://"@.len()) {
            Some(j) => original.subrange(i + "://"@.len(), j),
            None => original.subrange(i + "://"@.len(), original.len() as int),
        },
        None => original,
    };
    if part.len() <= 24 {
        part
    } else {
        part.take(24)
    }
}

/// A number as it is shown: in hexadecimal, marked as such.
pub open spec fn shown(n: int) -> Seq<char> {
    "0x"@ + in_base(n as nat, 16)
}

/// What is done about a URL whose place holds `actual`.
pub open spec fn url_action(u: UrlEntry, actual: Seq<u8>) -> ActionView {
    if actual == original_of(u) {
        ActionView::Write(
            u.rva as int,
            replacement_bytes(u),
            "Patched URL "@ + short_name(u.original@) + " -> "@ + u.replacement@ + " at "@ + shown(
                u.rva as int,
            ),
            "Failed to patch URL at rva "@ + shown(u.rva as int),
        )
    } else {
        ActionView::Skip(
            "SKIP URL at rva "@ + shown(u.rva as int)
                + ": original not found (stale offsets?)"@,
        )
    }
}

/// What is done about a signature whose place holds `actual`.
pub open spec fn pattern_action(p: PatternEntry, actual: Seq<u8>) -> ActionView {
    if !pattern_at(actual, p.pattern_bytes@, p.pattern_mask@, 0) {
        ActionView::Skip(
            "SKIP "@ + p.name@ + " at rva "@ + shown(p.rva as int)
                + ": pattern mismatch (stale offsets?)"@,
        )
    } else if p.kind@ == "hook"@ {
        ActionView::Hook
    } else if p.kind@ == "bytepatch"@ && p.patch_offset is Some && p.patch_bytes is Some {
        ActionView::Write(
            wrap(p.rva + p.patch_offset->0),
            p.patch_bytes->0@,
            "Patched "@ + p.name@ + " at rva "@ + shown(p.rva as int) + " (+"@ + shown(
                p.patch_offset->0 as int,
            ) + ")"@,
            "Failed to patch "@ + p.name@ + " at rva "@ + shown(p.rva as int),
        )
    } else {
        ActionView::Nothing
    }
}

/// What is done about the security cookie when the place of its jump holds `actual`.
pub open spec fn cookie_action(c: SecurityCookieEntry, actual: Seq<u8>) -> ActionView {
    if actual == c.original_opcode@ {
        ActionView::Write(
            c.jz_rva as int,
            c.patch_bytes@,
            "Patched security cookie JZ at rva "@ + shown(c.jz_rva as int),
            "Failed to patch security cookie at rva "@ + shown(c.jz_rva as int),
        )
    } else {
        ActionView::Skip(
            "SKIP security cookie at rva "@ + shown(c.jz_rva as int)
                + ": opcode mismatch (stale offsets?)"@,
        )
    }
}

/// The steps of the first `n` URLs that are not skipped.
pub open spec fn url_steps(urls: Seq<UrlEntry>, n: int) -> Seq<Step>
    decreases n,
{
    if n <= 0 {
        Seq::empty()
    } else if urls[n - 1].skipped {
        url_steps(urls, n - 1)
    } else {
        url_steps(urls, n - 1).push(Step::Url((n - 1) as usize))
    }
}

/// The patches in the order in which they are made: the URLs that are not skipped, the
/// signatures, the security cookie.
pub open spec fn steps_of(f: OffsetsFile) -> Seq<Step> {
    url_steps(f.urls@, f.urls@.len() as int) + Seq::new(
        f.patterns@.len(),
        |i: int| Step::Pattern(i as usize),
    ) + (if f.security_cookie is Some {
        seq![Step::Cookie]
    } else {
        Seq::empty()
    })
}

/// Whether a step names an entry of the offsets.
pub open spec fn is_step(f: OffsetsFile, s: Step) -> bool {
    match s {
        Step::Url(i) => i < f.urls@.len(),
        Step::Pattern(i) => i < f.patterns@.len(),
        Step::Cookie => f.security_cookie is Some,
    }
}

/// The place that is read for a step: its offset and its length.
pub open spec fn probe_of(f: OffsetsFile, s: Step) -> (int, int) {
    match s {
        Step::Url(i) => (f.urls@[i as int].rva as int, original_of(f.urls@[i as int]).len() as int),
        Step::Pattern(i) => (
            f.patterns@[i as int].rva as int,
            f.patterns@[i as int].pattern_mask@.len() as int,
        ),
        Step::Cookie => (
            f.security_cookie->0.jz_rva as int,
            f.security_cookie->0.original_opcode@.len() as int,
        ),
    }
}

/// What is done about a step when its place holds `actual`.
pub open spec fn action_for(f: OffsetsFile, s: Step, actual: Seq<u8>) -> ActionView {
    match s {
        Step::Url(i) => url_action(f.urls@[i as int], actual),
        Step::Pattern(i) => pattern_action(f.patterns@[i as int], actual),
        Step::Cookie => cookie_action(f.security_cookie->0, actual),
    }
}

/// Whether comparing the bytes with a signature never asks for one behind the end of its
/// pattern.
pub open spec fn step_readable(f: OffsetsFile, s: Step, actual: Seq<u8>) -> bool {
    match s {
        Step::Pattern(i) => readable_at(
            actual,
            f.patterns@[i as int].pattern_bytes@,
            f.patterns@[i as int].pattern_mask@,
            0,
        ),
        _ => true,
    }
}

/// The offsets, if their format is understood.
pub fn accept(f: OffsetsFile) -> (r: Result<OffsetsFile, String>)
    ensures
        match r {
            Ok(g) => f.format_version == FORMAT_VERSION && g == f,
            Err(e) => f.format_version != FORMAT_VERSION && e@ == "offsets.json format version "@
                + decimal(f.format_version as int) + " not supported"@,
        },
{
    if f.format_version != FORMAT_VERSION {
        let head = join(
            "offsets.json format version ",
            &decimal_text(f.format_version as i64),
        );
        Err(join(&head, " not supported"))
    } else {
        Ok(f)
    }
}

/// The first `original_len` bytes of the replacement, with zeros behind them where they are
/// fewer.
pub fn padded_ascii(replacement: &str, original_len: usize) -> (out: Vec<u8>)
    ensures
        out@ == padded(encode_utf8(replacement@), original_len as nat),
{
    let bytes = replacement.as_bytes();
    let mut out: Vec<u8> = Vec::new();
    for i in 0..original_len
        invariant
            bytes@ == encode_utf8(replacement@),
            out@ =~= padded(bytes@, original_len as nat).take(i as int),
    {
        if i < bytes.len() {
            out.push(bytes[i]);
        } else {
            out.push(0);
        }
    }
    out
}

/// The first `original_len_bytes` bytes of the replacement in UTF-16, as far as whole units go,
/// with zeros behind them.
pub fn padded_utf16(replacement: &str, original_len_bytes: usize) -> (out: Vec<u8>)
    ensures
        out@ == padded_units(utf16_units(replacement@), original_len_bytes as nat),
{
    let units = encode_utf16(&to_chars(replacement));
    let mut out: Vec<u8> = Vec::new();
    for i in 0..original_len_bytes
        invariant
            units@ == utf16_units(replacement@),
            out@ =~= padded_units(units@, original_len_bytes as nat).take(i as int),
    {
        let k: usize = i / 2;
        if k < units.len() && (i % 2 == 1 || i + 1 < original_len_bytes) {
            let u: u16 = units[k];
            if i % 2 == 0 {
                out.push((u % 256) as u8);
            } else {
                out.push((u / 256) as u8);
            }
        } else {
            out.push(0);
        }
    }
    out
}

impl UrlEntry {
    /// A short name of the URL for messages.
    pub fn host_or_id(&self) -> (r: String)
        ensures
            r@ == short_name(self.original@),
    {
        let chars = to_chars(&self.original);
        let sep = to_chars("://");
        let mut from: usize = 0;
        let mut to: usize = chars.len();
        proof {
            lemma_next_occurrence(chars@, sep@, 0);
        }
        if let Some(i) = find_chars(&chars, &sep, 0) {
            from = i + sep.len();
            proof {
                lemma_next_occurrence(chars@, sep@, from as int);
            }
            if let Some(j) = find_chars(&chars, &sep, from) {
                to = j;
            }
        }
        let ghost part = chars@.subrange(from as int, to as int);
        assert(chars@.subrange(0, chars@.len() as int) =~= chars@);
        let end: usize = if to - from <= 24 {
            to
        } else {
            from + 24
        };
        let r = from_chars_between(&chars, from, end);
        assert(r@ =~= if part.len() <= 24 {
            part
        } else {
            part.take(24)
        });
        r
    }

    fn wide(&self) -> (r: bool)
        ensures
            r == is_wide(*self),
    {
        same_text(&self.encoding, "utf16")
    }

    /// The bytes of the original URL.
    pub fn original_bytes(&self) -> (r: Vec<u8>)
        ensures
            r@ == original_of(*self),
    {
        if self.wide() {
            to_le_bytes(&encode_utf16(&to_chars(&self.original)))
        } else {
            slice_to_vec(self.original.as_str().as_bytes())
        }
    }

    /// What is written in place of the original URL.
    pub fn patched_bytes(&self) -> (r: Vec<u8>)
        ensures
            r@ == replacement_bytes(*self),
    {
        if self.wide() {
            padded_utf16(&self.replacement, self.length)
        } else {
            padded_ascii(&self.replacement, self.length)
        }
    }

    /// What is done about the URL when its place holds `actual`.
    pub fn decide(&self, actual: &[u8]) -> (r: Action)
        ensures
            r@ == url_action(*self, actual@),
    {
        let original = self.original_bytes();
        let rva = show(self.rva);
        if same_bytes(actual, &original) {
            let a = join("Patched URL ", &self.host_or_id());
            let b = join(&a, " -> ");
            let c = join(&b, &self.replacement);
            let d = join(&c, " at ");
            Action::Write(
                self.rva as u64,
                self.patched_bytes(),
                join(&d, &rva),
                join("Failed to patch URL at rva ", &rva),
            )
        } else {
            let a = join("SKIP URL at rva ", &rva);
            Action::Skip(join(&a, ": original not found (stale offsets?)"))
        }
    }
}

fn show(n: usize) -> (r: String)
    ensures
        r@ == shown(n as int),
{
    join("0x", &hex_text(n as u64))
}

impl PatternEntry {
    /// What is done about the signature when its place holds `actual`.
    pub fn decide(&self, actual: &[u8]) -> (r: Action)
        requires
            readable_at(actual@, self.pattern_bytes@, self.pattern_mask@, 0),
            self.pattern_mask@.len() <= actual@.len(),
        ensures
            r@ == pattern_action(*self, actual@),
    {
        let rva = show(self.rva);
        if !matches_at(actual, &self.pattern_bytes, &self.pattern_mask, 0) {
            let a = join("SKIP ", &self.name);
            let b = join(&a, " at rva ");
            let c = join(&b, &rva);
            return Action::Skip(join(&c, ": pattern mismatch (stale offsets?)"));
        }
        if same_text(&self.kind, "hook") {
            return Action::Hook;
        }
        if same_text(&self.kind, "bytepatch") {
            if let Some(offset) = self.patch_offset {
                if let Some(bytes) = &self.patch_bytes {
                    let a = join("Patched ", &self.name);
                    let b = join(&a, " at rva ");
                    let c = join(&b, &rva);
                    let d = join(&c, " (+");
                    let e = join(&d, &show(offset));
                    let f = join("Failed to patch ", &self.name);
                    let g = join(&f, " at rva ");
                    return Action::Write(
                        wrapped(self.rva as i128 + offset as i128),
                        slice_to_vec(bytes),
                        join(&e, ")"),
                        join(&g, &rva),
                    );
                }
            }
        }
        Action::Nothing
    }
}

impl SecurityCookieEntry {
    /// What is done about the jump when its place holds `actual`.
    pub fn decide(&self, actual: &[u8]) -> (r: Action)
        ensures
            r@ == cookie_action(*self, actual@),
    {
        let rva = show(self.jz_rva);
        if same_bytes(actual, &self.original_opcode) {
            Action::Write(
                self.jz_rva as u64,
                slice_to_vec(&self.patch_bytes),
                join("Patched security cookie JZ at rva ", &rva),
                join("Failed to patch security cookie at rva ", &rva),
            )
        } else {
            let a = join("SKIP security cookie at rva ", &rva);
            Action::Skip(join(&a, ": opcode mismatch (stale offsets?)"))
        }
    }
}

/// The patches in the order in which they are made.
pub fn steps(f: &OffsetsFile) -> (out: Vec<Step>)
    ensures
        out@ == steps_of(*f),
        forall|k: int| 0 <= k < out@.len() ==> is_step(*f, #[trigger] out@[k]),
{
    let mut out: Vec<Step> = Vec::new();
    for i in 0..f.urls.len()
        invariant
            out@ =~= url_steps(f.urls@, i as int),
            forall|k: int| 0 <= k < out@.len() ==> is_step(*f, #[trigger] out@[k]),
    {
        if !f.urls[i].skipped {
            out.push(Step::Url(i));
        }
    }
    let ghost urls = out@;
    for i in 0..f.patterns.len()
        invariant
            out@ =~= urls + Seq::new(i as nat, |k: int| Step::Pattern(k as usize)),
            forall|k: int| 0 <= k < out@.len() ==> is_step(*f, #[trigger] out@[k]),
    {
        out.push(Step::Pattern(i));
    }
    if f.security_cookie.is_some() {
        out.push(Step::Cookie);
    }
    out
}

/// The place that is read for a step: its offset and its length.
pub fn probe(f: &OffsetsFile, s: Step) -> (r: (usize, usize))
    requires
        is_step(*f, s),
    ensures
        (r.0 as int, r.1 as int) == probe_of(*f, s),
{
    match s {
        Step::Url(i) => (f.urls[i].rva, f.urls[i].original_bytes().len()),
        Step::Pattern(i) => (f.patterns[i].rva, f.patterns[i].pattern_mask.len()),
        Step::Cookie => match &f.security_cookie {
            Some(c) => (c.jz_rva, c.original_opcode.len()),
            None => (0, 0),
        },
    }
}

/// What is done about a step when its place holds `actual`.
pub fn decide(f: &OffsetsFile, s: Step, actual: &[u8]) -> (r: Action)
    requires
        is_step(*f, s),
        actual@.len() == probe_of(*f, s).1,
        step_readable(*f, s, actual@),
    ensures
        r@ == action_for(*f, s, actual@),
{
    match s {
        Step::Url(i) => f.urls[i].decide(actual),
        Step::Pattern(i) => f.patterns[i].decide(actual),
        Step::Cookie => match &f.security_cookie {
            Some(c) => c.decide(actual),
            None => Action::Nothing,
        },
    }
}

/// Whether the library is to act when it is loaded: `attached` tells that a process loads it,
/// `marker` that the marker file lies beside the program, `args` how the program was started.
pub fn should_start(attached: bool, marker: bool, args: &[String]) -> (r: bool)
    ensures
        r == (attached && (marker || exists|k: int|
            0 <= k < args@.len() && (#[trigger] args@[k])@ == "--offline"@)),
{
    if !attached {
        return false;
    }
    if marker {
        return true;
    }
    for i in 0..args.len()
        invariant
            attached,
            forall|k: int| 0 <= k < i ==> (#[trigger] args@[k])@ != "--offline"@,
    {
        if same_text(&args[i], "--offline") {
            assert(args@[i as int]@ == "--offline"@);
            return true;
        }
    }
    false
}

} // verus!
