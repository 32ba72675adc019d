//! What is patched in a running program for which there are no offsets: everything is looked
//! for in its memory.
use crate::cookie::{
    cookie_text, find_jz_backwards, find_string, instr_at, jnz_bytes, jnz_patch, jz_before,
    lemma_xref_bound,
};
use crate::pe::PeImage;
use crate::scan_patterns::{
    find_byte_pattern, next_pattern, HTTP_REQUEST_URL, HTTP_REQUEST_URL_MASK, TRUSTCHECK,
    TRUSTCHECK_MASK, URL_ONCOMPONENT, URL_ONCOMPONENT_MASK,
};
use crate::scan_trust::{find_xref, next_xref};
use crate::scan_urls::{known_replacement, known_url};
use crate::search::{as_int, next_occurrence};
use vstd::prelude::*;
use vstd::slice::slice_to_vec;
use vstd::utf8::{encode_utf8, is_ascii_chars_encode_utf8};

verus! {

/// What the search for the security-cookie check comes to.
#[derive(Debug, Clone)]
pub enum CookieSearch {
    /// The text that the check logs is not there.
    NoText,
    /// Nothing refers to the text, which stands at this offset.
    NoReference(usize),
    /// Before the code at this offset, which refers to the text, there is no jump.
    NoJump(usize),
    /// The jump at this offset has another form.
    OtherForm(usize),
    /// These bytes turn the jump at this offset round.
    Patch(usize, Vec<u8>),
}

/// What a `CookieSearch` says.
pub enum CookieSearchView {
    NoText,
    NoReference(int),
    NoJump(int),
    OtherForm(int),
    Patch(int, Seq<u8>),
}

impl View for CookieSearch {
    type V = CookieSearchView;

    open spec fn view(&self) -> CookieSearchView {
        match self {
            CookieSearch::NoText => CookieSearchView::NoText,
            CookieSearch::NoReference(text) => CookieSearchView::NoReference(*text as int),
            CookieSearch::NoJump(xref) => CookieSearchView::NoJump(*xref as int),
            CookieSearch::OtherForm(jz) => CookieSearchView::OtherForm(*jz as int),
            CookieSearch::Patch(jz, bytes) => CookieSearchView::Patch(*jz as int, bytes@),
        }
    }
}

/// What is done about a jump with these bytes at `jz`.
pub open spec fn jump_search(jz: int, opcode: Seq<u8>) -> CookieSearchView {
    match jnz_bytes(opcode) {
        Some(patch) => CookieSearchView::Patch(jz, patch),
        None => CookieSearchView::OtherForm(jz),
    }
}

/// What the search for the security-cookie check comes to.
pub open spec fn cookie_search(buf: Seq<u8>, base: int) -> CookieSearchView {
    match next_occurrence(buf, encode_utf8(cookie_text()), 0) {
        None => CookieSearchView::NoText,
        Some(text) => match next_xref(buf, text, 0) {
            None => CookieSearchView::NoReference(text),
            Some(xref) => match jz_before(buf, base, xref) {
                None => CookieSearchView::NoJump(xref),
                Some(jz) => jump_search(
                    jz,
                    buf.subrange(jz, jz + instr_at(buf, base, jz).len),
                ),
            },
        },
    }
}

/// What is patched in a running program: the functions to be hooked, the place of the known URL
/// and the bytes that replace it, and the security-cookie check.
#[derive(Debug, Clone)]
pub struct RuntimePlan {
    pub url_on_component: Option<usize>,
    pub trust_check: Option<usize>,
    pub http_request_url: Option<usize>,
    pub url: Option<(usize, Vec<u8>)>,
    pub cookie: CookieSearch,
}

/// What is done about a jump with these bytes at `jz`.
pub fn turn_jump(jz: usize, opcode: &[u8]) -> (r: CookieSearch)
    ensures
        r@ == jump_search(jz as int, opcode@),
{
    match jnz_patch(opcode) {
        Some(patch) => CookieSearch::Patch(jz, patch),
        None => CookieSearch::OtherForm(jz),
    }
}

/// Looks for the security-cookie check.
pub fn search_cookie(image: &PeImage) -> (r: CookieSearch)
    ensures
        r@ == cookie_search(image.reconstructed@, image.image_base as int),
{
    let text = "[FLog::StudioCookieManager] Security cookie is cached so we proceed saving now.";
    proof {
        reveal_strlit(
            "[FLog::StudioCookieManager] Security cookie is cached so we proceed saving now.",
        );
        lemma_xref_bound(
            image.reconstructed@,
            next_occurrence(image.reconstructed@, encode_utf8(text@), 0)->0,
            0,
        );
    }
    match find_string(image, text) {
        None => CookieSearch::NoText,
        Some(string_rva) => match find_xref(image, string_rva) {
            None => CookieSearch::NoReference(string_rva),
            Some(xref_rva) => match find_jz_backwards(image, xref_rva) {
                None => CookieSearch::NoJump(xref_rva),
                Some((jz, opcode)) => turn_jump(jz, &opcode),
            },
        },
    }
}

/// Looks for everything that is patched in a running program.
pub fn runtime_plan(image: &PeImage) -> (r: RuntimePlan)
    ensures
        as_int(r.url_on_component) == next_pattern(
            image.reconstructed@,
            URL_ONCOMPONENT@,
            URL_ONCOMPONENT_MASK@,
            0,
        ),
        as_int(r.trust_check) == next_pattern(
            image.reconstructed@,
            TRUSTCHECK@,
            TRUSTCHECK_MASK@,
            0,
        ),
        as_int(r.http_request_url) == next_pattern(
            image.reconstructed@,
            HTTP_REQUEST_URL@,
            HTTP_REQUEST_URL_MASK@,
            0,
        ),
        match r.url {
            Some((rva, bytes)) => next_occurrence(
                image.reconstructed@,
                encode_utf8(known_url()),
                0,
            ) == Some(rva as int) && bytes@ == encode_utf8(known_replacement()) && bytes@.len()
                == encode_utf8(known_url()).len(),
            None => next_occurrence(image.reconstructed@, encode_utf8(known_url()), 0) is None,
        },
        r.cookie@ == cookie_search(image.reconstructed@, image.image_base as int),
{
    let known = "https://data.%1/Data/Upload.ashx?assetid=%2";
    proof {
        reveal_strlit("https://data.%1/Data/Upload.ashx?assetid=%2");
        reveal_strlit("http://localhost/Data/Upload.ashx?a=%1&b=%2");
        is_ascii_chars_encode_utf8(known_url());
        is_ascii_chars_encode_utf8(known_replacement());
    }
    let url = match find_string(image, known) {
        Some(rva) => Some(
            (rva, slice_to_vec("http://localhost/Data/Upload.ashx?a=%1&b=%2".as_bytes())),
        ),
        None => None,
    };
    RuntimePlan {
        url_on_component: find_byte_pattern(
            image,
            URL_ONCOMPONENT.as_slice(),
            URL_ONCOMPONENT_MASK.as_slice(),
        ),
        trust_check: find_byte_pattern(image, TRUSTCHECK.as_slice(), TRUSTCHECK_MASK.as_slice()),
        http_request_url: find_byte_pattern(
            image,
            HTTP_REQUEST_URL.as_slice(),
            HTTP_REQUEST_URL_MASK.as_slice(),
        ),
        url,
        cookie: search_cookie(image),
    }
}

} // verus!
