//! What each signature is, stated on the bytes of the image.
use crate::scan_patterns::{
    lemma_next_pattern, next_pattern, pattern_at, signature_entries, signature_entry, signatures,
    PatternView, Signature, ASYNC_TRUST_CHECK, ASYNC_TRUST_CHECK_MASK, FETCHER_JNE_THROW,
    FETCHER_JNE_THROW_MASK, HTTP_REQUEST_URL, HTTP_REQUEST_URL_MASK, TRUSTCHECK, TRUSTCHECK_MASK,
    URL_ONCOMPONENT, URL_ONCOMPONENT_MASK,
};
use vstd::prelude::*;

verus! {

/// Whether an entry stands in a list and reports a signature: its name, what is done with it, and
/// for a patch where behind the signature it is written and what.
pub open spec fn reports(
    list: Seq<PatternView>,
    rva: int,
    name: Seq<char>,
    patch: Option<(int, Seq<u8>)>,
    description: Seq<char>,
    len: int,
) -> bool {
    exists|e: PatternView|
        {
            &&& #[trigger] list.contains(e)
            &&& e.rva == rva
            &&& e.name == name
            &&& e.description == description
            &&& e.pattern_bytes.len() == len
            &&& e.pattern_mask.len() == len
            &&& match patch {
                Some((offset, bytes)) => e.kind == "bytepatch"@ && e.patch_offset == Some(offset)
                    && e.patch_bytes == Some(bytes),
                None => e.kind == "hook"@ && e.patch_offset is None && e.patch_bytes is None,
            }
        }
}

proof fn lemma_reported(buf: Seq<u8>, sigs: Seq<Signature>, j: int, rva: int)
    requires
        0 <= j < sigs.len(),
        next_pattern(buf, sigs[j].bytes, sigs[j].mask, 0) == Some(rva),
    ensures
        signature_entries(buf, sigs).contains(signature_entry(sigs[j], rva)),
    decreases sigs.len(),
{
    let front = sigs.drop_last();
    let before = signature_entries(buf, front);
    let all = signature_entries(buf, sigs);
    let e = signature_entry(sigs[j], rva);
    if j < front.len() {
        lemma_reported(buf, front, j, rva);
        let k = choose|k: int| 0 <= k < before.len() && before[k] == e;
        assert(all[k] == e);
    } else {
        assert(all[all.len() - 1] == e);
    }
}

/// Whether the bytes of `URL_ONCOMPONENT` stand at `at`; those that are not named may be any.
pub open spec fn url_oncomponent_bytes(buf: Seq<u8>, at: int) -> bool {
    &&& 0 <= at && at + 43 <= buf.len()
    &&& buf[at] == 0x40 && buf[at + 1] == 0x55 && buf[at + 2] == 0x53 && buf[at + 3] == 0x56
    &&& buf[at + 4] == 0x57 && buf[at + 5] == 0x41 && buf[at + 6] == 0x54 && buf[at + 7] == 0x41
    &&& buf[at + 8] == 0x55 && buf[at + 9] == 0x41 && buf[at + 10] == 0x56 && buf[at + 11] == 0x41
    &&& buf[at + 12] == 0x57 && buf[at + 13] == 0x48 && buf[at + 14] == 0x8b
    &&& buf[at + 15] == 0xec && buf[at + 16] == 0x48 && buf[at + 17] == 0x83
    &&& buf[at + 18] == 0xec && buf[at + 19] == 0x78 && buf[at + 20] == 0x48
    &&& buf[at + 21] == 0x8b && buf[at + 22] == 0x05 && buf[at + 27] == 0x48
    &&& buf[at + 28] == 0x33 && buf[at + 29] == 0xc4 && buf[at + 30] == 0x48
    &&& buf[at + 31] == 0x89 && buf[at + 32] == 0x45 && buf[at + 33] == 0xf0
    &&& buf[at + 34] == 0x4d && buf[at + 35] == 0x8b && buf[at + 36] == 0xf9
    &&& buf[at + 37] == 0x4d && buf[at + 38] == 0x8b && buf[at + 39] == 0xf0
    &&& buf[at + 40] == 0x4c && buf[at + 41] == 0x8b && buf[at + 42] == 0xe9
}

proof fn lemma_url_oncomponent(buf: Seq<u8>, at: int)
    ensures
        pattern_at(buf, URL_ONCOMPONENT@, URL_ONCOMPONENT_MASK@, at)
            <==> url_oncomponent_bytes(buf, at),
        URL_ONCOMPONENT@.len() == 43,
        URL_ONCOMPONENT_MASK@.len() == 43,
{
    assert(URL_ONCOMPONENT_MASK@[0] == 0x78 && URL_ONCOMPONENT@[0] == 0x40);
    assert(URL_ONCOMPONENT_MASK@[1] == 0x78 && URL_ONCOMPONENT@[1] == 0x55);
    assert(URL_ONCOMPONENT_MASK@[2] == 0x78 && URL_ONCOMPONENT@[2] == 0x53);
    assert(URL_ONCOMPONENT_MASK@[3] == 0x78 && URL_ONCOMPONENT@[3] == 0x56);
    assert(URL_ONCOMPONENT_MASK@[4] == 0x78 && URL_ONCOMPONENT@[4] == 0x57);
    assert(URL_ONCOMPONENT_MASK@[5] == 0x78 && URL_ONCOMPONENT@[5] == 0x41);
    assert(URL_ONCOMPONENT_MASK@[6] == 0x78 && URL_ONCOMPONENT@[6] == 0x54);
    assert(URL_ONCOMPONENT_MASK@[7] == 0x78 && URL_ONCOMPONENT@[7] == 0x41);
    assert(URL_ONCOMPONENT_MASK@[8] == 0x78 && URL_ONCOMPONENT@[8] == 0x55);
    assert(URL_ONCOMPONENT_MASK@[9] == 0x78 && URL_ONCOMPONENT@[9] == 0x41);
    assert(URL_ONCOMPONENT_MASK@[10] == 0x78 && URL_ONCOMPONENT@[10] == 0x56);
    assert(URL_ONCOMPONENT_MASK@[11] == 0x78 && URL_ONCOMPONENT@[11] == 0x41);
    assert(URL_ONCOMPONENT_MASK@[12] == 0x78 && URL_ONCOMPONENT@[12] == 0x57);
    assert(URL_ONCOMPONENT_MASK@[13] == 0x78 && URL_ONCOMPONENT@[13] == 0x48);
    assert(URL_ONCOMPONENT_MASK@[14] == 0x78 && URL_ONCOMPONENT@[14] == 0x8b);
    assert(URL_ONCOMPONENT_MASK@[15] == 0x78 && URL_ONCOMPONENT@[15] == 0xec);
    assert(URL_ONCOMPONENT_MASK@[16] == 0x78 && URL_ONCOMPONENT@[16] == 0x48);
    assert(URL_ONCOMPONENT_MASK@[17] == 0x78 && URL_ONCOMPONENT@[17] == 0x83);
    assert(URL_ONCOMPONENT_MASK@[18] == 0x78 && URL_ONCOMPONENT@[18] == 0xec);
    assert(URL_ONCOMPONENT_MASK@[19] == 0x78 && URL_ONCOMPONENT@[19] == 0x78);
    assert(URL_ONCOMPONENT_MASK@[20] == 0x78 && URL_ONCOMPONENT@[20] == 0x48);
    assert(URL_ONCOMPONENT_MASK@[21] == 0x78 && URL_ONCOMPONENT@[21] == 0x8b);
    assert(URL_ONCOMPONENT_MASK@[22] == 0x78 && URL_ONCOMPONENT@[22] == 0x05);
    assert(URL_ONCOMPONENT_MASK@[23] == 0x3f && URL_ONCOMPONENT@[23] == 0x00);
    assert(URL_ONCOMPONENT_MASK@[24] == 0x3f && URL_ONCOMPONENT@[24] == 0x00);
    assert(URL_ONCOMPONENT_MASK@[25] == 0x3f && URL_ONCOMPONENT@[25] == 0x00);
    assert(URL_ONCOMPONENT_MASK@[26] == 0x3f && URL_ONCOMPONENT@[26] == 0x00);
    assert(URL_ONCOMPONENT_MASK@[27] == 0x78 && URL_ONCOMPONENT@[27] == 0x48);
    assert(URL_ONCOMPONENT_MASK@[28] == 0x78 && URL_ONCOMPONENT@[28] == 0x33);
    assert(URL_ONCOMPONENT_MASK@[29] == 0x78 && URL_ONCOMPONENT@[29] == 0xc4);
    assert(URL_ONCOMPONENT_MASK@[30] == 0x78 && URL_ONCOMPONENT@[30] == 0x48);
    assert(URL_ONCOMPONENT_MASK@[31] == 0x78 && URL_ONCOMPONENT@[31] == 0x89);
    assert(URL_ONCOMPONENT_MASK@[32] == 0x78 && URL_ONCOMPONENT@[32] == 0x45);
    assert(URL_ONCOMPONENT_MASK@[33] == 0x78 && URL_ONCOMPONENT@[33] == 0xf0);
    assert(URL_ONCOMPONENT_MASK@[34] == 0x78 && URL_ONCOMPONENT@[34] == 0x4d);
    assert(URL_ONCOMPONENT_MASK@[35] == 0x78 && URL_ONCOMPONENT@[35] == 0x8b);
    assert(URL_ONCOMPONENT_MASK@[36] == 0x78 && URL_ONCOMPONENT@[36] == 0xf9);
    assert(URL_ONCOMPONENT_MASK@[37] == 0x78 && URL_ONCOMPONENT@[37] == 0x4d);
    assert(URL_ONCOMPONENT_MASK@[38] == 0x78 && URL_ONCOMPONENT@[38] == 0x8b);
    assert(URL_ONCOMPONENT_MASK@[39] == 0x78 && URL_ONCOMPONENT@[39] == 0xf0);
    assert(URL_ONCOMPONENT_MASK@[40] == 0x78 && URL_ONCOMPONENT@[40] == 0x4c);
    assert(URL_ONCOMPONENT_MASK@[41] == 0x78 && URL_ONCOMPONENT@[41] == 0x8b);
    assert(URL_ONCOMPONENT_MASK@[42] == 0x78 && URL_ONCOMPONENT@[42] == 0xe9);
    if url_oncomponent_bytes(buf, at) {
        assert forall|k: int| 0 <= k < 43 implies #[trigger] URL_ONCOMPONENT_MASK@[k] == 0x3f
            || (k < URL_ONCOMPONENT@.len() && buf[at + k] == URL_ONCOMPONENT@[k]) by {}
    }
}

/// `URL_ONCOMPONENT` is reported at the first place at which its bytes stand.
pub proof fn law_url_oncomponent_is_reported(buf: Seq<u8>, at: int)
    requires
        url_oncomponent_bytes(buf, at),
        forall|i: int| 0 <= i < at ==> !#[trigger] url_oncomponent_bytes(buf, i),
    ensures
        reports(
            signature_entries(buf, signatures()),
            at,
            "URL_ONCOMPONENT"@,
            None,
            "HttpRequest FromComponents - rewrite scheme/host to localhost"@,
            43,
        ),
        next_pattern(buf, URL_ONCOMPONENT@, URL_ONCOMPONENT_MASK@, 0) == Some(at),
{
    lemma_url_oncomponent(buf, at);
    lemma_next_pattern(buf, URL_ONCOMPONENT@, URL_ONCOMPONENT_MASK@, 0);
    let y = next_pattern(buf, URL_ONCOMPONENT@, URL_ONCOMPONENT_MASK@, 0)->0;
    lemma_url_oncomponent(buf, y);
    let s = signatures()[0];
    lemma_reported(buf, signatures(), 0, at);
    let e = signature_entry(s, at);
    assert(signature_entries(buf, signatures()).contains(e));
}

/// Whether the bytes of `TRUSTCHECK` stand at `at`; those that are not named may be any.
pub open spec fn trustcheck_bytes(buf: Seq<u8>, at: int) -> bool {
    &&& 0 <= at && at + 47 <= buf.len()
    &&& buf[at] == 0x40 && buf[at + 1] == 0x55 && buf[at + 2] == 0x53 && buf[at + 3] == 0x56
    &&& buf[at + 4] == 0x57 && buf[at + 5] == 0x41 && buf[at + 6] == 0x54 && buf[at + 7] == 0x41
    &&& buf[at + 8] == 0x55 && buf[at + 9] == 0x41 && buf[at + 10] == 0x56 && buf[at + 11] == 0x41
    &&& buf[at + 12] == 0x57 && buf[at + 13] == 0x48 && buf[at + 14] == 0x8d
    &&& buf[at + 15] == 0x6c && buf[at + 16] == 0x24 && buf[at + 17] == 0xe1
    &&& buf[at + 18] == 0x48 && buf[at + 19] == 0x81 && buf[at + 20] == 0xec
    &&& buf[at + 21] == 0xd8 && buf[at + 22] == 0x00 && buf[at + 23] == 0x00
    &&& buf[at + 24] == 0x00 && buf[at + 25] == 0x48 && buf[at + 26] == 0x8b
    &&& buf[at + 27] == 0x05 && buf[at + 32] == 0x48 && buf[at + 33] == 0x33
    &&& buf[at + 34] == 0xc4 && buf[at + 35] == 0x48 && buf[at + 36] == 0x89
    &&& buf[at + 37] == 0x45 && buf[at + 38] == 0x07 && buf[at + 39] == 0x45
    &&& buf[at + 40] == 0x0f && buf[at + 41] == 0xb6 && buf[at + 42] == 0xe1
    &&& buf[at + 43] == 0x45 && buf[at + 44] == 0x0f && buf[at + 45] == 0xb6
    &&& buf[at + 46] == 0xf8
}

proof fn lemma_trustcheck(buf: Seq<u8>, at: int)
    ensures
        pattern_at(buf, TRUSTCHECK@, TRUSTCHECK_MASK@, at)
            <==> trustcheck_bytes(buf, at),
        TRUSTCHECK@.len() == 47,
        TRUSTCHECK_MASK@.len() == 47,
{
    assert(TRUSTCHECK_MASK@[0] == 0x78 && TRUSTCHECK@[0] == 0x40);
    assert(TRUSTCHECK_MASK@[1] == 0x78 && TRUSTCHECK@[1] == 0x55);
    assert(TRUSTCHECK_MASK@[2] == 0x78 && TRUSTCHECK@[2] == 0x53);
    assert(TRUSTCHECK_MASK@[3] == 0x78 && TRUSTCHECK@[3] == 0x56);
    assert(TRUSTCHECK_MASK@[4] == 0x78 && TRUSTCHECK@[4] == 0x57);
    assert(TRUSTCHECK_MASK@[5] == 0x78 && TRUSTCHECK@[5] == 0x41);
    assert(TRUSTCHECK_MASK@[6] == 0x78 && TRUSTCHECK@[6] == 0x54);
    assert(TRUSTCHECK_MASK@[7] == 0x78 && TRUSTCHECK@[7] == 0x41);
    assert(TRUSTCHECK_MASK@[8] == 0x78 && TRUSTCHECK@[8] == 0x55);
    assert(TRUSTCHECK_MASK@[9] == 0x78 && TRUSTCHECK@[9] == 0x41);
    assert(TRUSTCHECK_MASK@[10] == 0x78 && TRUSTCHECK@[10] == 0x56);
    assert(TRUSTCHECK_MASK@[11] == 0x78 && TRUSTCHECK@[11] == 0x41);
    assert(TRUSTCHECK_MASK@[12] == 0x78 && TRUSTCHECK@[12] == 0x57);
    assert(TRUSTCHECK_MASK@[13] == 0x78 && TRUSTCHECK@[13] == 0x48);
    assert(TRUSTCHECK_MASK@[14] == 0x78 && TRUSTCHECK@[14] == 0x8d);
    assert(TRUSTCHECK_MASK@[15] == 0x78 && TRUSTCHECK@[15] == 0x6c);
    assert(TRUSTCHECK_MASK@[16] == 0x78 && TRUSTCHECK@[16] == 0x24);
    assert(TRUSTCHECK_MASK@[17] == 0x78 && TRUSTCHECK@[17] == 0xe1);
    assert(TRUSTCHECK_MASK@[18] == 0x78 && TRUSTCHECK@[18] == 0x48);
    assert(TRUSTCHECK_MASK@[19] == 0x78 && TRUSTCHECK@[19] == 0x81);
    assert(TRUSTCHECK_MASK@[20] == 0x78 && TRUSTCHECK@[20] == 0xec);
    assert(TRUSTCHECK_MASK@[21] == 0x78 && TRUSTCHECK@[21] == 0xd8);
    assert(TRUSTCHECK_MASK@[22] == 0x78 && TRUSTCHECK@[22] == 0x00);
    assert(TRUSTCHECK_MASK@[23] == 0x78 && TRUSTCHECK@[23] == 0x00);
    assert(TRUSTCHECK_MASK@[24] == 0x78 && TRUSTCHECK@[24] == 0x00);
    assert(TRUSTCHECK_MASK@[25] == 0x78 && TRUSTCHECK@[25] == 0x48);
    assert(TRUSTCHECK_MASK@[26] == 0x78 && TRUSTCHECK@[26] == 0x8b);
    assert(TRUSTCHECK_MASK@[27] == 0x78 && TRUSTCHECK@[27] == 0x05);
    assert(TRUSTCHECK_MASK@[28] == 0x3f && TRUSTCHECK@[28] == 0x00);
    assert(TRUSTCHECK_MASK@[29] == 0x3f && TRUSTCHECK@[29] == 0x00);
    assert(TRUSTCHECK_MASK@[30] == 0x3f && TRUSTCHECK@[30] == 0x00);
    assert(TRUSTCHECK_MASK@[31] == 0x3f && TRUSTCHECK@[31] == 0x00);
    assert(TRUSTCHECK_MASK@[32] == 0x78 && TRUSTCHECK@[32] == 0x48);
    assert(TRUSTCHECK_MASK@[33] == 0x78 && TRUSTCHECK@[33] == 0x33);
    assert(TRUSTCHECK_MASK@[34] == 0x78 && TRUSTCHECK@[34] == 0xc4);
    assert(TRUSTCHECK_MASK@[35] == 0x78 && TRUSTCHECK@[35] == 0x48);
    assert(TRUSTCHECK_MASK@[36] == 0x78 && TRUSTCHECK@[36] == 0x89);
    assert(TRUSTCHECK_MASK@[37] == 0x78 && TRUSTCHECK@[37] == 0x45);
    assert(TRUSTCHECK_MASK@[38] == 0x78 && TRUSTCHECK@[38] == 0x07);
    assert(TRUSTCHECK_MASK@[39] == 0x78 && TRUSTCHECK@[39] == 0x45);
    assert(TRUSTCHECK_MASK@[40] == 0x78 && TRUSTCHECK@[40] == 0x0f);
    assert(TRUSTCHECK_MASK@[41] == 0x78 && TRUSTCHECK@[41] == 0xb6);
    assert(TRUSTCHECK_MASK@[42] == 0x78 && TRUSTCHECK@[42] == 0xe1);
    assert(TRUSTCHECK_MASK@[43] == 0x78 && TRUSTCHECK@[43] == 0x45);
    assert(TRUSTCHECK_MASK@[44] == 0x78 && TRUSTCHECK@[44] == 0x0f);
    assert(TRUSTCHECK_MASK@[45] == 0x78 && TRUSTCHECK@[45] == 0xb6);
    assert(TRUSTCHECK_MASK@[46] == 0x78 && TRUSTCHECK@[46] == 0xf8);
    if trustcheck_bytes(buf, at) {
        assert forall|k: int| 0 <= k < 47 implies #[trigger] TRUSTCHECK_MASK@[k] == 0x3f
            || (k < TRUSTCHECK@.len() && buf[at + k] == TRUSTCHECK@[k]) by {}
    }
}

/// `TRUSTCHECK` is reported at the first place at which its bytes stand.
pub proof fn law_trustcheck_is_reported(buf: Seq<u8>, at: int)
    requires
        trustcheck_bytes(buf, at),
        forall|i: int| 0 <= i < at ==> !#[trigger] trustcheck_bytes(buf, i),
    ensures
        reports(
            signature_entries(buf, signatures()),
            at,
            "TRUSTCHECK"@,
            None,
            "TrustCheck - trust localhost URLs"@,
            47,
        ),
        next_pattern(buf, TRUSTCHECK@, TRUSTCHECK_MASK@, 0) == Some(at),
{
    lemma_trustcheck(buf, at);
    lemma_next_pattern(buf, TRUSTCHECK@, TRUSTCHECK_MASK@, 0);
    let y = next_pattern(buf, TRUSTCHECK@, TRUSTCHECK_MASK@, 0)->0;
    lemma_trustcheck(buf, y);
    let s = signatures()[1];
    lemma_reported(buf, signatures(), 1, at);
    let e = signature_entry(s, at);
    assert(signature_entries(buf, signatures()).contains(e));
}

/// Whether the bytes of `HTTP_REQUEST_URL` stand at `at`; those that are not named may be any.
pub open spec fn http_request_url_bytes(buf: Seq<u8>, at: int) -> bool {
    &&& 0 <= at && at + 33 <= buf.len()
    &&& buf[at] == 0x48 && buf[at + 1] == 0x89 && buf[at + 2] == 0x74 && buf[at + 3] == 0x24
    &&& buf[at + 5] == 0x57 && buf[at + 6] == 0x48 && buf[at + 7] == 0x83 && buf[at + 8] == 0xec
    &&& buf[at + 10] == 0x48 && buf[at + 11] == 0x8b && buf[at + 12] == 0xfa
    &&& buf[at + 13] == 0x48 && buf[at + 14] == 0x8b && buf[at + 15] == 0xf1
    &&& buf[at + 16] == 0xe8 && buf[at + 21] == 0x48 && buf[at + 22] == 0x85
    &&& buf[at + 23] == 0xc0 && buf[at + 24] == 0x0f && buf[at + 25] == 0x84
    &&& buf[at + 30] == 0x48 && buf[at + 31] == 0x8b && buf[at + 32] == 0xc8
}

proof fn lemma_http_request_url(buf: Seq<u8>, at: int)
    ensures
        pattern_at(buf, HTTP_REQUEST_URL@, HTTP_REQUEST_URL_MASK@, at)
            <==> http_request_url_bytes(buf, at),
        HTTP_REQUEST_URL@.len() == 33,
        HTTP_REQUEST_URL_MASK@.len() == 33,
{
    assert(HTTP_REQUEST_URL_MASK@[0] == 0x78 && HTTP_REQUEST_URL@[0] == 0x48);
    assert(HTTP_REQUEST_URL_MASK@[1] == 0x78 && HTTP_REQUEST_URL@[1] == 0x89);
    assert(HTTP_REQUEST_URL_MASK@[2] == 0x78 && HTTP_REQUEST_URL@[2] == 0x74);
    assert(HTTP_REQUEST_URL_MASK@[3] == 0x78 && HTTP_REQUEST_URL@[3] == 0x24);
    assert(HTTP_REQUEST_URL_MASK@[4] == 0x3f && HTTP_REQUEST_URL@[4] == 0x00);
    assert(HTTP_REQUEST_URL_MASK@[5] == 0x78 && HTTP_REQUEST_URL@[5] == 0x57);
    assert(HTTP_REQUEST_URL_MASK@[6] == 0x78 && HTTP_REQUEST_URL@[6] == 0x48);
    assert(HTTP_REQUEST_URL_MASK@[7] == 0x78 && HTTP_REQUEST_URL@[7] == 0x83);
    assert(HTTP_REQUEST_URL_MASK@[8] == 0x78 && HTTP_REQUEST_URL@[8] == 0xec);
    assert(HTTP_REQUEST_URL_MASK@[9] == 0x3f && HTTP_REQUEST_URL@[9] == 0x00);
    assert(HTTP_REQUEST_URL_MASK@[10] == 0x78 && HTTP_REQUEST_URL@[10] == 0x48);
    assert(HTTP_REQUEST_URL_MASK@[11] == 0x78 && HTTP_REQUEST_URL@[11] == 0x8b);
    assert(HTTP_REQUEST_URL_MASK@[12] == 0x78 && HTTP_REQUEST_URL@[12] == 0xfa);
    assert(HTTP_REQUEST_URL_MASK@[13] == 0x78 && HTTP_REQUEST_URL@[13] == 0x48);
    assert(HTTP_REQUEST_URL_MASK@[14] == 0x78 && HTTP_REQUEST_URL@[14] == 0x8b);
    assert(HTTP_REQUEST_URL_MASK@[15] == 0x78 && HTTP_REQUEST_URL@[15] == 0xf1);
    assert(HTTP_REQUEST_URL_MASK@[16] == 0x78 && HTTP_REQUEST_URL@[16] == 0xe8);
    assert(HTTP_REQUEST_URL_MASK@[17] == 0x3f && HTTP_REQUEST_URL@[17] == 0x00);
    assert(HTTP_REQUEST_URL_MASK@[18] == 0x3f && HTTP_REQUEST_URL@[18] == 0x00);
    assert(HTTP_REQUEST_URL_MASK@[19] == 0x3f && HTTP_REQUEST_URL@[19] == 0x00);
    assert(HTTP_REQUEST_URL_MASK@[20] == 0x3f && HTTP_REQUEST_URL@[20] == 0x00);
    assert(HTTP_REQUEST_URL_MASK@[21] == 0x78 && HTTP_REQUEST_URL@[21] == 0x48);
    assert(HTTP_REQUEST_URL_MASK@[22] == 0x78 && HTTP_REQUEST_URL@[22] == 0x85);
    assert(HTTP_REQUEST_URL_MASK@[23] == 0x78 && HTTP_REQUEST_URL@[23] == 0xc0);
    assert(HTTP_REQUEST_URL_MASK@[24] == 0x78 && HTTP_REQUEST_URL@[24] == 0x0f);
    assert(HTTP_REQUEST_URL_MASK@[25] == 0x78 && HTTP_REQUEST_URL@[25] == 0x84);
    assert(HTTP_REQUEST_URL_MASK@[26] == 0x3f && HTTP_REQUEST_URL@[26] == 0x00);
    assert(HTTP_REQUEST_URL_MASK@[27] == 0x3f && HTTP_REQUEST_URL@[27] == 0x00);
    assert(HTTP_REQUEST_URL_MASK@[28] == 0x3f && HTTP_REQUEST_URL@[28] == 0x00);
    assert(HTTP_REQUEST_URL_MASK@[29] == 0x3f && HTTP_REQUEST_URL@[29] == 0x00);
    assert(HTTP_REQUEST_URL_MASK@[30] == 0x78 && HTTP_REQUEST_URL@[30] == 0x48);
    assert(HTTP_REQUEST_URL_MASK@[31] == 0x78 && HTTP_REQUEST_URL@[31] == 0x8b);
    assert(HTTP_REQUEST_URL_MASK@[32] == 0x78 && HTTP_REQUEST_URL@[32] == 0xc8);
    if http_request_url_bytes(buf, at) {
        assert forall|k: int| 0 <= k < 33 implies #[trigger] HTTP_REQUEST_URL_MASK@[k] == 0x3f
            || (k < HTTP_REQUEST_URL@.len() && buf[at + k] == HTTP_REQUEST_URL@[k]) by {}
    }
}

/// `HTTP_REQUEST_URL` is reported at the first place at which its bytes stand.
pub proof fn law_http_request_url_is_reported(buf: Seq<u8>, at: int)
    requires
        http_request_url_bytes(buf, at),
        forall|i: int| 0 <= i < at ==> !#[trigger] http_request_url_bytes(buf, i),
    ensures
        reports(
            signature_entries(buf, signatures()),
            at,
            "HTTP_REQUEST_URL"@,
            None,
            "HttpRequest notTrusted hook - always return trusted"@,
            33,
        ),
        next_pattern(buf, HTTP_REQUEST_URL@, HTTP_REQUEST_URL_MASK@, 0) == Some(at),
{
    lemma_http_request_url(buf, at);
    lemma_next_pattern(buf, HTTP_REQUEST_URL@, HTTP_REQUEST_URL_MASK@, 0);
    let y = next_pattern(buf, HTTP_REQUEST_URL@, HTTP_REQUEST_URL_MASK@, 0)->0;
    lemma_http_request_url(buf, y);
    let s = signatures()[2];
    lemma_reported(buf, signatures(), 2, at);
    let e = signature_entry(s, at);
    assert(signature_entries(buf, signatures()).contains(e));
}

/// Whether the bytes of `FETCHER_JNE_THROW` stand at `at`; those that are not named may be any.
pub open spec fn fetcher_jne_throw_bytes(buf: Seq<u8>, at: int) -> bool {
    &&& 0 <= at && at + 21 <= buf.len()
    &&& buf[at] == 0x80 && buf[at + 1] == 0xbd && buf[at + 2] == 0xa8 && buf[at + 3] == 0x01
    &&& buf[at + 4] == 0x00 && buf[at + 5] == 0x00 && buf[at + 6] == 0x00 && buf[at + 7] == 0x0f
    &&& buf[at + 8] == 0x85 && buf[at + 9] == 0x66 && buf[at + 10] == 0x02 && buf[at + 11] == 0x00
    &&& buf[at + 12] == 0x00 && buf[at + 13] == 0x49 && buf[at + 14] == 0x8b
    &&& buf[at + 15] == 0xd5 && buf[at + 16] == 0x48 && buf[at + 17] == 0x8d
    &&& buf[at + 18] == 0x4c && buf[at + 19] == 0x24 && buf[at + 20] == 0x50
}

proof fn lemma_fetcher_jne_throw(buf: Seq<u8>, at: int)
    ensures
        pattern_at(buf, FETCHER_JNE_THROW@, FETCHER_JNE_THROW_MASK@, at)
            <==> fetcher_jne_throw_bytes(buf, at),
        FETCHER_JNE_THROW@.len() == 21,
        FETCHER_JNE_THROW_MASK@.len() == 21,
{
    assert(FETCHER_JNE_THROW_MASK@[0] == 0x78 && FETCHER_JNE_THROW@[0] == 0x80);
    assert(FETCHER_JNE_THROW_MASK@[1] == 0x78 && FETCHER_JNE_THROW@[1] == 0xbd);
    assert(FETCHER_JNE_THROW_MASK@[2] == 0x78 && FETCHER_JNE_THROW@[2] == 0xa8);
    assert(FETCHER_JNE_THROW_MASK@[3] == 0x78 && FETCHER_JNE_THROW@[3] == 0x01);
    assert(FETCHER_JNE_THROW_MASK@[4] == 0x78 && FETCHER_JNE_THROW@[4] == 0x00);
    assert(FETCHER_JNE_THROW_MASK@[5] == 0x78 && FETCHER_JNE_THROW@[5] == 0x00);
    assert(FETCHER_JNE_THROW_MASK@[6] == 0x78 && FETCHER_JNE_THROW@[6] == 0x00);
    assert(FETCHER_JNE_THROW_MASK@[7] == 0x78 && FETCHER_JNE_THROW@[7] == 0x0f);
    assert(FETCHER_JNE_THROW_MASK@[8] == 0x78 && FETCHER_JNE_THROW@[8] == 0x85);
    assert(FETCHER_JNE_THROW_MASK@[9] == 0x78 && FETCHER_JNE_THROW@[9] == 0x66);
    assert(FETCHER_JNE_THROW_MASK@[10] == 0x78 && FETCHER_JNE_THROW@[10] == 0x02);
    assert(FETCHER_JNE_THROW_MASK@[11] == 0x78 && FETCHER_JNE_THROW@[11] == 0x00);
    assert(FETCHER_JNE_THROW_MASK@[12] == 0x78 && FETCHER_JNE_THROW@[12] == 0x00);
    assert(FETCHER_JNE_THROW_MASK@[13] == 0x78 && FETCHER_JNE_THROW@[13] == 0x49);
    assert(FETCHER_JNE_THROW_MASK@[14] == 0x78 && FETCHER_JNE_THROW@[14] == 0x8b);
    assert(FETCHER_JNE_THROW_MASK@[15] == 0x78 && FETCHER_JNE_THROW@[15] == 0xd5);
    assert(FETCHER_JNE_THROW_MASK@[16] == 0x78 && FETCHER_JNE_THROW@[16] == 0x48);
    assert(FETCHER_JNE_THROW_MASK@[17] == 0x78 && FETCHER_JNE_THROW@[17] == 0x8d);
    assert(FETCHER_JNE_THROW_MASK@[18] == 0x78 && FETCHER_JNE_THROW@[18] == 0x4c);
    assert(FETCHER_JNE_THROW_MASK@[19] == 0x78 && FETCHER_JNE_THROW@[19] == 0x24);
    assert(FETCHER_JNE_THROW_MASK@[20] == 0x78 && FETCHER_JNE_THROW@[20] == 0x50);
    if fetcher_jne_throw_bytes(buf, at) {
        assert forall|k: int| 0 <= k < 21 implies #[trigger] FETCHER_JNE_THROW_MASK@[k] == 0x3f
            || (k < FETCHER_JNE_THROW@.len() && buf[at + k] == FETCHER_JNE_THROW@[k]) by {}
    }
}

/// `FETCHER_JNE_THROW` is reported at the first place at which its bytes stand.
pub proof fn law_fetcher_jne_throw_is_reported(buf: Seq<u8>, at: int)
    requires
        fetcher_jne_throw_bytes(buf, at),
        forall|i: int| 0 <= i < at ==> !#[trigger] fetcher_jne_throw_bytes(buf, i),
    ensures
        reports(
            signature_entries(buf, signatures()),
            at,
            "FETCHER_JNE_THROW"@,
            Some((7int, seq![0x90u8, 0x90u8, 0x90u8, 0x90u8, 0x90u8, 0x90u8])),
            "NOP out fetcher jne so latest-place-version falls through to dispatcher"@,
            21,
        ),
        next_pattern(buf, FETCHER_JNE_THROW@, FETCHER_JNE_THROW_MASK@, 0) == Some(at),
{
    lemma_fetcher_jne_throw(buf, at);
    lemma_next_pattern(buf, FETCHER_JNE_THROW@, FETCHER_JNE_THROW_MASK@, 0);
    let y = next_pattern(buf, FETCHER_JNE_THROW@, FETCHER_JNE_THROW_MASK@, 0)->0;
    lemma_fetcher_jne_throw(buf, y);
    let s = signatures()[3];
    lemma_reported(buf, signatures(), 3, at);
    let e = signature_entry(s, at);
    assert(signature_entries(buf, signatures()).contains(e));
    assert(e.patch_bytes->0 =~= seq![0x90u8, 0x90u8, 0x90u8, 0x90u8, 0x90u8, 0x90u8]);
}

/// Whether the bytes of `ASYNC_TRUST_CHECK` stand at `at`; those that are not named may be any.
pub open spec fn async_trust_check_bytes(buf: Seq<u8>, at: int) -> bool {
    &&& 0 <= at && at + 32 <= buf.len()
    &&& buf[at] == 0x44 && buf[at + 1] == 0x0f && buf[at + 2] == 0xb6 && buf[at + 3] == 0x4c
    &&& buf[at + 4] == 0x24 && buf[at + 5] == 0x40 && buf[at + 6] == 0x45 && buf[at + 7] == 0x0f
    &&& buf[at + 8] == 0xb6 && buf[at + 9] == 0xc4 && buf[at + 10] == 0x33 && buf[at + 11] == 0xd2
    &&& buf[at + 12] == 0xe8 && buf[at + 17] == 0x84 && buf[at + 18] == 0xc0
    &&& buf[at + 19] == 0x0f && buf[at + 20] == 0x85 && buf[at + 25] == 0x48
    &&& buf[at + 26] == 0x8d && buf[at + 27] == 0x05
}

proof fn lemma_async_trust_check(buf: Seq<u8>, at: int)
    ensures
        pattern_at(buf, ASYNC_TRUST_CHECK@, ASYNC_TRUST_CHECK_MASK@, at)
            <==> async_trust_check_bytes(buf, at),
        ASYNC_TRUST_CHECK@.len() == 32,
        ASYNC_TRUST_CHECK_MASK@.len() == 32,
{
    assert(ASYNC_TRUST_CHECK_MASK@[0] == 0x78 && ASYNC_TRUST_CHECK@[0] == 0x44);
    assert(ASYNC_TRUST_CHECK_MASK@[1] == 0x78 && ASYNC_TRUST_CHECK@[1] == 0x0f);
    assert(ASYNC_TRUST_CHECK_MASK@[2] == 0x78 && ASYNC_TRUST_CHECK@[2] == 0xb6);
    assert(ASYNC_TRUST_CHECK_MASK@[3] == 0x78 && ASYNC_TRUST_CHECK@[3] == 0x4c);
    assert(ASYNC_TRUST_CHECK_MASK@[4] == 0x78 && ASYNC_TRUST_CHECK@[4] == 0x24);
    assert(ASYNC_TRUST_CHECK_MASK@[5] == 0x78 && ASYNC_TRUST_CHECK@[5] == 0x40);
    assert(ASYNC_TRUST_CHECK_MASK@[6] == 0x78 && ASYNC_TRUST_CHECK@[6] == 0x45);
    assert(ASYNC_TRUST_CHECK_MASK@[7] == 0x78 && ASYNC_TRUST_CHECK@[7] == 0x0f);
    assert(ASYNC_TRUST_CHECK_MASK@[8] == 0x78 && ASYNC_TRUST_CHECK@[8] == 0xb6);
    assert(ASYNC_TRUST_CHECK_MASK@[9] == 0x78 && ASYNC_TRUST_CHECK@[9] == 0xc4);
    assert(ASYNC_TRUST_CHECK_MASK@[10] == 0x78 && ASYNC_TRUST_CHECK@[10] == 0x33);
    assert(ASYNC_TRUST_CHECK_MASK@[11] == 0x78 && ASYNC_TRUST_CHECK@[11] == 0xd2);
    assert(ASYNC_TRUST_CHECK_MASK@[12] == 0x78 && ASYNC_TRUST_CHECK@[12] == 0xe8);
    assert(ASYNC_TRUST_CHECK_MASK@[13] == 0x3f && ASYNC_TRUST_CHECK@[13] == 0x00);
    assert(ASYNC_TRUST_CHECK_MASK@[14] == 0x3f && ASYNC_TRUST_CHECK@[14] == 0x00);
    assert(ASYNC_TRUST_CHECK_MASK@[15] == 0x3f && ASYNC_TRUST_CHECK@[15] == 0x00);
    assert(ASYNC_TRUST_CHECK_MASK@[16] == 0x3f && ASYNC_TRUST_CHECK@[16] == 0x00);
    assert(ASYNC_TRUST_CHECK_MASK@[17] == 0x78 && ASYNC_TRUST_CHECK@[17] == 0x84);
    assert(ASYNC_TRUST_CHECK_MASK@[18] == 0x78 && ASYNC_TRUST_CHECK@[18] == 0xc0);
    assert(ASYNC_TRUST_CHECK_MASK@[19] == 0x78 && ASYNC_TRUST_CHECK@[19] == 0x0f);
    assert(ASYNC_TRUST_CHECK_MASK@[20] == 0x78 && ASYNC_TRUST_CHECK@[20] == 0x85);
    assert(ASYNC_TRUST_CHECK_MASK@[21] == 0x3f && ASYNC_TRUST_CHECK@[21] == 0x00);
    assert(ASYNC_TRUST_CHECK_MASK@[22] == 0x3f && ASYNC_TRUST_CHECK@[22] == 0x00);
    assert(ASYNC_TRUST_CHECK_MASK@[23] == 0x3f && ASYNC_TRUST_CHECK@[23] == 0x00);
    assert(ASYNC_TRUST_CHECK_MASK@[24] == 0x3f && ASYNC_TRUST_CHECK@[24] == 0x00);
    assert(ASYNC_TRUST_CHECK_MASK@[25] == 0x78 && ASYNC_TRUST_CHECK@[25] == 0x48);
    assert(ASYNC_TRUST_CHECK_MASK@[26] == 0x78 && ASYNC_TRUST_CHECK@[26] == 0x8d);
    assert(ASYNC_TRUST_CHECK_MASK@[27] == 0x78 && ASYNC_TRUST_CHECK@[27] == 0x05);
    assert(ASYNC_TRUST_CHECK_MASK@[28] == 0x3f && ASYNC_TRUST_CHECK@[28] == 0x00);
    assert(ASYNC_TRUST_CHECK_MASK@[29] == 0x3f && ASYNC_TRUST_CHECK@[29] == 0x00);
    assert(ASYNC_TRUST_CHECK_MASK@[30] == 0x3f && ASYNC_TRUST_CHECK@[30] == 0x00);
    assert(ASYNC_TRUST_CHECK_MASK@[31] == 0x3f && ASYNC_TRUST_CHECK@[31] == 0x00);
    if async_trust_check_bytes(buf, at) {
        assert forall|k: int| 0 <= k < 32 implies #[trigger] ASYNC_TRUST_CHECK_MASK@[k] == 0x3f
            || (k < ASYNC_TRUST_CHECK@.len() && buf[at + k] == ASYNC_TRUST_CHECK@[k]) by {}
    }
}

/// `ASYNC_TRUST_CHECK` is reported at the first place at which its bytes stand.
pub proof fn law_async_trust_check_is_reported(buf: Seq<u8>, at: int)
    requires
        async_trust_check_bytes(buf, at),
        forall|i: int| 0 <= i < at ==> !#[trigger] async_trust_check_bytes(buf, i),
    ensures
        reports(
            signature_entries(buf, signatures()),
            at,
            "ASYNC_TRUST_CHECK"@,
            Some((17int, seq![0x0cu8, 0x01u8])),
            "AsyncHttpQueue trust check: test al,al -> or al,1 so jne always takes success path"@,
            32,
        ),
        next_pattern(buf, ASYNC_TRUST_CHECK@, ASYNC_TRUST_CHECK_MASK@, 0) == Some(at),
{
    lemma_async_trust_check(buf, at);
    lemma_next_pattern(buf, ASYNC_TRUST_CHECK@, ASYNC_TRUST_CHECK_MASK@, 0);
    let y = next_pattern(buf, ASYNC_TRUST_CHECK@, ASYNC_TRUST_CHECK_MASK@, 0)->0;
    lemma_async_trust_check(buf, y);
    let s = signatures()[4];
    lemma_reported(buf, signatures(), 4, at);
    let e = signature_entry(s, at);
    assert(signature_entries(buf, signatures()).contains(e));
    assert(e.patch_bytes->0 =~= seq![0x0cu8, 0x01u8]);
}

/// Nothing else is reported: every entry is of one of the five signatures, whose bytes stand at
/// its place.
pub proof fn law_only_signatures_are_reported(buf: Seq<u8>, k: int)
    requires
        0 <= k < signature_entries(buf, signatures()).len(),
    ensures
        ({
            let e = signature_entries(buf, signatures())[k];
            ||| e.name == "URL_ONCOMPONENT"@ && url_oncomponent_bytes(buf, e.rva)
            ||| e.name == "TRUSTCHECK"@ && trustcheck_bytes(buf, e.rva)
            ||| e.name == "HTTP_REQUEST_URL"@ && http_request_url_bytes(buf, e.rva)
            ||| e.name == "FETCHER_JNE_THROW"@ && fetcher_jne_throw_bytes(buf, e.rva)
            ||| e.name == "ASYNC_TRUST_CHECK"@ && async_trust_check_bytes(buf, e.rva)
        }),
        signature_entries(buf, signatures()).len() <= 5,
{
    lemma_source(buf, signatures(), k);
    let e = signature_entries(buf, signatures())[k];
    lemma_url_oncomponent(buf, e.rva);
    lemma_trustcheck(buf, e.rva);
    lemma_http_request_url(buf, e.rva);
    lemma_fetcher_jne_throw(buf, e.rva);
    lemma_async_trust_check(buf, e.rva);
}

proof fn lemma_source(buf: Seq<u8>, sigs: Seq<Signature>, k: int)
    requires
        0 <= k < signature_entries(buf, sigs).len(),
    ensures
        signature_entries(buf, sigs).len() <= sigs.len(),
        exists|j: int|
            0 <= j < sigs.len() && signature_entries(buf, sigs)[k].name == (#[trigger] sigs[j]).name
                && pattern_at(
                buf,
                sigs[j].bytes,
                sigs[j].mask,
                signature_entries(buf, sigs)[k].rva,
            ),
    decreases sigs.len(),
{
    let front = sigs.drop_last();
    let before = signature_entries(buf, front);
    let all = signature_entries(buf, sigs);
    if before.len() > 0 {
        lemma_source(buf, front, 0);
    }
    if k < before.len() {
        lemma_source(buf, front, k);
        let j = choose|j: int|
            0 <= j < front.len() && before[k].name == (#[trigger] front[j]).name && pattern_at(
                buf,
                front[j].bytes,
                front[j].mask,
                before[k].rva,
            );
        assert(sigs[j] == front[j]);
        assert(all[k] == before[k]);
    } else {
        let s = sigs[sigs.len() - 1];
        lemma_next_pattern(buf, s.bytes, s.mask, 0);
    }
}

} // verus!
