//! Everything that is found in an image.
use crate::cookie::{find_security_cookie, opt_cookie, security_cookie, SecurityCookieEntry};
use crate::pe::PeImage;
use crate::scan_patterns::{
    entries, scan_patterns, signature_entries, signatures, PatternEntry, PatternView,
};
use crate::scan_trust::{
    all_text_entries, callers_readable, find_trust_checks, find_trust_strings, gate_entries,
    reported_texts, string_entries, trust_gates, TrustStringEntry,
};
use crate::scan_urls::{find_urls, url_views, UrlEntry};
use crate::trust_laws::{fits, law_gate_entries_fit, law_signatures_stand_where_found};
use crate::url_laws::entries_of;
use vstd::prelude::*;

verus! {

/// What was found in an image.
#[derive(Debug, Clone)]
pub struct Findings {
    pub urls: Vec<UrlEntry>,
    pub patterns: Vec<PatternEntry>,
    pub security_cookie: Option<SecurityCookieEntry>,
    pub trust_strings: Vec<TrustStringEntry>,
}

/// The signatures of an image, and behind them the trust gates that no signature patches.
pub open spec fn all_patterns(buf: Seq<u8>, base: int) -> Seq<PatternView> {
    signature_entries(buf, signatures()) + gate_entries(
        trust_gates(buf, base),
        signature_entries(buf, signatures()),
    )
}

/// Everything that is found in an image.
pub fn scan(image: &PeImage) -> (r: Findings)
    requires
        callers_readable(image.reconstructed@, image.image_base as int),
    ensures
        url_views(r.urls@) == entries_of(image.reconstructed@, false) + entries_of(
            image.reconstructed@,
            true,
        ),
        entries(r.patterns@) == all_patterns(image.reconstructed@, image.image_base as int),
        opt_cookie(r.security_cookie) == security_cookie(
            image.reconstructed@,
            image.image_base as int,
        ),
        string_entries(r.trust_strings@) == all_text_entries(
            image.reconstructed@,
            reported_texts(),
        ),
{
    let urls = find_urls(image);
    let mut patterns = scan_patterns(image);
    let mut gates = find_trust_checks(image, &patterns);
    let ghost first = patterns@;
    let ghost second = gates@;
    patterns.append(&mut gates);
    assert(entries(patterns@) =~= entries(first) + entries(second));
    Findings {
        urls,
        patterns,
        security_cookie: find_security_cookie(image),
        trust_strings: find_trust_strings(image),
    }
}

/// What is found is every signature, and behind them every trust gate that none of these patches.
pub proof fn law_findings_are_signatures_and_gates(buf: Seq<u8>, base: int, k: int)
    ensures
        ({
            let all = all_patterns(buf, base);
            let first = signature_entries(buf, signatures());
            let second = gate_entries(trust_gates(buf, base), first);
            &&& all.len() == first.len() + second.len()
            &&& 0 <= k < first.len() ==> all[k] == first[k]
            &&& 0 <= k < second.len() ==> all[first.len() + k] == second[k]
        }),
{
}

/// Every signature and every gate that is found is fit for the image that was scanned: its
/// masked bytes stand at its place, and what it patches lies inside them.
pub proof fn law_findings_fit_the_image(buf: Seq<u8>, base: int, k: int)
    requires
        callers_readable(buf, base),
        0 <= k < all_patterns(buf, base).len(),
    ensures
        fits(buf, all_patterns(buf, base)[k]),
{
    let first = signature_entries(buf, signatures());
    if k < first.len() {
        law_signatures_stand_where_found(buf, k);
    } else {
        law_gate_entries_fit(buf, base, first, k - first.len());
    }
}

} // verus!
