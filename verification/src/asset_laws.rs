//! What requests for assets mean, stated on their texts.
use crate::assets::{
    any_names_place, asset_asked, batch_plan_of, batch_status_of, cookie_value, delivery_url,
    direct_plan_of, fetched_of, first_named, grab_of, local_answers, md5_of, names_place, part_with,
    percent_decoded, plan_of, requested_name, source_of, AssetPlanView, BatchPlanView,
    BatchRequestEntry, Fetched, Source,
};
use crate::avatar::{file_of, last_file, UploadField};
use crate::logging::cut;
use crate::numbers::{decimal, hex_bytes, parsed_i64};
use crate::startup::{start_of, Start};
use crate::text::index_of;
use crate::text_laws::{
    blank, law_hex_reads_back, law_numbers_are_read, law_sign_stands_in_front,
    law_trimming_takes_the_white_space, value_in,
};
use vstd::prelude::*;
use vstd::utf8::encode_utf8;

verus! {

/// The file of an asset is named by its id, and where a list of representations was asked for, by
/// a hyphen and the hexadecimal digits of that list's digest.
pub proof fn law_file_is_named_by_id_and_digest(id: Seq<char>, raw: Seq<char>, i: int)
    ensures
        requested_name(id, None) == id,
        percent_decoded(raw) is None ==> requested_name(id, Some(raw)) == id,
        percent_decoded(raw) matches Some(list) ==> {
            let name = requested_name(id, Some(raw));
            let digest = md5_of(encode_utf8(list));
            &&& name.len() == id.len() + 1 + 2 * digest.len()
            &&& name.take(id.len() as int) == id
            &&& name[id.len() as int] == '-'
            &&& 0 <= i < digest.len() ==> value_in(
                name.subrange(id.len() + 1 + 2 * i, id.len() + 1 + 2 * i + 2),
                16,
            ) == digest[i]
        },
{
    reveal_strlit("-");
    if let Some(list) = percent_decoded(raw) {
        let digest = md5_of(encode_utf8(list));
        let name = requested_name(id, Some(raw));
        assert(name.take(id.len() as int) =~= id);
        if 0 <= i < digest.len() {
            law_hex_reads_back(digest, i);
            assert(name.subrange(id.len() + 1 + 2 * i, id.len() + 1 + 2 * i + 2) =~= hex_bytes(
                digest,
            ).subrange(2 * i, 2 * i + 2));
        }
    }
}

/// Whether a part of a query stands from `i` to `e`: between ampersands or the ends.
pub open spec fn query_part_stands(q: Seq<char>, i: int, e: int) -> bool {
    &&& 0 <= i <= e <= q.len()
    &&& i == 0 || q[i - 1] == '&'
    &&& e == q.len() || q[e] == '&'
    &&& forall|k: int| i <= k < e ==> #[trigger] q[k] != '&'
}

/// Whether a text begins with another.
pub open spec fn begins(s: Seq<char>, prefix: Seq<char>) -> bool {
    prefix.len() <= s.len() && s.subrange(0, prefix.len() as int) == prefix
}

proof fn lemma_part_end(q: Seq<char>, from: int)
    requires
        0 <= from <= q.len(),
    ensures
        from <= index_of(q, '&', from) <= q.len(),
        index_of(q, '&', from) < q.len() ==> q[index_of(q, '&', from)] == '&',
        forall|k: int| from <= k < index_of(q, '&', from) ==> #[trigger] q[k] != '&',
    decreases q.len() - from,
{
    if from < q.len() && q[from] != '&' {
        lemma_part_end(q, from + 1);
    }
}

proof fn lemma_part(q: Seq<char>, prefix: Seq<char>, from: int)
    requires
        0 <= from <= q.len(),
        from == 0 || q[from - 1] == '&',
    ensures
        match part_with(q, prefix, from) {
            Some(part) => exists|i: int, e: int|
                {
                    &&& from <= i
                    &&& #[trigger] query_part_stands(q, i, e)
                    &&& part == q.subrange(i, e)
                    &&& begins(q.subrange(i, e), prefix)
                    &&& forall|a: int, b: int|
                        from <= a < i && #[trigger] query_part_stands(q, a, b) ==> !begins(
                            q.subrange(a, b),
                            prefix,
                        )
                },
            None => forall|a: int, b: int|
                from <= a && #[trigger] query_part_stands(q, a, b) ==> !begins(
                    q.subrange(a, b),
                    prefix,
                ),
        },
    decreases q.len() + 1 - from,
{
    let end = index_of(q, '&', from);
    lemma_part_end(q, from);
    assert(query_part_stands(q, from, end));
    assert forall|a: int, b: int|
        from <= a <= end && #[trigger] query_part_stands(q, a, b) implies a == from && b == end by {
        if a > from {
            assert(q[a - 1] == '&');
        }
        if b < end {
            assert(q[b] == '&');
        } else if b > end {
            assert(q[end] != '&');
        }
    }
    let here = q.subrange(from, end);
    assert(begins(here, prefix) <==> prefix.is_prefix_of(here));
    if begins(here, prefix) {
    } else if end < q.len() {
        lemma_part(q, prefix, end + 1);
        if let Some(part) = part_with(q, prefix, from) {
            let (i, e) = choose|i: int, e: int|
                {
                    &&& end + 1 <= i
                    &&& #[trigger] query_part_stands(q, i, e)
                    &&& part == q.subrange(i, e)
                    &&& begins(q.subrange(i, e), prefix)
                    &&& forall|a: int, b: int|
                        end + 1 <= a < i && #[trigger] query_part_stands(q, a, b) ==> !begins(
                            q.subrange(a, b),
                            prefix,
                        )
                };
            assert(query_part_stands(q, i, e));
        }
    } else {
        assert forall|a: int, b: int|
            from <= a && #[trigger] query_part_stands(q, a, b) implies !begins(
            q.subrange(a, b),
            prefix,
        ) by {
            assert(a <= end);
        }
    }
}

/// Of the parts of a query the first one that begins with a prefix is taken; none where no part
/// does.
pub proof fn law_first_part_is_taken(q: Seq<char>, prefix: Seq<char>, i: int, e: int)
    requires
        query_part_stands(q, i, e),
        begins(q.subrange(i, e), prefix),
    ensures
        part_with(q, prefix, 0) is Some,
        (forall|a: int, b: int|
            0 <= a < i && #[trigger] query_part_stands(q, a, b) ==> !begins(
                q.subrange(a, b),
                prefix,
            )) ==> part_with(q, prefix, 0) == Some(q.subrange(i, e)),
{
    lemma_part(q, prefix, 0);
    let part = part_with(q, prefix, 0)->0;
    let (x, y) = choose|x: int, y: int|
        {
            &&& 0 <= x
            &&& #[trigger] query_part_stands(q, x, y)
            &&& part == q.subrange(x, y)
            &&& begins(q.subrange(x, y), prefix)
            &&& forall|a: int, b: int|
                0 <= a < x && #[trigger] query_part_stands(q, a, b) ==> !begins(
                    q.subrange(a, b),
                    prefix,
                )
        };
    assert(query_part_stands(q, x, y));
    if x == i {
        if y < e {
            assert(q[y] == '&');
        } else if e < y {
            assert(q[e] == '&');
        }
    }
}

/// A part that is taken is one of the query that begins with the prefix.
pub proof fn law_taken_part_is_of_the_query(q: Seq<char>, prefix: Seq<char>)
    requires
        part_with(q, prefix, 0) is Some,
    ensures
        exists|i: int, e: int|
            #[trigger] query_part_stands(q, i, e) && begins(q.subrange(i, e), prefix)
                && part_with(q, prefix, 0) == Some(q.subrange(i, e)),
{
    lemma_part(q, prefix, 0);
}

/// An asset is asked for at the delivery service by its id, with the list of representations that
/// the query names where it names one.
pub proof fn law_delivery_is_asked_by_id(id: Seq<char>, q: Seq<char>)
    ensures
        ({
            let head = "https://assetdelivery.roblox.com/v1/asset/?id="@;
            let tail = "&permissionContext=ignoreUniverse&xcachesplit=0"@;
            &&& delivery_url(id, None) == head + id + tail
            &&& part_with(q, "contentRepresentationPriorityList="@, 0) is None ==> delivery_url(
                id,
                Some(q),
            ) == head + id + tail
            &&& part_with(q, "contentRepresentationPriorityList="@, 0) matches Some(part)
                ==> delivery_url(id, Some(q)) == head + id + "&"@ + part + tail
        }),
{
}

/// Grabbing fetches an asset from the delivery service into its file; reflecting redirects to the
/// stored file; any other mode serves it from there.
pub proof fn law_modes_decide_on_assets(
    mode: Seq<char>,
    id: Seq<char>,
    name: Seq<char>,
    query: Option<Seq<char>>,
)
    ensures
        plan_of("Asset Grab Mode"@, id, name, query) == AssetPlanView::Fetch(
            delivery_url(id, query),
            name,
        ),
        plan_of("Reflection Mode"@, id, name, query) == AssetPlanView::Redirect(
            "http://127.0.0.1/ddl/"@ + name,
        ),
        mode != "Asset Grab Mode"@ && mode != "Reflection Mode"@ ==> plan_of(mode, id, name, query)
            == AssetPlanView::Local(name),
        direct_plan_of("Asset Grab Mode"@, name, query) == AssetPlanView::Fetch(
            delivery_url(name, query),
            name,
        ),
        mode != "Asset Grab Mode"@ ==> direct_plan_of(mode, name, query) == AssetPlanView::Local(
            name,
        ),
{
    reveal_strlit("Asset Grab Mode");
    reveal_strlit("Reflection Mode");
    assert("Asset Grab Mode"@[0] == 'A' && "Reflection Mode"@[0] == 'R');
}

/// The cookie goes out as the file holds it, without the white space around it.
pub proof fn law_cookie_goes_out_trimmed(a: Seq<char>, cookie: Seq<char>, b: Seq<char>)
    requires
        blank(a),
        blank(b),
        cookie.len() > 0 ==> !blank(seq![cookie.first()]) && !blank(seq![cookie.last()]),
    ensures
        cookie_value(a + cookie + b) == ".ROBLOSECURITY="@ + cookie,
        batch_plan_of("Asset Grab Mode"@, Some(a + cookie + b)) == BatchPlanView::SendOn(
            ".ROBLOSECURITY="@ + cookie,
        ),
{
    law_trimming_takes_the_white_space(a, cookie, b);
}

/// Of the answers of the delivery service 200 brings the asset; 403 and 429 are told apart from any
/// other failure, and a batch passes these three on.
pub proof fn law_statuses_are_told_apart(status: u16)
    ensures
        fetched_of(status) == Fetched::Store <==> status == 200,
        fetched_of(status) == Fetched::Forbidden <==> status == 403,
        fetched_of(status) == Fetched::Limited <==> status == 429,
        batch_status_of(status) == status || batch_status_of(status) == 500,
        batch_status_of(status) == 200 <==> status == 200,
        batch_status_of(status) == 403 <==> status == 403,
        batch_status_of(status) == 429 <==> status == 429,
        status != 200 && status != 403 && status != 429 ==> batch_status_of(status) == 500,
{
}

/// An asset is served from its own file, else from the first file whose name without its ending is
/// its id, else from nowhere.
pub proof fn law_first_file_serves(stems: Seq<Seq<char>>, id: Seq<char>, i: int)
    requires
        stems.len() <= usize::MAX,
    ensures
        source_of(true, stems, id) == Source::OwnFile,
        0 <= i < stems.len() && stems[i] == id && (forall|k: int|
            0 <= k < i ==> #[trigger] stems[k] != id) ==> source_of(false, stems, id)
            == Source::Listed(i as usize),
        (forall|k: int| 0 <= k < stems.len() ==> #[trigger] stems[k] != id) ==> source_of(
            false,
            stems,
            id,
        ) == Source::Nowhere,
{
    lemma_first(stems, id, 0);
    if 0 <= i < stems.len() && stems[i] == id && (forall|k: int|
        0 <= k < i ==> #[trigger] stems[k] != id) {
        let f = first_named(stems, id, 0);
        assert(f is Some);
        let j = f->0;
        if j < i {
            assert(stems[j] != id);
        }
    }
}

proof fn lemma_first(stems: Seq<Seq<char>>, id: Seq<char>, from: int)
    requires
        0 <= from,
    ensures
        match first_named(stems, id, from) {
            Some(j) => from <= j < stems.len() && stems[j] == id && forall|k: int|
                from <= k < j ==> #[trigger] stems[k] != id,
            None => forall|k: int| from <= k < stems.len() ==> #[trigger] stems[k] != id,
        },
    decreases stems.len() - from,
{
    if from < stems.len() && stems[from] != id {
        lemma_first(stems, id, from + 1);
    }
}

/// A stored asset is answered with its address here and its type, the first type where it has none;
/// one that is not stored with an error.
pub proof fn law_stored_assets_are_located(
    requests: Seq<BatchRequestEntry>,
    type_ids: Seq<Option<i64>>,
    stems: Seq<Seq<char>>,
    i: int,
)
    requires
        requests.len() == type_ids.len(),
        0 <= i < requests.len(),
    ensures
        ({
            let all = local_answers(requests, type_ids, stems);
            let e = all[i];
            let stored = exists|k: int|
                0 <= k < stems.len() && #[trigger] stems[k] == decimal(requests[i].asset_id as int);
            &&& all.len() == requests.len()
            &&& e.request_id == requests[i].request_id@
            &&& !e.is_archived
            &&& e.is_recordable == stored
            &&& stored ==> {
                &&& e.location == Some(
                    "http://127.0.0.1/ddl/"@ + decimal(requests[i].asset_id as int),
                )
                &&& e.error is None
                &&& e.asset_type_id == (match type_ids[i] {
                    Some(t) => t,
                    None => 1,
                })
            }
            &&& !stored ==> {
                &&& e.location is None
                &&& e.asset_type_id == 0
                &&& e.error matches Some(err)
                &&& err.code == 404
                &&& err.custom_error_code == 14
                &&& err.message == "Request asset was not found"@
            }
        }),
{
    let want = decimal(requests[i].asset_id as int);
    assert(stems.contains(want) <==> exists|k: int| 0 <= k < stems.len() && #[trigger] stems[k]
        == want);
}

/// A request that no id names asks for nothing.
pub proof fn law_unknown_requests_ask_for_nothing(
    requests: Seq<BatchRequestEntry>,
    request_id: Seq<char>,
    n: int,
)
    requires
        n <= requests.len(),
        forall|j: int| 0 <= j < n ==> (#[trigger] requests[j]).request_id@ != request_id,
    ensures
        asset_asked(requests, request_id, n) is None,
    decreases n,
{
    if n > 0 {
        assert(requests[n - 1].request_id@ != request_id);
        law_unknown_requests_ask_for_nothing(requests, request_id, n - 1);
    }
}

/// An entry that is not stored is fetched from where the service says into the file of its id, and
/// is given out here; the digest of the representation that was chosen is part of its address.
pub proof fn law_grabbed_assets_are_given_out_here(
    asset: i64,
    location: Option<Seq<char>>,
    specifier: Seq<char>,
)
    ensures
        grab_of(asset, location, None).fetch == location,
        grab_of(asset, location, None).file == decimal(asset as int),
        grab_of(asset, location, None).location == "http://127.0.0.1/ddl/"@ + decimal(
            asset as int,
        ),
        grab_of(asset, location, Some(specifier)).fetch == location,
        grab_of(asset, location, Some(specifier)).file == decimal(asset as int),
        grab_of(asset, location, Some(specifier)).location == "http://127.0.0.1/ddl/"@ + (decimal(
            asset as int,
        ) + "-"@ + hex_bytes(md5_of(encode_utf8(specifier)))),
{
}

/// A place is named by a positive number under one of four keys, and by nothing else.
pub proof fn law_places_are_named_by_positive_numbers(
    params: Seq<(String, String)>,
    k: int,
    v: i64,
)
    requires
        0 <= k < params.len(),
        params[k].1@ == decimal(v as int),
    ensures
        v > 0 && (params[k].0@ == "assetid"@ || params[k].0@ == "assetId"@ || params[k].0@ == "a"@
            || params[k].0@ == "b"@) ==> any_names_place(params),
        params.len() == 1 && (v <= 0 || !(params[k].0@ == "assetid"@ || params[k].0@ == "assetId"@
            || params[k].0@ == "a"@ || params[k].0@ == "b"@)) ==> !any_names_place(params),
{
    law_numbers_are_read(v, 0);
    law_sign_stands_in_front(v as int);
    let none = Seq::new(0, |i: int| '0');
    assert(none =~= Seq::empty());
    if v >= 0 {
        assert(none + decimal(v as int) =~= decimal(v as int));
    } else {
        assert(seq!['-'] + none + decimal(-v as int) =~= decimal(v as int));
    }
    assert(names_place(params[k].0@, params[k].1@) <==> v > 0 && (params[k].0@ == "assetid"@
        || params[k].0@ == "assetId"@ || params[k].0@ == "a"@ || params[k].0@ == "b"@));
}

/// An upload puts the bytes of its last readable field named `file` into the file of the part.
pub proof fn law_last_file_is_kept(fields: Seq<UploadField>, k: int, id: Seq<char>)
    requires
        0 <= k < fields.len(),
        fields[k].name@ == "file"@,
        fields[k].bytes is Some,
        forall|j: int|
            k < j < fields.len() ==> !((#[trigger] fields[j]).name@ == "file"@
                && fields[j].bytes is Some),
    ensures
        last_file(fields, fields.len() as int) == Some(fields[k].bytes->0@),
        file_of(id) == "static/avatar/"@ + id,
{
    lemma_last_file(fields, k, fields.len() as int);
}

proof fn lemma_last_file(fields: Seq<UploadField>, k: int, n: int)
    requires
        0 <= k < n <= fields.len(),
        fields[k].name@ == "file"@,
        fields[k].bytes is Some,
        forall|j: int|
            k < j < fields.len() ==> !((#[trigger] fields[j]).name@ == "file"@
                && fields[j].bytes is Some),
    ensures
        last_file(fields, n) == Some(fields[k].bytes->0@),
    decreases n,
{
    if k < n - 1 {
        assert(!(fields[n - 1].name@ == "file"@ && fields[n - 1].bytes is Some));
        lemma_last_file(fields, k, n - 1);
    }
}

/// What the log shows of a text is the text itself up to the limit; of a longer one the front and a
/// remark.
pub proof fn law_log_shows_up_to_the_limit(s: Seq<char>, max: int)
    requires
        0 <= max,
    ensures
        s.len() <= max ==> cut(s, max) == s,
        s.len() > max ==> cut(s, max).len() == max + 15 && cut(s, max).take(max) == s.take(max)
            && cut(s, max).skip(max) == "... [truncated]"@,
{
    reveal_strlit("... [truncated]");
    if s.len() > max {
        assert(cut(s, max).take(max) =~= s.take(max));
        assert(cut(s, max).skip(max) =~= "... [truncated]"@);
    }
}

/// The server runs exactly where a mode is selected and its files are there; of what is missing the
/// mode is told first, then the cookie, then the static files.
pub proof fn law_server_runs_with_its_files(mode: Seq<char>, cookie: bool, static_dir: bool)
    ensures
        start_of(mode, cookie, static_dir) == Start::Run <==> mode != "No mode selected"@
            && static_dir && (mode == "Asset Grab Mode"@ ==> cookie),
        start_of(mode, cookie, static_dir) == Start::NoMode <==> mode == "No mode selected"@,
        start_of(mode, cookie, static_dir) == Start::NoCookie <==> mode == "Asset Grab Mode"@
            && !cookie,
{
    reveal_strlit("No mode selected");
    reveal_strlit("Asset Grab Mode");
    assert("No mode selected"@[0] == 'N' && "Asset Grab Mode"@[0] == 'A');
}

/// Where no parameter has one of the four keys, or none of those that have one holds a number, no
/// place is named.
pub proof fn law_other_parameters_name_no_place(params: Seq<(String, String)>)
    requires
        forall|k: int|
            0 <= k < params.len() ==> ((#[trigger] params[k]).0@ != "assetid"@ && params[k].0@
                != "assetId"@ && params[k].0@ != "a"@ && params[k].0@ != "b"@) || parsed_i64(
                params[k].1@,
            ) is None,
    ensures
        !any_names_place(params),
{
}

} // verus!
