//! Asset requests: where an asset lies, where it is fetched from, and how batches of them are
//! answered.
use crate::numbers::{
    decimal, decimal_text, hex_bytes, hex_of_bytes, lemma_digits_differ, parse_i64, parsed_i64,
};
use crate::text::{
    begins_with, find_char, from_chars_between, index_of, join, opt_view, same_text, to_chars,
    trim, trimmed, views,
};
use vstd::prelude::*;
use vstd::utf8::{decode_utf8, encode_utf8, valid_utf8};

verus! {

/// The MD5 digest of the bytes.
pub uninterp spec fn md5_of(bytes: Seq<u8>) -> Seq<u8>;

/// `compute` of `md5`: sixteen bytes that depend on the bytes alone.
#[verifier::external_body]
pub(crate) fn md5_digest(bytes: &[u8]) -> (r: Vec<u8>)
    ensures
        r@ == md5_of(bytes@),
        r@.len() == 16,
{
    md5::compute(bytes).0.to_vec()
}

/// The value of a hexadecimal digit.
pub open spec fn hex_value(b: u8) -> Option<int> {
    if 0x30 <= b <= 0x39 {
        Some(b - 0x30)
    } else if 0x41 <= b <= 0x46 {
        Some(b - 0x41 + 10)
    } else if 0x61 <= b <= 0x66 {
        Some(b - 0x61 + 10)
    } else {
        None
    }
}

/// The bytes from `i` on with each percent sign and its two hexadecimal digits as the byte that
/// they write; a percent sign without two such digits stays.
pub open spec fn percent_bytes(s: Seq<u8>, i: int) -> Seq<u8>
    decreases s.len() - i,
{
    if i < 0 || i >= s.len() {
        Seq::empty()
    } else if s[i] == 0x25 && i + 2 < s.len() && hex_value(s[i + 1]) is Some && hex_value(
        s[i + 2],
    ) is Some {
        seq![(16 * hex_value(s[i + 1])->0 + hex_value(s[i + 2])->0) as u8] + percent_bytes(
            s,
            i + 3,
        )
    } else {
        seq![s[i]] + percent_bytes(s, i + 1)
    }
}

/// The text that a percent-encoded text stands for, if it is one.
pub open spec fn percent_decoded(s: Seq<char>) -> Option<Seq<char>> {
    let bytes = percent_bytes(encode_utf8(s), 0);
    if valid_utf8(bytes) {
        Some(decode_utf8(bytes))
    } else {
        None
    }
}

/// `decode` of `urlencoding`: every percent sign with two hexadecimal digits becomes the byte
/// that they write, any other byte stays, and the result is text where the bytes are UTF-8.
#[verifier::external_body]
pub(crate) fn percent_decode(s: &str) -> (r: Option<String>)
    ensures
        opt_view(r) == percent_decoded(s@),
{
    urlencoding::decode(s).ok().map(|text| text.into_owned())
}

/// The file name of an asset of which one representation was asked for.
pub open spec fn hashed_name(id: Seq<char>, digest: Seq<u8>) -> Seq<char> {
    id + "-"@ + hex_bytes(digest)
}

/// The file name of an asset: with a list of representations, that list's digest is part of
/// it.
pub open spec fn file_name(id: Seq<char>, list: Option<Seq<char>>) -> Seq<char> {
    match list {
        Some(text) => hashed_name(id, md5_of(encode_utf8(text))),
        None => id,
    }
}

/// The file name of an asset with the list of representations of a request: a list that cannot
/// be decoded counts as none.
pub open spec fn requested_name(id: Seq<char>, list: Option<Seq<char>>) -> Seq<char> {
    file_name(
        id,
        match list {
            Some(raw) => percent_decoded(raw),
            None => None,
        },
    )
}

/// The first part of a query from `from` on, between ampersands, that begins with `prefix`.
pub open spec fn part_with(query: Seq<char>, prefix: Seq<char>, from: int) -> Option<Seq<char>>
    decreases query.len() - from,
{
    if from < 0 || from > query.len() {
        None
    } else {
        let end = index_of(query, '&', from);
        if prefix.is_prefix_of(query.subrange(from, end)) {
            Some(query.subrange(from, end))
        } else if from <= end < query.len() {
            part_with(query, prefix, end + 1)
        } else {
            None
        }
    }
}

/// The address of an asset at the delivery service, with the list of representations of the
/// query where it has one.
pub open spec fn delivery_url(id: Seq<char>, query: Option<Seq<char>>) -> Seq<char> {
    let head = "https://assetdelivery.roblox.com/v1/asset/?id="@ + id;
    let tail = "&permissionContext=ignoreUniverse&xcachesplit=0"@;
    match query {
        Some(q) => match part_with(q, "contentRepresentationPriorityList="@, 0) {
            Some(part) => head + "&"@ + part + tail,
            None => head + tail,
        },
        None => head + tail,
    }
}

/// What is to be done about an asset.
#[derive(Debug, Clone)]
pub enum AssetPlan {
    /// The request is sent on to this address.
    Redirect(String),
    /// The asset is fetched from this address into the file of this name, and served from
    /// there.
    Fetch(String, String),
    /// The asset is served from the file of this name.
    Local(String),
}

/// What an `AssetPlan` says.
pub enum AssetPlanView {
    Redirect(Seq<char>),
    Fetch(Seq<char>, Seq<char>),
    Local(Seq<char>),
}

impl View for AssetPlan {
    type V = AssetPlanView;

    open spec fn view(&self) -> AssetPlanView {
        match self {
            AssetPlan::Redirect(url) => AssetPlanView::Redirect(url@),
            AssetPlan::Fetch(url, name) => AssetPlanView::Fetch(url@, name@),
            AssetPlan::Local(name) => AssetPlanView::Local(name@),
        }
    }
}

/// What is to be done about an asset in a mode, with the file name that it has and the query
/// of the request: only the mode that grabs assets turns to the delivery service, and the mode
/// that reflects them redirects to where this server gives out the stored file.
pub open spec fn plan_of(
    mode: Seq<char>,
    id: Seq<char>,
    name: Seq<char>,
    query: Option<Seq<char>>,
) -> AssetPlanView {
    if mode == "Reflection Mode"@ {
        AssetPlanView::Redirect(local_location(name))
    } else if mode == "Asset Grab Mode"@ {
        AssetPlanView::Fetch(delivery_url(id, query), name)
    } else {
        AssetPlanView::Local(name)
    }
}

/// What is to be done about a stored file that is asked for by its own name, under the address
/// that a redirect leads to: it is not redirected again.
pub open spec fn direct_plan_of(
    mode: Seq<char>,
    name: Seq<char>,
    query: Option<Seq<char>>,
) -> AssetPlanView {
    if mode == "Reflection Mode"@ {
        AssetPlanView::Local(name)
    } else {
        plan_of(mode, name, name, query)
    }
}

/// The cookie header with the content of the cookie file.
pub open spec fn cookie_value(content: Seq<char>) -> Seq<char> {
    ".ROBLOSECURITY="@ + trimmed(content)
}

/// What the answer of the delivery service to a request for an asset means.
#[derive(Debug, Clone, Copy, PartialEq, Eq, Structural)]
pub enum Fetched {
    /// The asset came and is stored.
    Store,
    /// The cookie gives no access.
    Forbidden,
    /// There were too many requests.
    Limited,
    /// Something else went wrong.
    Failed,
}

/// What a status of the delivery service means.
pub open spec fn fetched_of(status: u16) -> Fetched {
    if status == 200 {
        Fetched::Store
    } else if status == 403 {
        Fetched::Forbidden
    } else if status == 429 {
        Fetched::Limited
    } else {
        Fetched::Failed
    }
}

/// Where an asset is served from once it was fetched, if it was to be.
#[derive(Debug, Clone, Copy, PartialEq, Eq, Structural)]
pub enum Source {
    /// The file with its name.
    OwnFile,
    /// The file of the directory listing with this index.
    Listed(usize),
    /// There is none.
    Nowhere,
}

/// The index at or after `from` of the first of the names that is `name`.
pub open spec fn first_named(names: Seq<Seq<char>>, name: Seq<char>, from: int) -> Option<int>
    decreases names.len() - from,
{
    if from < 0 || from >= names.len() {
        None
    } else if names[from] == name {
        Some(from)
    } else {
        first_named(names, name, from + 1)
    }
}

/// Where an asset is served from: its own file, else the first file of the directory whose
/// name without its ending is the asset's id.
pub open spec fn source_of(exists: bool, stems: Seq<Seq<char>>, id: Seq<char>) -> Source {
    if exists {
        Source::OwnFile
    } else {
        match first_named(stems, id, 0) {
            Some(i) => Source::Listed(i as usize),
            None => Source::Nowhere,
        }
    }
}

/// An error about one asset of a batch.
#[derive(Debug, Clone)]
pub struct BatchError {
    pub code: u16,
    pub message: String,
    pub custom_error_code: i32,
}

/// One asset that a batch asks for.
#[derive(Debug, Clone)]
pub struct BatchRequestEntry {
    pub asset_id: i64,
    pub request_id: String,
    pub asset_type: String,
}

/// What a batch says of one asset.
#[derive(Debug, Clone)]
pub struct BatchResponseEntry {
    pub location: Option<String>,
    pub request_id: String,
    pub is_archived: bool,
    pub asset_type_id: i64,
    pub error: Option<BatchError>,
    pub is_recordable: bool,
}

/// What a `BatchError` holds.
#[verifier::ext_equal]
pub struct BatchErrorView {
    pub code: u16,
    pub message: Seq<char>,
    pub custom_error_code: i32,
}

impl View for BatchError {
    type V = BatchErrorView;

    open spec fn view(&self) -> BatchErrorView {
        BatchErrorView {
            code: self.code,
            message: self.message@,
            custom_error_code: self.custom_error_code,
        }
    }
}

/// What a `BatchResponseEntry` holds.
#[verifier::ext_equal]
pub struct ResponseView {
    pub location: Option<Seq<char>>,
    pub request_id: Seq<char>,
    pub is_archived: bool,
    pub asset_type_id: i64,
    pub error: Option<BatchErrorView>,
    pub is_recordable: bool,
}

impl View for BatchResponseEntry {
    type V = ResponseView;

    open spec fn view(&self) -> ResponseView {
        ResponseView {
            location: opt_view(self.location),
            request_id: self.request_id@,
            is_archived: self.is_archived,
            asset_type_id: self.asset_type_id,
            error: opt_view(self.error),
            is_recordable: self.is_recordable,
        }
    }
}

/// How a batch is answered.
#[derive(Debug, Clone)]
pub enum BatchPlan {
    /// It is sent on to the delivery service with this cookie header.
    SendOn(String),
    /// It is answered from the stored files.
    Local,
}

/// What a `BatchPlan` says.
pub enum BatchPlanView {
    SendOn(Seq<char>),
    Local,
}

impl View for BatchPlan {
    type V = BatchPlanView;

    open spec fn view(&self) -> BatchPlanView {
        match self {
            BatchPlan::SendOn(cookie) => BatchPlanView::SendOn(cookie@),
            BatchPlan::Local => BatchPlanView::Local,
        }
    }
}

/// How a batch is answered in a mode, with the content of the cookie file if it could be read:
/// it is sent on where the mode grabs assets and there is a cookie to do it with, and answered
/// from the stored files otherwise.
pub open spec fn batch_plan_of(mode: Seq<char>, cookie: Option<Seq<char>>) -> BatchPlanView {
    match cookie {
        Some(content) if mode == "Asset Grab Mode"@ => BatchPlanView::SendOn(
            cookie_value(content),
        ),
        _ => BatchPlanView::Local,
    }
}

/// The status that a batch is answered with when the delivery service gave `status`; with 200
/// its entries follow.
pub open spec fn batch_status_of(status: u16) -> u16 {
    if status == 200 || status == 403 || status == 429 {
        status
    } else {
        500
    }
}

/// The asset that the last of the first `n` requests with this id asks for.
pub open spec fn asset_asked(
    requests: Seq<BatchRequestEntry>,
    request_id: Seq<char>,
    n: int,
) -> Option<i64>
    decreases n,
{
    if n <= 0 {
        None
    } else if requests[n - 1].request_id@ == request_id {
        Some(requests[n - 1].asset_id)
    } else {
        asset_asked(requests, request_id, n - 1)
    }
}

/// The address under which this server gives out a stored file.
pub open spec fn local_location(name: Seq<char>) -> Seq<char> {
    "http://127.0.0.1/ddl/"@ + name
}

/// What is to be done about one entry that the delivery service gave.
#[derive(Debug, Clone)]
pub struct GrabStep {
    /// Where the asset is fetched from, if the service said.
    pub fetch: Option<String>,
    /// The file that it is stored in.
    pub file: String,
    /// What the entry gives as its location.
    pub location: String,
}

/// What a `GrabStep` holds.
#[verifier::ext_equal]
pub struct GrabView {
    pub fetch: Option<Seq<char>>,
    pub file: Seq<char>,
    pub location: Seq<char>,
}

impl View for GrabStep {
    type V = GrabView;

    open spec fn view(&self) -> GrabView {
        GrabView { fetch: opt_view(self.fetch), file: self.file@, location: self.location@ }
    }
}

/// What is to be done about an entry for an asset that is not stored yet: it is fetched into
/// the file named by its id, and its location becomes this server's; the text of the
/// representation that the service chose goes into the location.
pub open spec fn grab_of(
    asset: i64,
    location: Option<Seq<char>>,
    specifier: Option<Seq<char>>,
) -> GrabView {
    GrabView {
        fetch: location,
        file: decimal(asset as int),
        location: local_location(file_name(decimal(asset as int), specifier)),
    }
}

/// What a batch that is answered from the stored files says of one asset: `stored` tells
/// whether there is a file, `type_id` which type the request names.
pub open spec fn local_answer(
    request: BatchRequestEntry,
    stored: bool,
    type_id: Option<i64>,
) -> ResponseView {
    if stored {
        ResponseView {
            location: Some(local_location(decimal(request.asset_id as int))),
            request_id: request.request_id@,
            is_archived: false,
            asset_type_id: match type_id {
                Some(t) => t,
                None => 1,
            },
            error: None,
            is_recordable: true,
        }
    } else {
        ResponseView {
            location: None,
            request_id: request.request_id@,
            is_archived: false,
            asset_type_id: 0,
            error: Some(
                BatchErrorView {
                    code: 404,
                    message: "Request asset was not found"@,
                    custom_error_code: 14,
                },
            ),
            is_recordable: false,
        }
    }
}

/// What a batch that is answered from the stored files says: `stems` are the names of the
/// files without their endings.
pub open spec fn local_answers(
    requests: Seq<BatchRequestEntry>,
    type_ids: Seq<Option<i64>>,
    stems: Seq<Seq<char>>,
) -> Seq<ResponseView> {
    Seq::new(
        requests.len(),
        |i: int|
            local_answer(
                requests[i],
                stems.contains(decimal(requests[i].asset_id as int)),
                type_ids[i],
            ),
    )
}

/// Whether a parameter of the version request names a place.
pub open spec fn names_place(key: Seq<char>, value: Seq<char>) -> bool {
    (key == "assetid"@ || key == "assetId"@ || key == "a"@ || key == "b"@) && match parsed_i64(
        value,
    ) {
        Some(v) => v > 0,
        None => false,
    }
}

/// Whether one of the parameters names a place.
pub open spec fn any_names_place(params: Seq<(String, String)>) -> bool {
    exists|k: int| 0 <= k < params.len() && names_place((#[trigger] params[k]).0@, params[k].1@)
}

/// The file name of an asset of which one representation was asked for.
pub fn name_with_digest(id: &str, digest: &[u8]) -> (r: String)
    ensures
        r@ == hashed_name(id@, digest@),
{
    let head = join(id, "-");
    join(&head, &hex_of_bytes(digest))
}

/// The file name of an asset with the text of a list of representations.
pub fn name_with_list(id: &str, list: Option<&str>) -> (r: String)
    ensures
        r@ == file_name(
            id@,
            match list {
                Some(text) => Some(text@),
                None => None,
            },
        ),
{
    match list {
        Some(text) => name_with_digest(id, &md5_digest(text.as_bytes())),
        None => id.to_string(),
    }
}

/// The file name of an asset with the list of representations of a request.
pub fn asset_filename(id: &str, list: Option<&str>) -> (r: String)
    ensures
        r@ == requested_name(
            id@,
            match list {
                Some(raw) => Some(raw@),
                None => None,
            },
        ),
{
    match list {
        Some(raw) => match percent_decode(raw) {
            Some(text) => name_with_list(id, Some(text.as_str())),
            None => id.to_string(),
        },
        None => id.to_string(),
    }
}

/// The first part of a query, between ampersands, that begins with `prefix`.
pub fn query_part(query: &str, prefix: &str) -> (r: Option<String>)
    ensures
        opt_view(r) == part_with(query@, prefix@, 0),
{
    let chars = to_chars(query);
    let wanted = to_chars(prefix);
    let mut from: usize = 0;
    loop
        invariant
            from <= chars@.len(),
            chars@ == query@,
            wanted@ == prefix@,
            part_with(query@, prefix@, 0) == part_with(query@, prefix@, from as int),
        decreases chars.len() - from,
    {
        let end: usize = find_char(&chars, '&', from);
        let part = from_chars_between(&chars, from, end);
        if begins_with(&part, prefix) {
            return Some(part);
        }
        if end == chars.len() {
            return None;
        }
        from = end + 1;
    }
}

/// The address of an asset at the delivery service.
pub fn asset_url(id: &str, query: Option<&str>) -> (r: String)
    ensures
        r@ == delivery_url(
            id@,
            match query {
                Some(q) => Some(q@),
                None => None,
            },
        ),
{
    let head = join("https://assetdelivery.roblox.com/v1/asset/?id=", id);
    let part = match query {
        Some(q) => query_part(q, "contentRepresentationPriorityList="),
        None => None,
    };
    match part {
        Some(part) => {
            let mid = join(&head, "&");
            let full = join(&mid, &part);
            join(&full, "&permissionContext=ignoreUniverse&xcachesplit=0")
        },
        None => join(&head, "&permissionContext=ignoreUniverse&xcachesplit=0"),
    }
}

/// What is to be done about an asset in a mode, with the list of representations and the query
/// of the request.
pub fn asset_plan(mode: &str, id: &str, list: Option<&str>, query: Option<&str>) -> (r: AssetPlan)
    ensures
        r@ == plan_of(
            mode@,
            id@,
            requested_name(
                id@,
                match list {
                    Some(raw) => Some(raw@),
                    None => None,
                },
            ),
            match query {
                Some(q) => Some(q@),
                None => None,
            },
        ),
{
    plan_with_name(mode, id, asset_filename(id, list), query)
}

/// What is to be done about an asset in a mode, with the file name that it has and the query of
/// the request.
pub fn plan_with_name(mode: &str, id: &str, name: String, query: Option<&str>) -> (r: AssetPlan)
    ensures
        r@ == plan_of(
            mode@,
            id@,
            name@,
            match query {
                Some(q) => Some(q@),
                None => None,
            },
        ),
{
    if same_text(mode, "Reflection Mode") {
        AssetPlan::Redirect(join("http://127.0.0.1/ddl/", &name))
    } else if same_text(mode, "Asset Grab Mode") {
        AssetPlan::Fetch(asset_url(id, query), name)
    } else {
        AssetPlan::Local(name)
    }
}

/// What is to be done about a stored file that is asked for by its own name.
pub fn direct_plan(mode: &str, name: &str, query: Option<&str>) -> (r: AssetPlan)
    ensures
        r@ == direct_plan_of(
            mode@,
            name@,
            match query {
                Some(q) => Some(q@),
                None => None,
            },
        ),
{
    if same_text(mode, "Reflection Mode") {
        AssetPlan::Local(name.to_string())
    } else {
        plan_with_name(mode, name, name.to_string(), query)
    }
}

/// The cookie header with the content of the cookie file, or the status that a request is
/// answered with where the file cannot be read.
pub fn cookie_header(content: Option<&str>) -> (r: Result<String, u16>)
    ensures
        match content {
            Some(text) => r matches Ok(header) && header@ == cookie_value(text@),
            None => r == Err::<String, u16>(500),
        },
{
    match content {
        Some(text) => Ok(join(".ROBLOSECURITY=", &trim(text))),
        None => Err(500),
    }
}

/// What a status of the delivery service means.
pub fn on_fetch_status(status: u16) -> (r: Fetched)
    ensures
        r == fetched_of(status),
{
    if status == 200 {
        Fetched::Store
    } else if status == 403 {
        Fetched::Forbidden
    } else if status == 429 {
        Fetched::Limited
    } else {
        Fetched::Failed
    }
}

fn find_name(names: &[String], name: &str) -> (r: Option<usize>)
    ensures
        match r {
            Some(i) => first_named(views(names@), name@, 0) == Some(i as int) && i < names@.len(),
            None => first_named(views(names@), name@, 0) is None,
        },
        r is Some <==> views(names@).contains(name@),
{
    let mut i: usize = 0;
    while i < names.len()
        invariant
            i <= names@.len(),
            first_named(views(names@), name@, 0) == first_named(views(names@), name@, i as int),
            forall|k: int| 0 <= k < i ==> #[trigger] views(names@)[k] != name@,
        decreases names.len() - i,
    {
        assert(views(names@)[i as int] == names@[i as int]@);
        if same_text(&names[i], name) {
            return Some(i);
        }
        i += 1;
    }
    None
}

/// Where an asset is served from: `exists` tells whether its own file is there, `stems` are the
/// names of the files of the directory without their endings.
pub fn asset_source(exists: bool, stems: &[String], id: &str) -> (r: Source)
    ensures
        r == source_of(exists, views(stems@), id@),
        r matches Source::Listed(i) ==> i < stems@.len() && stems@[i as int]@ == id@,
{
    if exists {
        return Source::OwnFile;
    }
    match find_name(stems, id) {
        Some(i) => {
            proof {
                lemma_first_named(views(stems@), id@, 0);
            }
            assert(views(stems@)[i as int] == stems@[i as int]@);
            Source::Listed(i)
        },
        None => Source::Nowhere,
    }
}

proof fn lemma_first_named(names: Seq<Seq<char>>, name: Seq<char>, from: int)
    ensures
        first_named(names, name, from) matches Some(i) ==> from <= i < names.len() && names[i]
            == name && forall|k: int| from <= k < i ==> #[trigger] names[k] != name,
    decreases names.len() - from,
{
    if 0 <= from < names.len() && names[from] != name {
        lemma_first_named(names, name, from + 1);
    }
}

/// How a batch is answered in a mode, with the content of the cookie file if it could be read.
pub fn batch_plan(mode: &str, cookie: Option<&str>) -> (r: BatchPlan)
    ensures
        r@ == batch_plan_of(
            mode@,
            match cookie {
                Some(text) => Some(text@),
                None => None,
            },
        ),
{
    if same_text(mode, "Asset Grab Mode") {
        match cookie_header(cookie) {
            Ok(header) => BatchPlan::SendOn(header),
            Err(_) => BatchPlan::Local,
        }
    } else {
        BatchPlan::Local
    }
}

/// The status that a batch is answered with when the delivery service gave `status`.
pub fn batch_status(status: u16) -> (r: u16)
    ensures
        r == batch_status_of(status),
{
    if status == 200 || status == 403 || status == 429 {
        status
    } else {
        500
    }
}

/// The asset that the last request with this id asks for.
pub fn requested_asset(requests: &[BatchRequestEntry], request_id: &str) -> (r: Option<i64>)
    ensures
        r == asset_asked(requests@, request_id@, requests@.len() as int),
{
    let mut n: usize = requests.len();
    while n > 0
        invariant
            n <= requests@.len(),
            asset_asked(requests@, request_id@, requests@.len() as int) == asset_asked(
                requests@,
                request_id@,
                n as int,
            ),
        decreases n,
    {
        if same_text(&requests[n - 1].request_id, request_id) {
            return Some(requests[n - 1].asset_id);
        }
        n -= 1;
    }
    None
}

/// The name of the file that an asset is stored in.
pub fn stored_name(asset: i64) -> (r: String)
    ensures
        r@ == decimal(asset as int),
{
    decimal_text(asset)
}

/// What is to be done about an entry that the delivery service gave: nothing where nothing
/// asked for it or the asset is stored already.
pub fn grab_step(
    asset: Option<i64>,
    stored: bool,
    location: Option<String>,
    specifier: Option<&str>,
) -> (r: Option<GrabStep>)
    ensures
        opt_view(r) == match asset {
            Some(id) if !stored => Some(
                grab_of(
                    id,
                    opt_view(location),
                    match specifier {
                        Some(text) => Some(text@),
                        None => None,
                    },
                ),
            ),
            _ => None,
        },
{
    match asset {
        Some(id) => {
            if stored {
                None
            } else {
                let file = stored_name(id);
                let name = name_with_list(&file, specifier);
                Some(
                    GrabStep {
                        fetch: location,
                        file,
                        location: join("http://127.0.0.1/ddl/", &name),
                    },
                )
            }
        },
        None => None,
    }
}

fn answer_locally(request: &BatchRequestEntry, stored: bool, type_id: Option<i64>) -> (r:
    BatchResponseEntry)
    ensures
        r@ == local_answer(*request, stored, type_id),
{
    if stored {
        BatchResponseEntry {
            location: Some(join("http://127.0.0.1/ddl/", &decimal_text(request.asset_id))),
            request_id: request.request_id.as_str().to_string(),
            is_archived: false,
            asset_type_id: match type_id {
                Some(t) => t,
                None => 1,
            },
            error: None,
            is_recordable: true,
        }
    } else {
        BatchResponseEntry {
            location: None,
            request_id: request.request_id.as_str().to_string(),
            is_archived: false,
            asset_type_id: 0,
            error: Some(
                BatchError {
                    code: 404,
                    message: "Request asset was not found".to_string(),
                    custom_error_code: 14,
                },
            ),
            is_recordable: false,
        }
    }
}

/// What a batch that is answered from the stored files says: `type_ids` are the types that the
/// requests name, `stems` the names of the files without their endings.
pub fn local_batch(
    requests: &[BatchRequestEntry],
    type_ids: &[Option<i64>],
    stems: &[String],
) -> (out: Vec<BatchResponseEntry>)
    requires
        requests@.len() == type_ids@.len(),
    ensures
        views(out@) == local_answers(requests@, type_ids@, views(stems@)),
{
    let mut out: Vec<BatchResponseEntry> = Vec::new();
    let ghost all = local_answers(requests@, type_ids@, views(stems@));
    for i in 0..requests.len()
        invariant
            requests@.len() == type_ids@.len(),
            all == local_answers(requests@, type_ids@, views(stems@)),
            views(out@) =~= all.take(i as int),
    {
        let r = &requests[i];
        let stored: bool = find_name(stems, &decimal_text(r.asset_id)).is_some();
        let e = answer_locally(r, stored, type_ids[i]);
        assert(e@ == all[i as int]);
        let ghost before = views(out@);
        out.push(e);
        assert(views(out@) =~= before.push(e@));
    }
    assert(all.take(requests@.len() as int) =~= all);
    out
}

/// The answer to a request for the latest version of a place: `1` where a parameter names one.
pub fn place_version(params: &[(String, String)]) -> (r: Option<String>)
    ensures
        opt_view(r) == (if any_names_place(params@) {
            Some("1"@)
        } else {
            None
        }),
{
    for i in 0..params.len()
        invariant
            forall|k: int|
                0 <= k < i ==> !names_place((#[trigger] params@[k]).0@, params@[k].1@),
    {
        let p = &params[i];
        assert(*p == params@[i as int]);
        if same_text(&p.0, "assetid") || same_text(&p.0, "assetId") || same_text(&p.0, "a")
            || same_text(&p.0, "b") {
            if let Some(v) = parse_i64(&to_chars(&p.1)) {
                if v > 0 {
                    return Some("1".to_string());
                }
            }
        }
    }
    None
}

/// The list of the versions of a place: there is one.
pub fn place_versions() -> (r: String)
    ensures
        r@ == "{\"assetVersions\":[{\"versionNumber\":1}],\"nextPageToken\":null}"@,
{
    "{\"assetVersions\":[{\"versionNumber\":1}],\"nextPageToken\":null}".to_string()
}

/// In the regular mode no request leaves this machine: an asset is served from its file, and a
/// batch is answered from the stored files, whatever the cookie file holds.
pub proof fn law_regular_mode_stays_local(
    id: Seq<char>,
    name: Seq<char>,
    query: Option<Seq<char>>,
    cookie: Option<Seq<char>>,
)
    ensures
        plan_of("Regular Mode"@, id, name, query) == AssetPlanView::Local(name),
        direct_plan_of("Regular Mode"@, name, query) == AssetPlanView::Local(name),
        batch_plan_of("Regular Mode"@, cookie) == BatchPlanView::Local,
{
    reveal_strlit("Regular Mode");
    reveal_strlit("Reflection Mode");
    reveal_strlit("Asset Grab Mode");
    assert("Regular Mode"@.len() == 12);
    assert("Reflection Mode"@.len() == 15);
    assert("Asset Grab Mode"@.len() == 15);
}

/// Whether a plan keeps to this machine: the asset is served from its file, or the request is
/// redirected to an address of this server.
pub open spec fn stays_here(plan: AssetPlanView) -> bool {
    match plan {
        AssetPlanView::Local(_) => true,
        AssetPlanView::Redirect(url) => "http://127.0.0.1/ddl/"@.is_prefix_of(url),
        AssetPlanView::Fetch(_, _) => false,
    }
}

/// Outside the mode that grabs assets no plan names a remote address, and every batch is
/// answered from the stored files.
pub proof fn law_only_grabbing_leaves_this_machine(
    mode: Seq<char>,
    id: Seq<char>,
    name: Seq<char>,
    query: Option<Seq<char>>,
    cookie: Option<Seq<char>>,
)
    requires
        mode != "Asset Grab Mode"@,
    ensures
        stays_here(plan_of(mode, id, name, query)),
        stays_here(direct_plan_of(mode, name, query)),
        batch_plan_of(mode, cookie) == BatchPlanView::Local,
{
    let here = "http://127.0.0.1/ddl/"@;
    assert(here =~= local_location(name).subrange(0, here.len() as int));
}

/// In the mode that reflects assets a request is redirected to the address of the stored file,
/// and what is asked for there by that name is served from that file.
pub proof fn law_redirect_leads_to_the_file(
    id: Seq<char>,
    name: Seq<char>,
    query: Option<Seq<char>>,
    next: Option<Seq<char>>,
)
    ensures
        plan_of("Reflection Mode"@, id, name, query) == AssetPlanView::Redirect(
            local_location(name),
        ),
        direct_plan_of("Reflection Mode"@, name, next) == AssetPlanView::Local(name),
{
}

/// A batch is sent on exactly where the mode grabs assets and there is a cookie; everywhere else
/// it is answered from the stored files.
pub proof fn law_only_grabbing_uses_the_cookie(mode: Seq<char>, cookie: Option<Seq<char>>)
    ensures
        batch_plan_of(mode, cookie) is SendOn <==> mode == "Asset Grab Mode"@ && cookie is Some,
        batch_plan_of(mode, cookie) is Local <==> mode != "Asset Grab Mode"@ || cookie is None,
{
}

/// A batch that is answered locally has one entry for each request, in their order and under
/// their ids; it gives a location exactly where the asset is stored, and an error exactly where
/// it is not.
pub proof fn law_batch_answers_every_request(
    requests: Seq<BatchRequestEntry>,
    type_ids: Seq<Option<i64>>,
    stems: Seq<Seq<char>>,
    i: int,
)
    requires
        requests.len() == type_ids.len(),
        0 <= i < requests.len(),
    ensures
        local_answers(requests, type_ids, stems).len() == requests.len(),
        local_answers(requests, type_ids, stems)[i].request_id == requests[i].request_id@,
        local_answers(requests, type_ids, stems)[i].location is Some <==> stems.contains(
            decimal(requests[i].asset_id as int),
        ),
        local_answers(requests, type_ids, stems)[i].error is None <==> stems.contains(
            decimal(requests[i].asset_id as int),
        ),
{
}

/// Of several requests under one id the last one says which asset is meant.
pub proof fn law_last_request_counts(
    requests: Seq<BatchRequestEntry>,
    request_id: Seq<char>,
    n: int,
    k: int,
)
    requires
        0 <= k < n <= requests.len(),
        requests[k].request_id@ == request_id,
        forall|j: int| k < j < n ==> (#[trigger] requests[j]).request_id@ != request_id,
    ensures
        asset_asked(requests, request_id, n) == Some(requests[k].asset_id),
    decreases n,
{
    if k < n - 1 {
        assert(requests[n - 1].request_id@ != request_id);
        law_last_request_counts(requests, request_id, n - 1, k);
    }
}

/// Different representations of an asset have different file names, as far as their digests
/// differ, and none has the name of the bare asset.
pub proof fn law_representations_have_their_own_files(
    id: Seq<char>,
    a: Seq<u8>,
    b: Seq<u8>,
)
    ensures
        hashed_name(id, a) == hashed_name(id, b) ==> a == b,
        hashed_name(id, a) != id,
{
    reveal_strlit("-");
    let x = hashed_name(id, a);
    let y = hashed_name(id, b);
    assert(x.len() == id.len() + 1 + 2 * a.len());
    assert(y.len() == id.len() + 1 + 2 * b.len());
    if x == y {
        assert forall|i: int| 0 <= i < a.len() implies a[i] == b[i] by {
            assert(x[id.len() + 1 + 2 * i] == hex_bytes(a)[2 * i]);
            assert(y[id.len() + 1 + 2 * i] == hex_bytes(b)[2 * i]);
            assert(x[id.len() + 1 + 2 * i + 1] == hex_bytes(a)[2 * i + 1]);
            assert(y[id.len() + 1 + 2 * i + 1] == hex_bytes(b)[2 * i + 1]);
            lemma_digits_differ(a[i] as int / 16, b[i] as int / 16);
            lemma_digits_differ(a[i] as int % 16, b[i] as int % 16);
        }
        assert(a =~= b);
    }
}

} // verus!
