//! Data stores kept in files: where an object lies and how requests on it are answered.
use crate::numbers::{
    all_digits, decimal, decimal_text, in_base, law_decimal_reads_back, parse_i64, parsed_i64,
};
use crate::text::{
    begins_with, contains_text, ends_with, from_chars_between, from_utf8_lossy, has_part,
    is_white_space, join, same_text, to_chars, trim, trimmed, utf8_lossy, views,
};
use vstd::prelude::*;
use vstd::slice::slice_to_vec;
use vstd::utf8::encode_utf8;

verus! {

/// An answer to a request: its status, whether it is marked as JSON, and its body.
#[derive(Debug, Clone)]
pub struct Reply {
    pub status: u16,
    pub json: bool,
    pub body: Vec<u8>,
}

/// What a `Reply` holds.
#[verifier::ext_equal]
pub struct ReplyView {
    pub status: u16,
    pub json: bool,
    pub body: Seq<u8>,
}

impl View for Reply {
    type V = ReplyView;

    open spec fn view(&self) -> ReplyView {
        ReplyView { status: self.status, json: self.json, body: self.body@ }
    }
}

/// A reply without a body.
pub open spec fn bare_reply(status: u16) -> ReplyView {
    ReplyView { status, json: false, body: Seq::empty() }
}

/// What there is of an object on disk.
#[derive(Debug, Clone)]
pub enum Stored {
    /// There is no file.
    Missing,
    /// There is a file, and reading it failed.
    Unreadable,
    /// The bytes of the file.
    Data(Vec<u8>),
}

/// What a `Stored` holds.
pub enum StoredView {
    Missing,
    Unreadable,
    Data(Seq<u8>),
}

impl View for Stored {
    type V = StoredView;

    open spec fn view(&self) -> StoredView {
        match self {
            Stored::Missing => StoredView::Missing,
            Stored::Unreadable => StoredView::Unreadable,
            Stored::Data(data) => StoredView::Data(data@),
        }
    }
}

/// The answer to a request for an object: what is stored, or the status that tells why it is not
/// given.
pub open spec fn get_answer(stored: StoredView) -> ReplyView {
    match stored {
        StoredView::Missing => bare_reply(404),
        StoredView::Unreadable => bare_reply(500),
        StoredView::Data(data) => ReplyView { status: 200, json: true, body: data },
    }
}

/// The answer to a request to store an object.
pub open spec fn put_answer(written: bool) -> ReplyView {
    if written {
        ReplyView { status: 200, json: true, body: Seq::empty() }
    } else {
        bare_reply(500)
    }
}

/// What a request asks to be done with an object.
#[derive(Debug, Clone, Copy, PartialEq, Eq, Structural)]
pub enum ObjectAction {
    Get,
    Put,
    Delete,
    NotAllowed,
}

/// What a request below an object asks for.
#[derive(Debug, Clone, Copy, PartialEq, Eq, Structural)]
pub enum SubAction {
    Increment,
    Lock,
    Versions,
    Unknown,
}

/// The directory that holds everything of a user.
pub open spec fn user_path(user: Seq<char>) -> Seq<Seq<char>> {
    seq!["static/datastores"@, user]
}

/// The scope that is meant where none is given.
pub open spec fn scope_name(scope: Seq<char>) -> Seq<char> {
    if scope.len() == 0 {
        "global"@
    } else {
        scope
    }
}

/// The directory of a data store, part by part.
pub open spec fn store_path(
    user: Seq<char>,
    datastore: Seq<char>,
    scope: Seq<char>,
) -> Seq<Seq<char>> {
    user_path(user) + seq![datastore, scope_name(scope)]
}

/// The name of the file of an object.
pub open spec fn file_name_of(key: Seq<char>) -> Seq<char> {
    key + ".dat"@
}

/// What a method asks to be done with an object.
pub open spec fn action_of(method: Seq<char>) -> ObjectAction {
    if method == "GET"@ {
        ObjectAction::Get
    } else if method == "POST"@ || method == "PUT"@ {
        ObjectAction::Put
    } else if method == "DELETE"@ {
        ObjectAction::Delete
    } else {
        ObjectAction::NotAllowed
    }
}

/// What the path below an object asks for; the first of these words that it holds counts.
pub open spec fn sub_action_of(rest: Seq<char>) -> SubAction {
    if has_part(rest, "increment"@) {
        SubAction::Increment
    } else if has_part(rest, "lock"@) {
        SubAction::Lock
    } else if has_part(rest, "versions"@) {
        SubAction::Versions
    } else {
        SubAction::Unknown
    }
}

/// The sum of two 64-bit integers, which wraps where it does not fit.
pub open spec fn wrapping_sum(a: i64, b: i64) -> int {
    if a + b > i64::MAX {
        a + b - 0x1_0000_0000_0000_0000
    } else if a + b < i64::MIN {
        a + b + 0x1_0000_0000_0000_0000
    } else {
        a + b
    }
}

/// By how much an increment counts up: one where nothing or no number is given.
pub open spec fn step_of(by: Option<Seq<char>>) -> i64 {
    match by {
        Some(s) => match parsed_i64(s) {
            Some(v) => v,
            None => 1,
        },
        None => 1,
    }
}

/// The number that an object holds: zero where it is missing or holds no number.
pub open spec fn count_of(text: Option<Seq<char>>) -> i64 {
    match text {
        Some(s) => match parsed_i64(trimmed(s)) {
            Some(v) => v,
            None => 0,
        },
        None => 0,
    }
}

/// The text of the number that an object holds after an increment.
pub open spec fn counted(text: Option<Seq<char>>, by: Option<Seq<char>>) -> Seq<char> {
    decimal(wrapping_sum(count_of(text), step_of(by)))
}

/// A text with a backslash before each quotation mark.
pub open spec fn quoted(s: Seq<char>) -> Seq<char>
    decreases s.len(),
{
    if s.len() == 0 {
        Seq::empty()
    } else if s.last() == '"' {
        quoted(s.drop_last()) + seq!['\\', '"']
    } else {
        quoted(s.drop_last()).push(s.last())
    }
}

/// The only version of an object, with the text that it holds.
pub open spec fn version_text(key: Seq<char>, value: Seq<char>) -> Seq<char> {
    "{\"key\":\""@ + key + "\",\"value\":\""@ + quoted(value)
        + "\",\"version\":\"0\",\"isDeleted\":false}"@
}

/// Whether `a` comes before `b`, or they are the same: by the first character in which they
/// differ, the shorter first where there is none.
pub open spec fn at_most(a: Seq<char>, b: Seq<char>) -> bool
    decreases a.len(),
{
    if a.len() == 0 {
        true
    } else if b.len() == 0 {
        false
    } else if a[0] != b[0] {
        a[0] < b[0]
    } else {
        at_most(a.drop_first(), b.drop_first())
    }
}

/// The names with `x` put before the first one that it is at most.
pub open spec fn put_in(names: Seq<Seq<char>>, x: Seq<char>) -> Seq<Seq<char>>
    decreases names.len(),
{
    if names.len() == 0 {
        seq![x]
    } else if at_most(x, names[0]) {
        seq![x] + names
    } else {
        seq![names[0]] + put_in(names.drop_first(), x)
    }
}

/// The names in order.
pub open spec fn in_order(names: Seq<Seq<char>>) -> Seq<Seq<char>>
    decreases names.len(),
{
    if names.len() == 0 {
        Seq::empty()
    } else {
        put_in(in_order(names.drop_last()), names.last())
    }
}

/// The names that begin with `prefix`.
pub open spec fn with_prefix(names: Seq<Seq<char>>, prefix: Seq<char>) -> Seq<Seq<char>>
    decreases names.len(),
{
    if names.len() == 0 {
        Seq::empty()
    } else {
        let before = with_prefix(names.drop_last(), prefix);
        if prefix.is_prefix_of(names.last()) {
            before.push(names.last())
        } else {
            before
        }
    }
}

/// The names in quotation marks, with commas between them.
pub open spec fn name_list(names: Seq<Seq<char>>) -> Seq<char>
    decreases names.len(),
{
    if names.len() == 0 {
        Seq::empty()
    } else if names.len() == 1 {
        "\""@ + names[0] + "\""@
    } else {
        name_list(names.drop_last()) + ",\""@ + names.last() + "\""@
    }
}

/// The list of the data stores whose names begin with `prefix`, in order.
pub open spec fn list_text(names: Seq<Seq<char>>, prefix: Seq<char>) -> Seq<char> {
    "{\"data\":["@ + name_list(in_order(with_prefix(names, prefix))) + "]}"@
}

/// The key of the object that a file holds, if its name is that of an object's file.
pub open spec fn key_of(file: Seq<char>) -> Option<Seq<char>> {
    if ".dat"@.is_suffix_of(file) {
        Some(file.take(file.len() - ".dat"@.len()))
    } else {
        None
    }
}

/// The keys of the objects that the files hold, in the order of the files.
pub open spec fn keys_of(files: Seq<Seq<char>>) -> Seq<Seq<char>>
    decreases files.len(),
{
    if files.len() == 0 {
        Seq::empty()
    } else {
        let before = keys_of(files.drop_last());
        match key_of(files.last()) {
            Some(key) => before.push(key),
            None => before,
        }
    }
}

/// The directory that holds everything of a user, part by part.
pub fn user_dir(user_id: &str) -> (r: Vec<String>)
    ensures
        views(r@) == user_path(user_id@),
{
    let mut r: Vec<String> = Vec::new();
    r.push("static/datastores".to_string());
    r.push(user_id.to_string());
    assert(views(r@) =~= user_path(user_id@));
    r
}

/// The directory of a data store, part by part.
pub fn datastore_dir(user_id: &str, datastore: &str, scope: &str) -> (r: Vec<String>)
    ensures
        views(r@) == store_path(user_id@, datastore@, scope@),
{
    let mut r = user_dir(user_id);
    let ghost user = views(r@);
    r.push(datastore.to_string());
    assert(views(r@) =~= user.push(datastore@));
    let name = if to_chars(scope).len() == 0 {
        "global".to_string()
    } else {
        scope.to_string()
    };
    r.push(name);
    assert(views(r@) =~= user.push(datastore@).push(name@));
    assert(views(r@) =~= store_path(user_id@, datastore@, scope@));
    r
}

/// The name of the file of an object.
pub fn object_file_name(key: &str) -> (r: String)
    ensures
        r@ == file_name_of(key@),
{
    join(key, ".dat")
}

/// What a method asks to be done with an object.
pub fn object_action(method: &str) -> (r: ObjectAction)
    ensures
        r == action_of(method@),
{
    if same_text(method, "GET") {
        ObjectAction::Get
    } else if same_text(method, "POST") || same_text(method, "PUT") {
        ObjectAction::Put
    } else if same_text(method, "DELETE") {
        ObjectAction::Delete
    } else {
        ObjectAction::NotAllowed
    }
}

/// What the path below an object asks for.
pub fn sub_action(rest: &str) -> (r: SubAction)
    ensures
        r == sub_action_of(rest@),
{
    if contains_text(rest, "increment") {
        SubAction::Increment
    } else if contains_text(rest, "lock") {
        SubAction::Lock
    } else if contains_text(rest, "versions") {
        SubAction::Versions
    } else {
        SubAction::Unknown
    }
}

/// The answer to a request for an object.
pub fn get_reply(stored: Stored) -> (r: Reply)
    ensures
        r@ == match stored {
            Stored::Missing => bare_reply(404),
            Stored::Unreadable => bare_reply(500),
            Stored::Data(data) => ReplyView { status: 200, json: true, body: data@ },
        },
        r@ == get_answer(stored@),
{
    match stored {
        Stored::Missing => Reply { status: 404, json: false, body: Vec::new() },
        Stored::Unreadable => Reply { status: 500, json: false, body: Vec::new() },
        Stored::Data(data) => Reply { status: 200, json: true, body: data },
    }
}

/// The answer to a request to store an object.
pub fn put_reply(written: bool) -> (r: Reply)
    ensures
        r@ == (if written {
            ReplyView { status: 200, json: true, body: Seq::empty() }
        } else {
            bare_reply(500)
        }),
        r@ == put_answer(written),
{
    if written {
        Reply { status: 200, json: true, body: Vec::new() }
    } else {
        Reply { status: 500, json: false, body: Vec::new() }
    }
}

/// The answer to a request to delete an object, whether there was one or not.
pub fn delete_reply() -> (r: Reply)
    ensures
        r@ == bare_reply(200),
{
    Reply { status: 200, json: false, body: Vec::new() }
}

/// An answer that holds JSON.
pub fn json_reply(text: &str) -> (r: Reply)
    ensures
        r@ == (ReplyView { status: 200, json: true, body: encode_utf8(text@) }),
{
    Reply { status: 200, json: true, body: slice_to_vec(text.as_bytes()) }
}

/// The answer to a request to lock or unlock an object: nothing is done.
pub fn lock_reply() -> (r: Reply)
    ensures
        r@ == (ReplyView { status: 200, json: true, body: encode_utf8("{}"@) }),
{
    json_reply("{}")
}

/// The answer to a request that is neither of a known kind nor of an allowed method.
pub fn refusal(status: u16) -> (r: Reply)
    ensures
        r@ == bare_reply(status),
{
    Reply { status, json: false, body: Vec::new() }
}

/// The text of the number that an object holds after an increment: `text` is what its file
/// holds, where there is one that can be read, and `by` what the request gives.
pub fn increment(text: Option<&str>, by: Option<&str>) -> (r: String)
    ensures
        r@ == counted(
            match text {
                Some(s) => Some(s@),
                None => None,
            },
            match by {
                Some(s) => Some(s@),
                None => None,
            },
        ),
{
    let step: i64 = match by {
        Some(s) => match parse_i64(&to_chars(s)) {
            Some(v) => v,
            None => 1,
        },
        None => 1,
    };
    let current: i64 = match text {
        Some(s) => match parse_i64(&to_chars(&trim(s))) {
            Some(v) => v,
            None => 0,
        },
        None => 0,
    };
    decimal_text(current.wrapping_add(step))
}

fn quote(s: &str) -> (r: String)
    ensures
        r@ == quoted(s@),
{
    let chars = to_chars(s);
    let mut r = String::new();
    for i in 0..chars.len()
        invariant
            chars@ == s@,
            r@ =~= quoted(s@.take(i as int)),
    {
        assert(s@.take(i + 1).drop_last() =~= s@.take(i as int));
        if chars[i] == '"' {
            r.push('\\');
        }
        r.push(chars[i]);
    }
    assert(s@.take(s@.len() as int) =~= s@);
    r
}

/// The only version of an object, with the text that it holds.
pub fn version_json(key: &str, value: &str) -> (r: String)
    ensures
        r@ == version_text(key@, value@),
{
    let a = join("{\"key\":\"", key);
    let b = join(&a, "\",\"value\":\"");
    let c = join(&b, &quote(value));
    join(&c, "\",\"version\":\"0\",\"isDeleted\":false}")
}

/// The versions of an object whose file holds `stored`.
pub fn versions_json(key: &str, stored: &[u8]) -> (r: String)
    ensures
        r@ == version_text(key@, utf8_lossy(stored@)),
{
    version_json(key, &from_utf8_lossy(stored))
}

fn name_at_most(a: &[char], b: &[char]) -> (r: bool)
    ensures
        r == at_most(a@, b@),
{
    let mut i: usize = 0;
    assert(a@.skip(0) =~= a@ && b@.skip(0) =~= b@);
    while i < a.len() && i < b.len()
        invariant
            i <= a@.len(),
            i <= b@.len(),
            at_most(a@, b@) == at_most(a@.skip(i as int), b@.skip(i as int)),
        decreases a.len() - i,
    {
        if a[i] != b[i] {
            return a[i] < b[i];
        }
        assert(a@.skip(i as int).drop_first() =~= a@.skip(i + 1));
        assert(b@.skip(i as int).drop_first() =~= b@.skip(i + 1));
        i += 1;
    }
    i == a.len()
}

proof fn lemma_put_in(names: Seq<Seq<char>>, x: Seq<char>, k: int)
    requires
        0 <= k <= names.len(),
        forall|j: int| 0 <= j < k ==> !at_most(x, #[trigger] names[j]),
        k < names.len() ==> at_most(x, names[k]),
    ensures
        put_in(names, x) == names.insert(k, x),
    decreases names.len(),
{
    if k == 0 {
        assert(put_in(names, x) =~= names.insert(0, x));
    } else {
        assert(!at_most(x, names[0]));
        let rest = names.drop_first();
        assert(forall|j: int| 0 <= j < k - 1 ==> rest[j] == #[trigger] names[j + 1]);
        lemma_put_in(rest, x, k - 1);
        assert(seq![names[0]] + rest.insert(k - 1, x) =~= names.insert(k, x));
    }
}

fn insert_name(names: &mut Vec<String>, x: &str)
    ensures
        views(final(names)@) == put_in(views(old(names)@), x@),
{
    let xs = to_chars(x);
    let mut k: usize = 0;
    while k < names.len() && !name_at_most(&xs, &to_chars(&names[k]))
        invariant
            k <= names@.len(),
            xs@ == x@,
            names@ == old(names)@,
            forall|j: int| 0 <= j < k ==> !at_most(x@, #[trigger] views(names@)[j]),
        decreases names.len() - k,
    {
        k += 1;
    }
    proof {
        lemma_put_in(views(names@), x@, k as int);
    }
    names.insert(k, x.to_string());
    assert(views(names@) =~= views(old(names)@).insert(k as int, x@));
}

/// The keys of the objects of a scope, in order: `files` are the names of the files in its
/// directory.
pub fn object_keys(files: &[String]) -> (out: Vec<String>)
    ensures
        views(out@) == in_order(keys_of(views(files@))),
{
    let mut out: Vec<String> = Vec::new();
    let ending: usize = to_chars(".dat").len();
    let ghost all = views(files@);
    assert(views(out@) =~= in_order(keys_of(all.take(0))));
    for i in 0..files.len()
        invariant
            ending == ".dat"@.len(),
            all == views(files@),
            views(out@) == in_order(keys_of(all.take(i as int))),
    {
        assert(all.take(i + 1).drop_last() =~= all.take(i as int));
        assert(all[i as int] == files@[i as int]@);
        if ends_with(&files[i], ".dat") {
            let chars = to_chars(&files[i]);
            let key = from_chars_between(&chars, 0, chars.len() - ending);
            assert(key@ =~= chars@.take(chars@.len() - ending));
            let ghost before = keys_of(all.take(i as int));
            assert(before.push(key@).drop_last() =~= before);
            insert_name(&mut out, &key);
        }
    }
    assert(all.take(files@.len() as int) =~= all);
    out
}

/// The list of the data stores among `names` that begin with `prefix`, in order.
pub fn list_json(names: &[String], prefix: &str) -> (r: String)
    ensures
        r@ == list_text(views(names@), prefix@),
{
    let mut sorted: Vec<String> = Vec::new();
    let ghost all = views(names@);
    assert(views(sorted@) =~= in_order(with_prefix(all.take(0), prefix@)));
    for i in 0..names.len()
        invariant
            all == views(names@),
            views(sorted@) == in_order(with_prefix(all.take(i as int), prefix@)),
    {
        assert(all.take(i + 1).drop_last() =~= all.take(i as int));
        assert(all[i as int] == names@[i as int]@);
        if begins_with(&names[i], prefix) {
            let ghost before = with_prefix(all.take(i as int), prefix@);
            assert(before.push(all[i as int]).drop_last() =~= before);
            insert_name(&mut sorted, &names[i]);
        }
    }
    assert(all.take(names@.len() as int) =~= all);
    let mut list = String::new();
    let ghost ordered = views(sorted@);
    for i in 0..sorted.len()
        invariant
            ordered == views(sorted@),
            list@ == name_list(ordered.take(i as int)),
    {
        assert(ordered.take(i + 1).drop_last() =~= ordered.take(i as int));
        assert(ordered.take(i + 1).last() == sorted@[i as int]@);
        let ghost before = list@;
        if i == 0 {
            list.append("\"");
            assert(list@ =~= "\""@);
        } else {
            list.append(",\"");
        }
        list.append(&sorted[i]);
        list.append("\"");
    }
    assert(ordered.take(sorted@.len() as int) =~= ordered);
    let head = join("{\"data\":[", &list);
    join(&head, "]}")
}

proof fn lemma_number_text(n: nat)
    ensures
        in_base(n, 10).len() > 0,
        all_digits(in_base(n, 10)),
    decreases n,
{
    if n >= 10 {
        lemma_number_text(n / 10);
    }
}

/// What an increment stores is read back as the number that it counted to.
pub proof fn law_increment_reads_back(text: Option<Seq<char>>, by: Option<Seq<char>>)
    ensures
        count_of(Some(counted(text, by))) == wrapping_sum(count_of(text), step_of(by)),
{
    let v = wrapping_sum(count_of(text), step_of(by));
    let s = decimal(v);
    lemma_number_text(if v < 0 {
        (-v) as nat
    } else {
        v as nat
    });
    law_decimal_reads_back(v as i64);
    assert(!is_white_space(s.first()));
    assert(!is_white_space(s.last()));
    assert(trimmed(s) == s);
}

/// Two increments count as one by the sum of their steps, as long as nothing wraps.
pub proof fn law_increments_add_up(
    text: Option<Seq<char>>,
    a: Seq<char>,
    b: Seq<char>,
    sum: Seq<char>,
)
    requires
        step_of(Some(sum)) == step_of(Some(a)) + step_of(Some(b)),
        i64::MIN <= count_of(text) + step_of(Some(a)) <= i64::MAX,
        i64::MIN <= count_of(text) + step_of(Some(sum)) <= i64::MAX,
    ensures
        counted(Some(counted(text, Some(a))), Some(b)) == counted(text, Some(sum)),
{
    law_increment_reads_back(text, Some(a));
}

proof fn lemma_at_most_total(a: Seq<char>, b: Seq<char>)
    ensures
        at_most(a, b) || at_most(b, a),
    decreases a.len(),
{
    if a.len() > 0 && b.len() > 0 && a[0] == b[0] {
        lemma_at_most_total(a.drop_first(), b.drop_first());
    }
}

proof fn lemma_at_most_transitive(a: Seq<char>, b: Seq<char>, c: Seq<char>)
    requires
        at_most(a, b),
        at_most(b, c),
    ensures
        at_most(a, c),
    decreases a.len(),
{
    if a.len() > 0 && b.len() > 0 && c.len() > 0 && a[0] == b[0] && b[0] == c[0] {
        lemma_at_most_transitive(a.drop_first(), b.drop_first(), c.drop_first());
    }
}

/// Whether each name is at most every later one.
pub open spec fn ordered(names: Seq<Seq<char>>) -> bool {
    forall|i: int, j: int|
        0 <= i < j < names.len() ==> at_most(#[trigger] names[i], #[trigger] names[j])
}

proof fn lemma_put_in_ordered(names: Seq<Seq<char>>, x: Seq<char>)
    requires
        ordered(names),
    ensures
        ordered(put_in(names, x)),
        put_in(names, x).to_multiset() == names.to_multiset().insert(x),
    decreases names.len(),
{
    broadcast use vstd::seq_lib::group_to_multiset_ensures;

    if names.len() == 0 {
        assert(put_in(names, x) =~= names.push(x));
    } else if at_most(x, names[0]) {
        let r = put_in(names, x);
        assert(r =~= names.insert(0, x));
        assert forall|i: int, j: int| 0 <= i < j < r.len() implies at_most(
            #[trigger] r[i],
            #[trigger] r[j],
        ) by {
            if i == 0 && j > 1 {
                assert(r[j] == names[j - 1]);
                assert(at_most(names[0], names[j - 1]));
                lemma_at_most_transitive(x, names[0], names[j - 1]);
            } else if i > 0 {
                assert(at_most(names[i - 1], names[j - 1]));
            }
        }
    } else {
        let rest = names.drop_first();
        assert forall|i: int, j: int| 0 <= i < j < rest.len() implies at_most(
            #[trigger] rest[i],
            #[trigger] rest[j],
        ) by {
            assert(at_most(names[i + 1], names[j + 1]));
        }
        lemma_put_in_ordered(rest, x);
        lemma_at_most_total(x, names[0]);
        let tail = put_in(rest, x);
        let r = put_in(names, x);
        assert(r =~= seq![names[0]] + tail);
        assert(names =~= seq![names[0]] + rest);
        vstd::seq_lib::lemma_multiset_commutative(seq![names[0]], tail);
        vstd::seq_lib::lemma_multiset_commutative(seq![names[0]], rest);
        assert(r.to_multiset() =~= names.to_multiset().insert(x));
        assert forall|i: int, j: int| 0 <= i < j < r.len() implies at_most(
            #[trigger] r[i],
            #[trigger] r[j],
        ) by {
            if i == 0 {
                let y = tail[j - 1];
                assert(r[j] == y);
                assert(tail.to_multiset().count(y) > 0);
                assert(rest.to_multiset().insert(x).count(y) > 0);
                if y != x {
                    assert(rest.to_multiset().count(y) > 0);
                    assert(rest.contains(y));
                    let k = choose|k: int| 0 <= k < rest.len() && rest[k] == y;
                    assert(at_most(names[0], names[k + 1]));
                }
            } else {
                assert(at_most(tail[i - 1], tail[j - 1]));
            }
        }
    }
}

/// Sorting keeps every name as often as it was there and puts the names in order.
pub proof fn law_list_is_in_order(names: Seq<Seq<char>>)
    ensures
        ordered(in_order(names)),
        in_order(names).to_multiset() == names.to_multiset(),
    decreases names.len(),
{
    broadcast use vstd::seq_lib::group_to_multiset_ensures;

    if names.len() > 0 {
        law_list_is_in_order(names.drop_last());
        lemma_put_in_ordered(in_order(names.drop_last()), names.last());
        assert(names =~= names.drop_last().push(names.last()));
    } else {
        assert(names =~= Seq::empty());
    }
}

/// A listed data store begins with the prefix that was asked for, and every one that does is
/// listed.
pub proof fn law_list_holds_the_prefix(names: Seq<Seq<char>>, prefix: Seq<char>, x: Seq<char>)
    ensures
        in_order(with_prefix(names, prefix)).contains(x) <==> names.contains(x)
            && prefix.is_prefix_of(x),
{
    broadcast use vstd::seq_lib::group_to_multiset_ensures;

    let kept = with_prefix(names, prefix);
    law_list_is_in_order(kept);
    lemma_with_prefix(names, prefix, x);
    kept.to_multiset_ensures();
    in_order(kept).to_multiset_ensures();
    assert(kept.contains(x) <==> kept.to_multiset().count(x) > 0);
    assert(in_order(kept).contains(x) <==> in_order(kept).to_multiset().count(x) > 0);
}

proof fn lemma_with_prefix(names: Seq<Seq<char>>, prefix: Seq<char>, x: Seq<char>)
    ensures
        with_prefix(names, prefix).contains(x) <==> names.contains(x) && prefix.is_prefix_of(x),
    decreases names.len(),
{
    if names.len() > 0 {
        let front = names.drop_last();
        let before = with_prefix(front, prefix);
        lemma_with_prefix(front, prefix, x);
        if names.contains(x) {
            let k = choose|k: int| 0 <= k < names.len() && names[k] == x;
            if k < front.len() {
                assert(front[k] == x);
            }
        }
        if front.contains(x) {
            let k = choose|k: int| 0 <= k < front.len() && front[k] == x;
            assert(names[k] == x);
        }
        if before.contains(x) {
            let k = choose|k: int| 0 <= k < before.len() && before[k] == x;
            assert(before.push(names.last())[k] == x);
        }
        assert(before.push(names.last()).last() == names.last());
        assert(names[names.len() - 1] == names.last());
    }
}

/// The object that a request names: its user, data store, scope and key.
pub struct ObjectId {
    pub user: Seq<char>,
    pub datastore: Seq<char>,
    pub scope: Seq<char>,
    pub key: Seq<char>,
}

/// The path of parts, with a slash between each two.
pub open spec fn joined(parts: Seq<Seq<char>>) -> Seq<char>
    decreases parts.len(),
{
    if parts.len() == 0 {
        Seq::empty()
    } else if parts.len() == 1 {
        parts[0]
    } else {
        joined(parts.drop_last()) + seq!['/'] + parts.last()
    }
}

/// The parts of the path of an object's file.
pub open spec fn parts_of(o: ObjectId) -> Seq<Seq<char>> {
    store_path(o.user, o.datastore, o.scope).push(file_name_of(o.key))
}

/// The path of an object's file.
pub open spec fn place_of(o: ObjectId) -> Seq<char> {
    joined(parts_of(o))
}

/// Whether a text holds nothing that sets off the parts of a path.
pub open spec fn no_separator(s: Seq<char>) -> bool {
    !s.contains('/') && !s.contains('\\') && !s.contains(':')
}

/// Whether a text names a directory in the one before it: it is not empty, is neither of the
/// names for this directory and the one above, and holds no separator.
pub open spec fn plain_part(s: Seq<char>) -> bool {
    s.len() > 0 && s != seq!['.'] && s != seq!['.', '.'] && no_separator(s)
}

/// Whether the names of an object are each one part of a path, so that the path tells which file
/// is meant.
pub open spec fn plain_object(o: ObjectId) -> bool {
    plain_part(o.user) && plain_part(o.datastore) && plain_part(scope_name(o.scope))
        && no_separator(o.key)
}

/// Whether two requests name the same object.
pub open spec fn same_object(a: ObjectId, b: ObjectId) -> bool {
    a.user == b.user && a.datastore == b.datastore && scope_name(a.scope) == scope_name(b.scope)
        && a.key == b.key
}

proof fn lemma_last_part(a: Seq<char>, x: Seq<char>, b: Seq<char>, y: Seq<char>)
    requires
        a + seq!['/'] + x == b + seq!['/'] + y,
        !x.contains('/'),
        !y.contains('/'),
    ensures
        a == b,
        x == y,
{
    let s = a + seq!['/'] + x;
    let t = b + seq!['/'] + y;
    assert(s.len() == a.len() + 1 + x.len());
    assert(t.len() == b.len() + 1 + y.len());
    assert(s[a.len() as int] == '/');
    assert(t[b.len() as int] == '/');
    if a.len() < b.len() {
        assert(s[b.len() as int] == x[b.len() - a.len() - 1]);
    } else if b.len() < a.len() {
        assert(t[a.len() as int] == y[a.len() - b.len() - 1]);
    }
    assert(a =~= s.take(a.len() as int));
    assert(b =~= t.take(b.len() as int));
    assert(x =~= s.skip(a.len() as int + 1));
    assert(y =~= t.skip(b.len() as int + 1));
}

proof fn lemma_joined(ps: Seq<Seq<char>>, qs: Seq<Seq<char>>)
    requires
        ps.len() == qs.len() >= 1,
        ps[0] == qs[0],
        forall|k: int| 1 <= k < ps.len() ==> !(#[trigger] ps[k]).contains('/'),
        forall|k: int| 1 <= k < qs.len() ==> !(#[trigger] qs[k]).contains('/'),
        joined(ps) == joined(qs),
    ensures
        ps == qs,
    decreases ps.len(),
{
    if ps.len() > 1 {
        assert(!ps[ps.len() - 1].contains('/'));
        assert(!qs[qs.len() - 1].contains('/'));
        lemma_last_part(joined(ps.drop_last()), ps.last(), joined(qs.drop_last()), qs.last());
        lemma_joined(ps.drop_last(), qs.drop_last());
        assert(ps =~= ps.drop_last().push(ps.last()));
        assert(qs =~= qs.drop_last().push(qs.last()));
    } else {
        assert(ps =~= qs);
    }
}

proof fn lemma_parts(o: ObjectId)
    ensures
        parts_of(o).len() == 5,
        parts_of(o)[0] == "static/datastores"@,
        parts_of(o)[1] == o.user,
        parts_of(o)[2] == o.datastore,
        parts_of(o)[3] == scope_name(o.scope),
        parts_of(o)[4] == file_name_of(o.key),
        plain_object(o) ==> forall|k: int|
            1 <= k < parts_of(o).len() ==> !(#[trigger] parts_of(o)[k]).contains('/'),
{
    reveal_strlit(".dat");
    if plain_object(o) {
        let name = file_name_of(o.key);
        assert forall|i: int| 0 <= i < name.len() implies name[i] != '/' by {
            if i < o.key.len() {
                assert(name[i] == o.key[i]);
            } else {
                assert(name[i] == ".dat"@[i - o.key.len()]);
            }
        }
    }
}

/// Objects of different users, data stores, scopes or keys have different paths, where each of
/// their names is one part of a path. The names count as they are written: a file system that
/// folds the case of names can still bring two of them together.
pub proof fn law_objects_lie_apart(o: ObjectId, p: ObjectId)
    requires
        plain_object(o),
        plain_object(p),
        !same_object(o, p),
    ensures
        place_of(o) != place_of(p),
{
    if place_of(o) == place_of(p) {
        lemma_parts(o);
        lemma_parts(p);
        lemma_joined(parts_of(o), parts_of(p));
        let a = file_name_of(o.key);
        let b = file_name_of(p.key);
        assert(a.len() == o.key.len() + ".dat"@.len());
        assert(b.len() == p.key.len() + ".dat"@.len());
        assert(o.key =~= a.take(o.key.len() as int));
        assert(p.key =~= b.take(p.key.len() as int));
    }
}

/// The files on disk, by their paths, after an object was stored.
pub open spec fn after_put(
    disk: Map<Seq<char>, Seq<u8>>,
    o: ObjectId,
    body: Seq<u8>,
) -> Map<Seq<char>, Seq<u8>> {
    disk.insert(place_of(o), body)
}

/// The files on disk, by their paths, after an object was deleted.
pub open spec fn after_delete(disk: Map<Seq<char>, Seq<u8>>, o: ObjectId) -> Map<
    Seq<char>,
    Seq<u8>,
> {
    disk.remove(place_of(o))
}

/// The answer to a request for an object, with the files on disk.
pub open spec fn answer_to_get(disk: Map<Seq<char>, Seq<u8>>, o: ObjectId) -> ReplyView {
    get_answer(
        if disk.dom().contains(place_of(o)) {
            StoredView::Data(disk[place_of(o)])
        } else {
            StoredView::Missing
        },
    )
}

/// A request for an object gives back what was stored last, and nothing once it was deleted.
/// Storing or deleting one object leaves every other as it is, where the names of both are each
/// one part of a path.
pub proof fn law_get_gives_back_what_was_put(
    disk: Map<Seq<char>, Seq<u8>>,
    o: ObjectId,
    p: ObjectId,
    body: Seq<u8>,
)
    ensures
        same_object(o, p) ==> answer_to_get(after_put(disk, o, body), p) == (ReplyView {
            status: 200,
            json: true,
            body,
        }),
        same_object(o, p) ==> answer_to_get(after_delete(disk, o), p) == bare_reply(404),
        !same_object(o, p) && plain_object(o) && plain_object(p) ==> answer_to_get(
            after_put(disk, o, body),
            p,
        ) == answer_to_get(disk, p),
        !same_object(o, p) && plain_object(o) && plain_object(p) ==> answer_to_get(
            after_delete(disk, o),
            p,
        ) == answer_to_get(disk, p),
{
    if same_object(o, p) {
        lemma_parts(o);
        lemma_parts(p);
        assert(parts_of(o) =~= parts_of(p));
    } else if plain_object(o) && plain_object(p) {
        law_objects_lie_apart(o, p);
    }
}

/// The keys that are listed are those whose files are there.
pub proof fn law_listed_keys_have_files(files: Seq<Seq<char>>, key: Seq<char>)
    ensures
        in_order(keys_of(files)).contains(key) <==> files.contains(file_name_of(key)),
{
    let keys = keys_of(files);
    law_list_is_in_order(keys);
    lemma_keys_of(files, key);
    keys.to_multiset_ensures();
    in_order(keys).to_multiset_ensures();
    assert(keys.contains(key) <==> keys.to_multiset().count(key) > 0);
    assert(in_order(keys).contains(key) <==> in_order(keys).to_multiset().count(key) > 0);
}

proof fn lemma_key_of(file: Seq<char>, key: Seq<char>)
    ensures
        key_of(file) == Some(key) <==> file == file_name_of(key),
{
    let ending = ".dat"@;
    if key_of(file) == Some(key) {
        assert(file =~= key + ending);
    }
    if file == file_name_of(key) {
        assert(file.subrange(file.len() - ending.len(), file.len() as int) =~= ending);
        assert(file.take(file.len() - ending.len()) =~= key);
    }
}

proof fn lemma_keys_of(files: Seq<Seq<char>>, key: Seq<char>)
    ensures
        keys_of(files).contains(key) <==> files.contains(file_name_of(key)),
    decreases files.len(),
{
    if files.len() > 0 {
        let front = files.drop_last();
        let before = keys_of(front);
        let name = file_name_of(key);
        lemma_keys_of(front, key);
        lemma_key_of(files.last(), key);
        if files.contains(name) {
            let k = choose|k: int| 0 <= k < files.len() && files[k] == name;
            if k < front.len() {
                assert(front[k] == name);
            }
        }
        if front.contains(name) {
            let k = choose|k: int| 0 <= k < front.len() && front[k] == name;
            assert(files[k] == name);
        }
        assert(files[files.len() - 1] == files.last());
        if let Some(last) = key_of(files.last()) {
            let all = before.push(last);
            assert(all.last() == last);
            if before.contains(key) {
                let k = choose|k: int| 0 <= k < before.len() && before[k] == key;
                assert(all[k] == key);
            }
            if all.contains(key) {
                let k = choose|k: int| 0 <= k < all.len() && all[k] == key;
                if k < before.len() {
                    assert(before[k] == key);
                }
            }
        }
    }
}

/// An object without a scope is the one in the scope `global`.
pub proof fn law_no_scope_is_global(user: Seq<char>, datastore: Seq<char>)
    ensures
        store_path(user, datastore, Seq::empty()) == store_path(user, datastore, "global"@),
{
    reveal_strlit("global");
}

} // verus!
