//! What requests on data stores mean, stated on their texts.
use crate::datastores::{
    action_of, at_most, bare_reply, counted, file_name_of, get_answer, in_order, keys_of,
    law_list_is_in_order, list_text, name_list, put_answer, quoted, store_path, sub_action_of,
    user_path, version_text, with_prefix, wrapping_sum, ObjectAction, StoredView, SubAction,
};
use crate::numbers::{decimal, in_base, parsed_i64};
use crate::text::trimmed;
use crate::text_laws::{
    blank, law_digits_write_the_number, law_numbers_are_read, law_parts_are_held,
    law_sign_stands_in_front, law_trimming_takes_the_white_space,
};
use vstd::prelude::*;

verus! {

/// The sum of two 64-bit integers, brought back into range where it leaves it.
pub open spec fn is_sum(r: int, c: int, d: int) -> bool {
    &&& i64::MIN <= r <= i64::MAX
    &&& (r - (c + d)) % 0x1_0000_0000_0000_0000 == 0
}

proof fn lemma_decimal_read(v: i64)
    ensures
        parsed_i64(decimal(v as int)) == Some(v),
        decimal(v as int).len() > 0,
        !blank(seq![decimal(v as int).first()]),
        !blank(seq![decimal(v as int).last()]),
{
    law_numbers_are_read(v, 0);
    law_sign_stands_in_front(v as int);
    let s = decimal(v as int);
    let n: nat = if v < 0 {
        (-v) as nat
    } else {
        v as nat
    };
    law_digits_write_the_number(n, 10);
    let d = in_base(n, 10);
    let none = Seq::new(0, |i: int| '0');
    assert(none =~= Seq::empty());
    assert(none + d =~= d);
    assert(seq!['-'] + none + d =~= seq!['-'] + d);
    let first = d[0];
    let last = d[d.len() - 1];
    assert('0' <= first <= '9' && '0' <= last <= '9');
    assert(s.last() == last);
    assert(s.first() == first || s.first() == '-');
    assert(!blank(seq![s.first()])) by {
        let one = seq![s.first()];
        assert(one[0] == s.first());
    }
    assert(!blank(seq![s.last()])) by {
        let one = seq![s.last()];
        assert(one[0] == s.last());
    }
}

/// An object that holds one number, white space around it or not, and is incremented by another
/// holds their sum.
pub proof fn law_increment_adds(c: i64, d: i64, before: Seq<char>, behind: Seq<char>, r: int)
    requires
        blank(before),
        blank(behind),
        is_sum(r, c as int, d as int),
    ensures
        counted(Some(before + decimal(c as int) + behind), Some(decimal(d as int))) == decimal(r),
        i64::MIN <= c + d <= i64::MAX ==> counted(
            Some(decimal(c as int)),
            Some(decimal(d as int)),
        ) == decimal(c + d),
{
    lemma_decimal_read(c);
    lemma_decimal_read(d);
    law_trimming_takes_the_white_space(before, decimal(c as int), behind);
    let none = Seq::<char>::empty();
    law_trimming_takes_the_white_space(none, decimal(c as int), none);
    assert(none + decimal(c as int) + none =~= decimal(c as int));
    assert(wrapping_sum(c, d) == r);
}

/// An object that is missing or holds no number counts from zero.
pub proof fn law_increment_starts_at_zero(text: Seq<char>, d: i64)
    requires
        parsed_i64(trimmed(text)) is None,
    ensures
        counted(None, Some(decimal(d as int))) == decimal(d as int),
        counted(Some(text), Some(decimal(d as int))) == decimal(d as int),
        counted(None, None) == decimal(1),
        counted(Some(text), None) == decimal(1),
{
    lemma_decimal_read(d);
}

/// An increment without a step, or with one that is no number, counts by one.
pub proof fn law_increment_counts_by_one(c: i64, by: Seq<char>, r: int)
    requires
        parsed_i64(by) is None,
        is_sum(r, c as int, 1),
    ensures
        counted(Some(decimal(c as int)), None) == decimal(r),
        counted(Some(decimal(c as int)), Some(by)) == decimal(r),
{
    lemma_decimal_read(c);
    let none = Seq::<char>::empty();
    law_trimming_takes_the_white_space(none, decimal(c as int), none);
    assert(none + decimal(c as int) + none =~= decimal(c as int));
    assert(wrapping_sum(c, 1) == r);
}

/// The directory of a data store is named by the user, the data store and the scope, each as it is
/// given; no scope is the scope `global`.
pub proof fn law_directory_is_named_by_its_parts(
    u: Seq<char>,
    d: Seq<char>,
    s: Seq<char>,
    k: Seq<char>,
)
    ensures
        user_path(u).len() == 2,
        user_path(u)[0] == "static/datastores"@,
        user_path(u)[1] == u,
        store_path(u, d, s).len() == 4,
        store_path(u, d, s)[0] == "static/datastores"@,
        store_path(u, d, s)[1] == u,
        store_path(u, d, s)[2] == d,
        s.len() > 0 ==> store_path(u, d, s)[3] == s,
        s.len() == 0 ==> store_path(u, d, s)[3] == "global"@,
        file_name_of(k).len() == k.len() + 4,
        file_name_of(k).take(k.len() as int) == k,
        file_name_of(k).skip(k.len() as int) == ".dat"@,
{
    reveal_strlit(".dat");
    assert(file_name_of(k).take(k.len() as int) =~= k);
    assert(file_name_of(k).skip(k.len() as int) =~= ".dat"@);
}

/// Each method does one thing: `GET` reads, `POST` and `PUT` store, `DELETE` deletes, and no other
/// is allowed.
pub proof fn law_methods_do_one_thing(m: Seq<char>)
    ensures
        action_of(m) == ObjectAction::Get <==> m == "GET"@,
        action_of(m) == ObjectAction::Put <==> m == "POST"@ || m == "PUT"@,
        action_of(m) == ObjectAction::Delete <==> m == "DELETE"@,
        action_of(m) == ObjectAction::NotAllowed <==> m != "GET"@ && m != "POST"@ && m != "PUT"@
            && m != "DELETE"@,
{
    reveal_strlit("GET");
    reveal_strlit("POST");
    reveal_strlit("PUT");
    reveal_strlit("DELETE");
    assert("GET"@[0] == 'G' && "POST"@[1] == 'O' && "PUT"@[1] == 'U' && "DELETE"@[0] == 'D');
    assert("POST"@[0] == 'P' && "PUT"@[0] == 'P');
}

/// Whether a word stands anywhere in a text.
pub open spec fn holds_word(s: Seq<char>, word: Seq<char>) -> bool {
    exists|a: Seq<char>, b: Seq<char>| s == #[trigger] (a + word + b)
}

/// What a path below an object asks for goes by the words that stand anywhere in it, `increment`
/// before `lock` before `versions`.
pub proof fn law_words_of_the_path_count(rest: Seq<char>)
    ensures
        sub_action_of(rest) == SubAction::Increment <==> holds_word(rest, "increment"@),
        sub_action_of(rest) == SubAction::Lock <==> holds_word(rest, "lock"@) && !holds_word(
            rest,
            "increment"@,
        ),
        sub_action_of(rest) == SubAction::Versions <==> holds_word(rest, "versions"@)
            && !holds_word(rest, "increment"@) && !holds_word(rest, "lock"@),
        sub_action_of(rest) == SubAction::Unknown <==> !holds_word(rest, "increment"@)
            && !holds_word(rest, "lock"@) && !holds_word(rest, "versions"@),
{
    law_parts_are_held(rest, "increment"@);
    law_parts_are_held(rest, "lock"@);
    law_parts_are_held(rest, "versions"@);
}

/// Quoting goes character by character: a quotation mark gets a backslash before it, anything else
/// stays.
pub proof fn law_quoting_goes_by_characters(a: Seq<char>, b: Seq<char>, c: char)
    ensures
        quoted(Seq::empty()) == Seq::<char>::empty(),
        quoted(a + b) == quoted(a) + quoted(b),
        quoted(seq![c]) == (if c == '"' {
            seq!['\\', '"']
        } else {
            seq![c]
        }),
    decreases b.len(),
{
    if b.len() > 0 {
        law_quoting_goes_by_characters(a, b.drop_last(), c);
        assert((a + b).drop_last() =~= a + b.drop_last());
        assert((a + b).last() == b.last());
        assert(quoted(a + b) =~= quoted(a) + quoted(b));
    } else {
        assert(a + b =~= a);
        assert(quoted(a) + quoted(b) =~= quoted(a));
    }
    let one = seq![c];
    assert(one.drop_last() =~= Seq::empty());
    assert(quoted(one.drop_last()) =~= Seq::empty());
    assert(quoted(one) =~= if c == '"' {
        seq!['\\', '"']
    } else {
        seq![c]
    });
}

/// The version of an object is a JSON object with its key, its quoted value, the version `0` and no
/// deletion.
pub proof fn law_version_holds_key_and_value(key: Seq<char>, value: Seq<char>)
    ensures
        ({
            let t = version_text(key, value);
            let a = "{\"key\":\""@;
            let b = "\",\"value\":\""@;
            let c = "\",\"version\":\"0\",\"isDeleted\":false}"@;
            let q = quoted(value);
            let i = (a.len() + key.len()) as int;
            let j = i + b.len() + q.len();
            &&& t.len() == j + c.len()
            &&& t.subrange(0, i) == a + key
            &&& t.subrange(i, j) == b + q
            &&& t.subrange(j, t.len() as int) == c
        }),
{
    let t = version_text(key, value);
    let a = "{\"key\":\""@;
    let b = "\",\"value\":\""@;
    let c = "\",\"version\":\"0\",\"isDeleted\":false}"@;
    let q = quoted(value);
    let i = (a.len() + key.len()) as int;
    let j = i + b.len() + q.len();
    assert(t.subrange(0, i) =~= a + key);
    assert(t.subrange(i, j) =~= b + q);
    assert(t.subrange(j, t.len() as int) =~= c);
}

/// Names come in the order of their first difference, the shorter first where there is none.
pub proof fn law_names_are_ordered_by_their_first_difference(a: Seq<char>, b: Seq<char>, k: int)
    requires
        0 <= k <= a.len(),
        k <= b.len(),
        a.take(k) == b.take(k),
        k < a.len() && k < b.len() ==> a[k] != b[k],
    ensures
        k == a.len() ==> at_most(a, b),
        k == b.len() && k < a.len() ==> !at_most(a, b),
        k < a.len() && k < b.len() ==> (at_most(a, b) <==> a[k] < b[k]),
    decreases k,
{
    if k > 0 {
        assert(a.take(k)[0] == a[0] && b.take(k)[0] == b[0]);
        let x = a.drop_first();
        let y = b.drop_first();
        assert(x.take(k - 1) =~= a.take(k).drop_first());
        assert(y.take(k - 1) =~= b.take(k).drop_first());
        law_names_are_ordered_by_their_first_difference(x, y, k - 1);
    }
}

/// A list of names is made of its parts with commas between them, each name in quotation marks.
pub proof fn law_lists_are_made_of_their_parts(a: Seq<Seq<char>>, b: Seq<Seq<char>>, x: Seq<char>)
    ensures
        name_list(Seq::empty()) == Seq::<char>::empty(),
        name_list(seq![x]) == "\""@ + x + "\""@,
        a.len() > 0 && b.len() > 0 ==> name_list(a + b) == name_list(a) + ","@ + name_list(b),
    decreases b.len(),
{
    reveal_strlit(",\"");
    reveal_strlit(",");
    reveal_strlit("\"");
    assert(",\""@ =~= ","@ + "\""@);
    if a.len() > 0 && b.len() > 0 {
        let all = a + b;
        assert(all.drop_last() =~= a + b.drop_last());
        assert(all.last() == b.last());
        if b.len() == 1 {
            assert(all.drop_last() =~= a);
            assert(name_list(all) =~= name_list(a) + ","@ + name_list(b));
        } else {
            law_lists_are_made_of_their_parts(a, b.drop_last(), x);
            assert(name_list(all) =~= name_list(a) + ","@ + name_list(b));
        }
    }
}

/// Of the names those stay that begin with the prefix, each as often as it was there.
pub proof fn law_prefix_keeps_whole_names(
    names: Seq<Seq<char>>,
    prefix: Seq<char>,
    more: Seq<Seq<char>>,
)
    ensures
        with_prefix(names + more, prefix) == with_prefix(names, prefix) + with_prefix(more, prefix),
        forall|x: Seq<char>| #[trigger]
            with_prefix(seq![x], prefix) == (if x.len() >= prefix.len() && x.subrange(
                0,
                prefix.len() as int,
            ) == prefix {
                seq![x]
            } else {
                Seq::empty()
            }),
    decreases more.len(),
{
    if more.len() > 0 {
        law_prefix_keeps_whole_names(names, prefix, more.drop_last());
        assert((names + more).drop_last() =~= names + more.drop_last());
        assert((names + more).last() == more.last());
        assert(with_prefix(names + more, prefix) =~= with_prefix(names, prefix) + with_prefix(
            more,
            prefix,
        ));
    } else {
        assert(names + more =~= names);
        assert(with_prefix(names, prefix) + with_prefix(more, prefix) =~= with_prefix(
            names,
            prefix,
        ));
    }
    assert forall|x: Seq<char>| #[trigger]
        with_prefix(seq![x], prefix) == (if x.len() >= prefix.len() && x.subrange(
            0,
            prefix.len() as int,
        ) == prefix {
            seq![x]
        } else {
            Seq::empty()
        }) by {
        assert(seq![x].drop_last() =~= Seq::empty());
        assert(with_prefix(seq![x].drop_last(), prefix) =~= Seq::empty());
        assert(Seq::<Seq<char>>::empty().push(x) =~= seq![x]);
    }
}

/// The list that is answered holds the names that begin with the prefix, in order, between its two
/// ends.
pub proof fn law_answer_is_the_list(names: Seq<Seq<char>>, prefix: Seq<char>)
    ensures
        exists|sorted: Seq<Seq<char>>|
            {
                &&& list_text(names, prefix) == "{\"data\":["@ + #[trigger] name_list(sorted)
                    + "]}"@
                &&& sorted.to_multiset() == with_prefix(names, prefix).to_multiset()
                &&& forall|i: int, j: int|
                    0 <= i < j < sorted.len() ==> at_most(
                        #[trigger] sorted[i],
                        #[trigger] sorted[j],
                    )
            },
{
    law_list_is_in_order(with_prefix(names, prefix));
    let sorted = in_order(with_prefix(names, prefix));
    assert(list_text(names, prefix) == "{\"data\":["@ + name_list(sorted) + "]}"@);
}

/// Keys are listed file by file: a name that ends in `.dat` gives what stands before that, any
/// other name gives none.
pub proof fn law_keys_go_file_by_file(a: Seq<Seq<char>>, b: Seq<Seq<char>>, key: Seq<char>)
    ensures
        keys_of(a + b) == keys_of(a) + keys_of(b),
        keys_of(seq![key + ".dat"@]) == seq![key],
        forall|name: Seq<char>|
            !(name.len() >= 4 && name.subrange(name.len() - 4, name.len() as int) == ".dat"@)
                ==> #[trigger] keys_of(seq![name]) == Seq::<Seq<char>>::empty(),
    decreases b.len(),
{
    reveal_strlit(".dat");
    if b.len() > 0 {
        law_keys_go_file_by_file(a, b.drop_last(), key);
        assert((a + b).drop_last() =~= a + b.drop_last());
        assert((a + b).last() == b.last());
        assert(keys_of(a + b) =~= keys_of(a) + keys_of(b));
    } else {
        assert(a + b =~= a);
        assert(keys_of(a) + keys_of(b) =~= keys_of(a));
    }
    let file = key + ".dat"@;
    let one = seq![file];
    assert(one.drop_last() =~= Seq::empty());
    assert(keys_of(one.drop_last()) =~= Seq::empty());
    assert(file.subrange(file.len() - 4, file.len() as int) =~= ".dat"@);
    assert(file.take(file.len() - 4) =~= key);
    assert(keys_of(one) =~= seq![key]);
    assert forall|name: Seq<char>|
        !(name.len() >= 4 && name.subrange(name.len() - 4, name.len() as int)
            == ".dat"@) implies #[trigger] keys_of(seq![name]) == Seq::<Seq<char>>::empty() by {
        assert(seq![name].drop_last() =~= Seq::empty());
        assert(keys_of(seq![name].drop_last()) =~= Seq::empty());
    }
}

/// What is stored is given back byte by byte, marked as JSON; what is missing or cannot be read is
/// answered with its status alone, and so is a failure to store.
pub proof fn law_answers_say_what_happened(data: Seq<u8>)
    ensures
        ({
            let r = get_answer(StoredView::Data(data));
            r.status == 200 && r.json && r.body == data
        }),
        ({
            let r = get_answer(StoredView::Missing);
            r.status == 404 && !r.json && r.body.len() == 0
        }),
        ({
            let r = get_answer(StoredView::Unreadable);
            r.status == 500 && !r.json && r.body.len() == 0
        }),
        ({
            let r = put_answer(true);
            r.status == 200 && r.json && r.body.len() == 0
        }),
        ({
            let r = put_answer(false);
            r.status == 500 && !r.json && r.body.len() == 0
        }),
        ({
            let r = bare_reply(200);
            r.status == 200 && !r.json && r.body.len() == 0
        }),
{
}

} // verus!
