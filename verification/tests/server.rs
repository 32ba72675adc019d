use studio_offline::assets::{
    asset_filename, asset_plan, asset_source, asset_url, batch_plan, batch_status, cookie_header,
    direct_plan, grab_step, local_batch, name_with_digest, on_fetch_status, place_version, place_versions,
    plan_with_name,
    query_part, requested_asset, stored_name, AssetPlan, BatchPlan, BatchRequestEntry, Fetched,
    Source,
};
use studio_offline::avatar::{
    list_parts, part_path, upload_content, upload_status, AvatarPart, UploadField,
};
use studio_offline::datastores::{
    datastore_dir, delete_reply, get_reply, increment, json_reply, list_json, lock_reply,
    object_action, object_file_name, object_keys, put_reply, refusal, sub_action, user_dir, version_json,
    versions_json, ObjectAction, Stored, SubAction,
};
use studio_offline::logging::{body_preview, truncate};
use studio_offline::startup::{modes, start, Start};

fn request(id: &str, asset: i64) -> BatchRequestEntry {
    BatchRequestEntry {
        asset_id: asset,
        request_id: id.to_string(),
        asset_type: "Mesh".to_string(),
    }
}

fn texts(items: &[&str]) -> Vec<String> {
    items.iter().map(|s| s.to_string()).collect()
}

#[test]
fn file_name_carries_the_digest_of_the_list() {
    assert_eq!(asset_filename("12", None), "12");
    assert_eq!(
        asset_filename("12", Some("abc")),
        "12-900150983cd24fb0d6963f7d28e17f72"
    );
    assert_eq!(
        asset_filename("12", Some("a%62%63")),
        "12-900150983cd24fb0d6963f7d28e17f72"
    );
    assert_eq!(
        asset_filename("12", Some("")),
        "12-d41d8cd98f00b204e9800998ecf8427e"
    );
    assert_eq!(asset_filename("12", Some("%FF")), "12");
    assert_eq!(name_with_digest("7", &[0x0A, 0xFF]), "7-0aff");
}

#[test]
fn incomplete_percent_signs_stay() {
    let plain = asset_filename("1", Some("100%"));
    assert_ne!(plain, asset_filename("1", Some("100")));
    assert_eq!(plain, asset_filename("1", Some("100%25")));
    assert_eq!(
        asset_filename("1", Some("%4z%%41")),
        asset_filename("1", Some("%254z%25A"))
    );
    assert_ne!(asset_filename("1", Some("a+b")), asset_filename("1", Some("a b")));
}

#[test]
fn address_takes_over_the_list_of_the_query() {
    assert_eq!(
        asset_url("5", None),
        "https://assetdelivery.roblox.com/v1/asset/?id=5&permissionContext=ignoreUniverse&xcachesplit=0"
    );
    assert_eq!(
        asset_url("5", Some("id=5&contentRepresentationPriorityList=abc&x=1")),
        "https://assetdelivery.roblox.com/v1/asset/?id=5&contentRepresentationPriorityList=abc&permissionContext=ignoreUniverse&xcachesplit=0"
    );
    assert_eq!(asset_url("5", Some("id=5")), asset_url("5", None));
    assert_eq!(query_part("a=1&b=2&b=3", "b="), Some("b=2".to_string()));
    assert_eq!(query_part("ab=1&&", "b="), None);
    assert_eq!(query_part("", "b="), None);
    assert_eq!(query_part("x&b=", "b="), Some("b=".to_string()));
}

#[test]
fn each_mode_has_its_plan() {
    match asset_plan("Reflection Mode", "9", None, Some("q")) {
        AssetPlan::Redirect(url) => assert_eq!(url, "http://127.0.0.1/ddl/9"),
        other => panic!("{:?}", other),
    }
    match asset_plan("Reflection Mode", "9", Some("abc"), None) {
        AssetPlan::Redirect(url) => assert_eq!(
            url,
            "http://127.0.0.1/ddl/9-900150983cd24fb0d6963f7d28e17f72"
        ),
        other => panic!("{:?}", other),
    }
    match asset_plan("Asset Grab Mode", "9", Some("abc"), None) {
        AssetPlan::Fetch(url, name) => {
            assert_eq!(url, asset_url("9", None));
            assert_eq!(name, "9-900150983cd24fb0d6963f7d28e17f72");
        }
        other => panic!("{:?}", other),
    }
    match plan_with_name("Regular Mode", "9", "n".to_string(), Some("q")) {
        AssetPlan::Local(name) => assert_eq!(name, "n"),
        other => panic!("{:?}", other),
    }
}

#[test]
fn stored_files_are_not_redirected_again() {
    for mode in ["Reflection Mode", "Regular Mode"] {
        match direct_plan(mode, "9-ab", Some("q")) {
            AssetPlan::Local(name) => assert_eq!(name, "9-ab"),
            other => panic!("{:?}", other),
        }
    }
    match direct_plan("Asset Grab Mode", "9", None) {
        AssetPlan::Fetch(url, name) => {
            assert_eq!(url, asset_url("9", None));
            assert_eq!(name, "9");
        }
        other => panic!("{:?}", other),
    }
}

#[test]
fn cookie_is_trimmed() {
    assert_eq!(
        cookie_header(Some(" \u{a0}abc d\r\n")),
        Ok(".ROBLOSECURITY=abc d".to_string())
    );
    assert_eq!(cookie_header(None), Err(500));
}

#[test]
fn statuses_of_the_delivery_service() {
    assert_eq!(on_fetch_status(200), Fetched::Store);
    assert_eq!(on_fetch_status(403), Fetched::Forbidden);
    assert_eq!(on_fetch_status(429), Fetched::Limited);
    assert_eq!(on_fetch_status(201), Fetched::Failed);
    assert_eq!(batch_status(200), 200);
    assert_eq!(batch_status(403), 403);
    assert_eq!(batch_status(429), 429);
    assert_eq!(batch_status(404), 500);
}

#[test]
fn asset_is_served_from_its_file_or_by_its_stem() {
    let stems = texts(&["1", "5", "5"]);
    assert_eq!(asset_source(true, &stems, "5"), Source::OwnFile);
    assert_eq!(asset_source(false, &stems, "5"), Source::Listed(1));
    assert_eq!(asset_source(false, &stems, "7"), Source::Nowhere);
}

#[test]
fn batch_depends_on_mode_and_cookie() {
    match batch_plan("Asset Grab Mode", Some(" c ")) {
        BatchPlan::SendOn(header) => assert_eq!(header, ".ROBLOSECURITY=c"),
        other => panic!("{:?}", other),
    }
    assert!(matches!(batch_plan("Asset Grab Mode", None), BatchPlan::Local));
    assert!(matches!(batch_plan("Regular Mode", Some("c")), BatchPlan::Local));
    assert!(matches!(batch_plan("Regular Mode", None), BatchPlan::Local));
    assert!(matches!(batch_plan("Reflection Mode", None), BatchPlan::Local));
}

#[test]
fn last_request_under_an_id_counts() {
    let requests = vec![request("a", 1), request("b", 2), request("a", 3)];
    assert_eq!(requested_asset(&requests, "a"), Some(3));
    assert_eq!(requested_asset(&requests, "b"), Some(2));
    assert_eq!(requested_asset(&requests, "c"), None);
}

#[test]
fn entries_are_grabbed_once() {
    let step = grab_step(Some(42), false, Some("https://x/y".to_string()), None).unwrap();
    assert_eq!(step.fetch.as_deref(), Some("https://x/y"));
    assert_eq!(step.file, "42");
    assert_eq!(step.location, "http://127.0.0.1/ddl/42");
    let step = grab_step(Some(42), false, None, Some("abc")).unwrap();
    assert_eq!(step.fetch, None);
    assert_eq!(step.file, "42");
    assert_eq!(
        step.location,
        "http://127.0.0.1/ddl/42-900150983cd24fb0d6963f7d28e17f72"
    );
    assert!(grab_step(Some(42), true, None, None).is_none());
    assert!(grab_step(None, false, None, None).is_none());
    assert_eq!(stored_name(-3), "-3");
}

#[test]
fn batch_is_answered_from_the_files() {
    let requests = vec![request("a", 10), request("b", 11), request("c", 12)];
    let out = local_batch(&requests, &[Some(4), None, Some(9)], &texts(&["11", "10"]));
    assert_eq!(out.len(), 3);
    assert_eq!(out[0].location.as_deref(), Some("http://127.0.0.1/ddl/10"));
    assert_eq!(out[0].request_id, "a");
    assert_eq!(out[0].asset_type_id, 4);
    assert!(out[0].is_recordable && !out[0].is_archived && out[0].error.is_none());
    assert_eq!(out[1].asset_type_id, 1);
    assert_eq!(out[2].location, None);
    assert_eq!(out[2].asset_type_id, 0);
    assert!(!out[2].is_recordable);
    let e = out[2].error.as_ref().unwrap();
    assert_eq!((e.code, e.custom_error_code), (404, 14));
    assert_eq!(e.message, "Request asset was not found");
}

#[test]
fn place_version_needs_a_positive_number() {
    let p = |k: &str, v: &str| vec![(k.to_string(), v.to_string())];
    for key in ["assetid", "assetId", "a", "b"] {
        assert_eq!(place_version(&p(key, "95206881")), Some("1".to_string()));
        assert_eq!(place_version(&p(key, "0")), None);
        assert_eq!(place_version(&p(key, "x")), None);
    }
    assert_eq!(place_version(&p("c", "5")), None);
    assert_eq!(place_version(&[]), None);
    assert_eq!(
        place_versions(),
        "{\"assetVersions\":[{\"versionNumber\":1}],\"nextPageToken\":null}"
    );
}

#[test]
fn objects_lie_in_directories() {
    assert_eq!(
        datastore_dir("1", "Coins", "server"),
        texts(&["static/datastores", "1", "Coins", "server"])
    );
    assert_eq!(
        datastore_dir("1", "Coins", ""),
        datastore_dir("1", "Coins", "global")
    );
    assert_eq!(user_dir("1"), texts(&["static/datastores", "1"]));
    assert_eq!(object_file_name("k"), "k.dat");
}

#[test]
fn methods_and_their_answers() {
    assert_eq!(object_action("GET"), ObjectAction::Get);
    assert_eq!(object_action("POST"), ObjectAction::Put);
    assert_eq!(object_action("PUT"), ObjectAction::Put);
    assert_eq!(object_action("DELETE"), ObjectAction::Delete);
    assert_eq!(object_action("get"), ObjectAction::NotAllowed);
    let r = get_reply(Stored::Data(vec![1, 2]));
    assert_eq!((r.status, r.json, r.body), (200, true, vec![1, 2]));
    assert_eq!(get_reply(Stored::Missing).status, 404);
    let r = get_reply(Stored::Unreadable);
    assert_eq!((r.status, r.json), (500, false));
    let r = put_reply(true);
    assert_eq!((r.status, r.json, r.body.len()), (200, true, 0));
    assert_eq!(put_reply(false).status, 500);
    let r = delete_reply();
    assert_eq!((r.status, r.json, r.body.len()), (200, false, 0));
    let r = lock_reply();
    assert_eq!((r.status, r.json, r.body), (200, true, b"{}".to_vec()));
    assert_eq!(json_reply("\u{e9}").body, vec![0xC3, 0xA9]);
    assert_eq!(refusal(405).status, 405);
}

#[test]
fn first_word_of_the_path_counts() {
    assert_eq!(sub_action("object/increment"), SubAction::Increment);
    assert_eq!(sub_action("lock/increment"), SubAction::Increment);
    assert_eq!(sub_action("object/unlock/versions"), SubAction::Lock);
    assert_eq!(sub_action("object/versions"), SubAction::Versions);
    assert_eq!(sub_action("object/version"), SubAction::Unknown);
}

#[test]
fn increments_count() {
    assert_eq!(increment(None, None), "1");
    assert_eq!(increment(Some("41"), None), "42");
    assert_eq!(increment(Some(" 40\n"), Some("2")), "42");
    assert_eq!(increment(Some("40"), Some("-50")), "-10");
    assert_eq!(increment(Some("abc"), Some("+7")), "7");
    assert_eq!(increment(Some("5"), Some("x")), "6");
    assert_eq!(increment(Some("5"), Some(" 2")), "6");
    assert_eq!(increment(Some(""), Some("3")), "3");
    assert_eq!(
        increment(Some("9223372036854775807"), Some("1")),
        "-9223372036854775808"
    );
    assert_eq!(increment(Some("9223372036854775808"), Some("1")), "1");
    assert_eq!(
        increment(Some("-9223372036854775808"), Some("0")),
        "-9223372036854775808"
    );
    let twice = increment(Some(&increment(Some("5"), Some("3"))), Some("4"));
    assert_eq!(twice, increment(Some("5"), Some("7")));
}

#[test]
fn versions_quote_the_value() {
    assert_eq!(
        versions_json("k", b"a\"b"),
        "{\"key\":\"k\",\"value\":\"a\\\"b\",\"version\":\"0\",\"isDeleted\":false}"
    );
    assert_eq!(
        version_json("k", ""),
        "{\"key\":\"k\",\"value\":\"\",\"version\":\"0\",\"isDeleted\":false}"
    );
    assert!(versions_json("k", b"\xFF").contains('\u{FFFD}'));
}

#[test]
fn stores_are_listed_in_order() {
    let names = texts(&["b", "ab", "B", "a", "\u{e9}", "aa"]);
    assert_eq!(
        list_json(&names, ""),
        "{\"data\":[\"B\",\"a\",\"aa\",\"ab\",\"b\",\"\u{e9}\"]}"
    );
    assert_eq!(list_json(&names, "a"), "{\"data\":[\"a\",\"aa\",\"ab\"]}");
    assert_eq!(list_json(&names, "zz"), "{\"data\":[]}");
    assert_eq!(list_json(&texts(&["x", "x"]), "x"), "{\"data\":[\"x\",\"x\"]}");
}

#[test]
fn keys_are_listed_in_order() {
    let files = texts(&["b.dat", "a.dat", "a.txt", ".dat", "dat", "c.dat.dat", "b.DAT"]);
    assert_eq!(object_keys(&files), texts(&["", "a", "b", "c.dat"]));
    assert_eq!(object_keys(&[]), texts(&[]));
    let name = object_file_name("Player_1");
    assert_eq!(object_keys(&[name]), texts(&["Player_1"]));
}

#[test]
fn long_text_is_cut() {
    assert_eq!(truncate("abc", 3), "abc");
    assert_eq!(truncate("abcd", 3), "abc... [truncated]");
    assert_eq!(truncate("\u{e9}\u{e9}", 1), "\u{e9}... [truncated]");
    assert_eq!(truncate("", 0), "");
    assert_eq!(body_preview(b"a\xFFb"), "a\u{FFFD}b");
    let long = vec![b'x'; 4001];
    assert_eq!(body_preview(&long).len(), 4000 + "... [truncated]".len());
}

#[test]
fn start_needs_its_files() {
    assert_eq!(start("No mode selected", true, true), Start::NoMode);
    assert_eq!(start("Asset Grab Mode", false, false), Start::NoCookie);
    assert_eq!(start("Regular Mode", false, false), Start::NoStatic);
    assert_eq!(start("Asset Grab Mode", true, true), Start::Run);
    assert_eq!(start("Reflection Mode", false, true), Start::Run);
    assert_eq!(
        modes(),
        vec!["Asset Grab Mode", "Regular Mode", "Reflection Mode"]
    );
}

#[test]
fn last_readable_file_field_is_uploaded() {
    let field = |name: &str, bytes: Option<&[u8]>| UploadField {
        name: name.to_string(),
        bytes: bytes.map(|b| b.to_vec()),
    };
    let fields = vec![
        field("file", Some(b"1")),
        field("file", Some(b"2")),
        field("file", None),
        field("other", Some(b"3")),
    ];
    assert_eq!(upload_content(&fields), Some(b"2".to_vec()));
    assert_eq!(upload_content(&fields[2..]), None);
    assert_eq!(upload_content(&[]), None);
    assert_eq!(upload_status(false, true), 400);
    assert_eq!(upload_status(true, false), 500);
    assert_eq!(upload_status(true, true), 200);
    assert_eq!(part_path("head"), "static/avatar/head");
}

#[test]
fn parts_come_with_their_sizes() {
    let part = |id: &str| AvatarPart { id: id.to_string(), name: id.to_uppercase() };
    let out = list_parts(vec![part("a"), part("b")], &[Some(3), None]);
    assert_eq!(out.len(), 2);
    assert_eq!((out[0].part.id.as_str(), out[0].size), ("a", Some(3)));
    assert_eq!((out[1].part.name.as_str(), out[1].size), ("B", None));
}
