use golfsetridak::collections_api::{
    content_disposition, embed_key, embed_prefix_bounds, embed_text, expand_fields, field_kind,
    id_from_key, is_multipart, percent_decode, route, FieldKind, FieldSpec, HttpMethod,
    QueryParams, Route,
};
use golfsetridak::meta::{Meta, MetaValue};

#[test]
fn query_params_parse() {
    let p = QueryParams::parse(Some("search=hello%20world&limit=5&expand=author,editor"));
    assert_eq!(p.search.as_deref(), Some("hello world"));
    assert_eq!(p.limit, Some(5));
    assert_eq!(p.expand.as_deref(), Some("author,editor"));
    assert_eq!(expand_fields("author, editor ,,"), vec!["author", "editor"]);
}

#[test]
fn query_params_absent_or_bad() {
    let p = QueryParams::parse(None);
    assert!(p.search.is_none() && p.limit.is_none() && p.expand.is_none());
    let p = QueryParams::parse(Some("limit=abc&search=a+b"));
    assert_eq!(p.limit, None);
    assert_eq!(p.search.as_deref(), Some("a b"));
}

#[test]
fn percent_decoding_is_lossy_on_bad_utf8() {
    assert_eq!(percent_decode("a%2Fb+c"), "a/b c");
    assert_eq!(percent_decode("%zz"), "%zz");
    assert_eq!(percent_decode("%FF"), "\u{fffd}");
    assert_eq!(percent_decode("%C3%BE"), "þ");
}

#[test]
fn embed_prefix_bounds_isolate_a_collection() {
    let (start, end) = embed_prefix_bounds("posts");
    let key = embed_key("posts", 7);
    assert!(key.as_slice() >= start.as_slice() && key.as_slice() < end.as_slice());
    let other = embed_key("postsx", 7);
    assert!(!(other.as_slice() >= start.as_slice() && other.as_slice() < end.as_slice()));
    assert_eq!(id_from_key("posts", &key), Some(7));
}

#[test]
fn embed_keys_are_name_nul_big_endian_id() {
    assert_eq!(embed_key("a", 258), vec![b'a', b':', 0, 0, 0, 0, 0, 0, 1, 2]);
    assert_eq!(id_from_key("b", &embed_key("a", 1)), None);
}

#[test]
fn unknown_field_type_is_an_error() {
    let err = field_kind("posts", "x", "date", None).unwrap_err();
    assert!(err.contains("unknown type"), "got: {err}");
    assert!(err.contains("date"), "got: {err}");
}

#[test]
fn relation_without_collection_is_an_error() {
    let err = field_kind("posts", "author", "relation", None).unwrap_err();
    assert!(err.contains("collection"), "got: {err}");
    assert!(err.contains("relation"), "got: {err}");
}

#[test]
fn relation_toml_maps_to_relation_kind() {
    match field_kind("posts", "author", "relation", Some("users")).unwrap() {
        FieldKind::Relation(c) => assert_eq!(c, "users"),
        other => panic!("expected a relation, got {other:?}"),
    }
}

#[test]
fn file_toml_maps_to_file_kind() {
    assert!(matches!(field_kind("docs", "attachment", "file", None), Ok(FieldKind::File)));
    assert!(matches!(field_kind("posts", "body", "TEXT", None), Ok(FieldKind::Text)));
    assert!(matches!(field_kind("posts", "views", "int", None), Ok(FieldKind::Int)));
}

#[test]
fn multipart_and_disposition() {
    assert!(is_multipart("Multipart/Form-Data; boundary=x"));
    assert!(!is_multipart("application/json"));
    assert_eq!(content_disposition("data.bin"), "inline; filename=\"data.bin\"");
    assert_eq!(content_disposition("a\"b"), "inline; filename=\"a\\\"b\"");
    assert_eq!(content_disposition(""), "inline");
}

#[test]
fn embed_text_joins_embedded_text_fields() {
    let fields = vec![
        FieldSpec { name: "title".into(), kind: FieldKind::Text, required: true, embed: false },
        FieldSpec { name: "body".into(), kind: FieldKind::Text, required: false, embed: true },
        FieldSpec { name: "lead".into(), kind: FieldKind::Text, required: false, embed: true },
        FieldSpec { name: "views".into(), kind: FieldKind::Int, required: false, embed: true },
    ];
    let rec = Meta::from_pairs(vec![
        ("title".into(), MetaValue::Str("T".into())),
        ("body".into(), MetaValue::Str("a wonderful world".into())),
        ("lead".into(), MetaValue::Str("intro".into())),
        ("views".into(), MetaValue::Int(3)),
    ]);
    assert_eq!(embed_text(&fields, &rec), "a wonderful world\nintro");
}

fn segs(s: &[&str]) -> Vec<String> {
    s.iter().map(|x| x.to_string()).collect()
}

#[test]
fn manifest_lists_collections() {
    let names = segs(&["posts"]);
    assert!(matches!(route(HttpMethod::Get, &vec![], &names), Some(Route::Manifest)));
    assert!(route(HttpMethod::Post, &vec![], &names).is_none());
}

#[test]
fn unknown_collection_is_404() {
    let names = segs(&["posts"]);
    match route(HttpMethod::Get, &segs(&["ghosts", "records"]), &names) {
        Some(Route::UnknownCollection { name }) => assert_eq!(name, "ghosts"),
        _ => panic!("expected unknown collection"),
    }
}

#[test]
fn bad_id_is_400() {
    let names = segs(&["posts"]);
    assert!(matches!(
        route(HttpMethod::Get, &segs(&["posts", "records", "not-a-number"]), &names),
        Some(Route::InvalidId)
    ));
}

#[test]
fn non_collections_shape_falls_through() {
    let names = segs(&["posts"]);
    assert!(route(HttpMethod::Get, &segs(&["posts", "extra"]), &names).is_none());
}

#[test]
fn record_routes_by_method() {
    let names = segs(&["posts"]);
    assert!(matches!(route(HttpMethod::Get, &segs(&["posts", "records"]), &names), Some(Route::List { .. })));
    assert!(matches!(route(HttpMethod::Post, &segs(&["posts", "records"]), &names), Some(Route::Create { .. })));
    match route(HttpMethod::Patch, &segs(&["posts", "records", "7"]), &names) {
        Some(Route::Update { name, id }) => {
            assert_eq!(name, "posts");
            assert_eq!(id, 7);
        }
        _ => panic!("expected update"),
    }
    assert!(matches!(route(HttpMethod::Delete, &segs(&["posts", "records", "7"]), &names), Some(Route::Delete { .. })));
    assert!(matches!(route(HttpMethod::Get, &segs(&["posts", "records", "7"]), &names), Some(Route::Get { .. })));
}
