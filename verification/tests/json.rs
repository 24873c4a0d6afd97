use zenoh::json::{
    clone_json, ensure_member, find_member, lookup, member_position, merge_value, remove_member,
    remove_path, set_member, sift_owned, JsonValue, PathError,
};

fn s(x: &str) -> JsonValue {
    JsonValue::String(x.to_string())
}

fn n(x: &str) -> JsonValue {
    JsonValue::Number(x.to_string())
}

fn arr(v: Vec<JsonValue>) -> JsonValue {
    JsonValue::Array(v)
}

fn obj(members: Vec<(&str, JsonValue)>) -> JsonValue {
    JsonValue::Object(members.into_iter().map(|(k, v)| (k.to_string(), v)).collect())
}

fn members(v: JsonValue) -> Vec<(String, JsonValue)> {
    match v {
        JsonValue::Object(o) => o,
        other => panic!("not an object: {:?}", other),
    }
}

#[test]
fn member_search_and_placement() {
    let o = members(obj(vec![("a", n("1")), ("c", n("3"))]));
    assert_eq!(find_member(&o, "c"), Some(1));
    assert_eq!(find_member(&o, "b"), None);
    assert_eq!(member_position(&o, "b"), 1);
    assert_eq!(member_position(&o, "0"), 0);
    assert_eq!(member_position(&o, "d"), 2);
}

#[test]
fn member_edits_keep_names_in_order() {
    let mut o = members(obj(vec![("a", n("1")), ("c", n("3"))]));
    set_member(&mut o, "b".to_string(), n("2"));
    assert_eq!(o, members(obj(vec![("a", n("1")), ("b", n("2")), ("c", n("3"))])));
    set_member(&mut o, "a".to_string(), s("x"));
    assert_eq!(o, members(obj(vec![("a", s("x")), ("b", n("2")), ("c", n("3"))])));
    assert_eq!(ensure_member(&mut o, "bb"), 2);
    assert_eq!(o[2], ("bb".to_string(), JsonValue::Null));
    assert_eq!(ensure_member(&mut o, "c"), 3);
    assert_eq!(o.len(), 4);
    assert!(remove_member(&mut o, "bb"));
    assert!(!remove_member(&mut o, "bb"));
    assert_eq!(o, members(obj(vec![("a", s("x")), ("b", n("2")), ("c", n("3"))])));
}

#[test]
fn merge_creates_missing_parts() {
    assert_eq!(merge_value(JsonValue::Null, "a/b", n("1")), Some(obj(vec![("a", obj(vec![("b", n("1"))]))])));
    assert_eq!(merge_value(JsonValue::Null, "0", n("1")), Some(arr(vec![n("1")])));
    assert_eq!(merge_value(JsonValue::Null, "+/x", n("1")), Some(arr(vec![obj(vec![("x", n("1"))])])));
    assert_eq!(merge_value(arr(vec![n("1")]), "+", n("2")), Some(arr(vec![n("1"), n("2")])));
    assert_eq!(merge_value(arr(vec![]), "0", n("2")), Some(arr(vec![n("2")])));
    assert_eq!(merge_value(arr(vec![n("1")]), "0", n("2")), Some(arr(vec![n("2")])));
    assert_eq!(merge_value(n("5"), "", s("x")), Some(s("x")));
    assert_eq!(merge_value(obj(vec![]), "//a//", n("1")), Some(obj(vec![("a", n("1"))])));
}

#[test]
fn merge_refusals() {
    assert_eq!(merge_value(n("5"), "a", n("1")), None);
    assert_eq!(merge_value(s("t"), "a", n("1")), None);
    assert_eq!(merge_value(JsonValue::Bool(true), "a", n("1")), None);
    assert_eq!(merge_value(arr(vec![n("1")]), "3", n("2")), None);
    assert_eq!(merge_value(arr(vec![n("1")]), "x", n("2")), None);
}

#[test]
fn lookup_follows_paths() {
    let v = obj(vec![("a", arr(vec![n("1"), obj(vec![("b", s("x"))])]))]);
    assert_eq!(lookup(&v, "a/1/b"), Some(&s("x")));
    assert_eq!(lookup(&v, "a/0"), Some(&n("1")));
    assert_eq!(lookup(&v, ""), Some(&v));
    assert_eq!(lookup(&v, "a/2"), None);
    assert_eq!(lookup(&v, "a/x"), None);
    assert_eq!(lookup(&v, "b"), None);
    assert_eq!(lookup(&v, "a/0/c"), None);
}

#[test]
fn removal_by_path() {
    let v = obj(vec![("a", arr(vec![n("1"), obj(vec![("b", s("x")), ("c", s("y"))])]))]);
    assert_eq!(
        remove_path(clone_json(&v), "a/1/b"),
        Ok(obj(vec![("a", arr(vec![n("1"), obj(vec![("c", s("y"))])]))]))
    );
    assert_eq!(
        remove_path(clone_json(&v), "a/0"),
        Ok(obj(vec![("a", arr(vec![obj(vec![("b", s("x")), ("c", s("y"))])]))]))
    );
    assert_eq!(remove_path(clone_json(&v), "a"), Ok(obj(vec![])));
    assert_eq!(
        remove_path(clone_json(&v), "z"),
        Err(PathError::NoProperty("z".to_string()))
    );
    assert_eq!(remove_path(clone_json(&v), "a/5"), Err(PathError::OutOfBounds(5)));
    assert_eq!(
        remove_path(clone_json(&v), "a/q"),
        Err(PathError::NotAnIndex("q".to_string()))
    );
    assert_eq!(
        remove_path(clone_json(&v), "a/0/k"),
        Err(PathError::NotIndexable("k".to_string()))
    );
}

#[test]
fn removed_member_is_no_longer_read() {
    let v = obj(vec![("a", obj(vec![("b", s("x")), ("c", s("y"))]))]);
    let after = remove_path(v, "a/b").unwrap();
    assert_eq!(lookup(&after, "a/b"), None);
    assert_eq!(lookup(&after, "a/c"), Some(&s("y")));
}

#[test]
fn sifting_takes_out_private_members_at_any_depth() {
    let v = obj(vec![
        ("a", arr(vec![obj(vec![("private", n("1")), ("q", n("2"))])])),
        ("private", obj(vec![("k", n("3"))])),
    ]);
    let sifted = sift_owned(v);
    assert_eq!(sifted, obj(vec![("a", arr(vec![obj(vec![("q", n("2"))])]))]));
    assert_eq!(sift_owned(clone_json(&sifted)), sifted);
}
