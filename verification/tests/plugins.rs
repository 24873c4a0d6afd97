use zenoh::json::{sift_privates, JsonValue, PathError};
use zenoh::plugins::{
    ConfigError, GetError, LoadProblem, LoadRequests, PluginLoad, PluginsConfig, RemoveStep,
};

fn s(x: &str) -> JsonValue {
    JsonValue::String(x.to_string())
}

fn n(x: &str) -> JsonValue {
    JsonValue::Number(x.to_string())
}

fn arr(v: Vec<JsonValue>) -> JsonValue {
    JsonValue::Array(v)
}

fn obj(members: Vec<(&str, JsonValue)>) -> JsonValue {
    JsonValue::Object(members.into_iter().map(|(k, v)| (k.to_string(), v)).collect())
}

fn storage_config() -> PluginsConfig {
    PluginsConfig::from_values(obj(vec![
        ("rest", obj(vec![("port", n("8000"))])),
        ("storage", obj(vec![("a", n("1")), ("list", arr(vec![n("1"), n("2")]))])),
    ]))
}

#[test]
fn insert_then_get() {
    let mut c = storage_config();
    let edit = c.insert("storage/b/c", s("x")).unwrap();
    assert_eq!(edit.plugin, "storage");
    assert_eq!(edit.key, "b/c");
    assert_eq!(edit.old, obj(vec![("a", n("1")), ("list", arr(vec![n("1"), n("2")]))]));
    assert_eq!(
        edit.new,
        obj(vec![("a", n("1")), ("b", obj(vec![("c", s("x"))])), ("list", arr(vec![n("1"), n("2")]))])
    );
    assert_eq!(c.get("storage/b/c"), Err(GetError::NoMatchingKey));
    c.apply_edit(edit, None);
    assert_eq!(c.get("storage/b/c"), Ok(&s("x")));
    assert_eq!(c.get("storage/b"), Ok(&obj(vec![("c", s("x"))])));
    assert_eq!(c.get("rest/port"), Ok(&n("8000")));
}

#[test]
fn insert_new_plugin_adds_null_entry_first() {
    let mut c = storage_config();
    let edit = c.insert("mqtt/port", n("1883")).unwrap();
    assert_eq!(edit.old, JsonValue::Null);
    assert_eq!(edit.new, obj(vec![("port", n("1883"))]));
    assert_eq!(c.keys(), vec!["mqtt".to_string(), "rest".to_string(), "storage".to_string()]);
    assert_eq!(c.get("mqtt"), Ok(&JsonValue::Null));
    c.apply_edit(edit, None);
    assert_eq!(c.get("mqtt/port"), Ok(&n("1883")));
}

#[test]
fn insert_into_scalar_is_not_found() {
    let mut c = storage_config();
    assert_eq!(c.insert("storage/a/b", s("x")), Err(ConfigError::NotFound("a/b".to_string())));
    let mut c = storage_config();
    assert_eq!(c.insert("brand_new/x/0/y", s("v")).map(|e| e.new), Ok(obj(vec![("x", arr(vec![obj(vec![("y", s("v"))])]))])));
    assert_eq!(c.get("brand_new"), Ok(&JsonValue::Null));
}

#[test]
fn insert_into_arrays() {
    let mut c = storage_config();
    let e = c.insert("storage/list/+", n("3")).unwrap();
    assert_eq!(e.new, obj(vec![("a", n("1")), ("list", arr(vec![n("1"), n("2"), n("3")]))]));
    c.apply_edit(e, None);
    let e = c.insert("storage/list/0", n("9")).unwrap();
    c.apply_edit(e, None);
    assert_eq!(c.get("storage/list"), Ok(&arr(vec![n("9"), n("2"), n("3")])));
    assert_eq!(c.get("storage/list/2"), Ok(&n("3")));
    assert_eq!(c.insert("storage/list/7", n("0")), Err(ConfigError::NotFound("list/7".to_string())));
    assert_eq!(c.insert("storage/list/x", n("0")), Err(ConfigError::NotFound("list/x".to_string())));
    let e = c.insert("storage/list/+1", n("5")).unwrap();
    assert_eq!(e.new, obj(vec![("a", n("1")), ("list", arr(vec![n("9"), n("5"), n("3")]))]));
}

#[test]
fn insert_into_null_and_empty_array() {
    let mut c = PluginsConfig::from_values(obj(vec![("p", JsonValue::Null), ("q", arr(vec![]))]));
    let e = c.insert("p/0", s("a")).unwrap();
    assert_eq!(e.new, arr(vec![s("a")]));
    let e = c.insert("p/+/k", s("a")).unwrap();
    assert_eq!(e.new, arr(vec![obj(vec![("k", s("a"))])]));
    let e = c.insert("q/0", s("a")).unwrap();
    assert_eq!(e.new, arr(vec![s("a")]));
    let e = c.insert("p//k//", s("a")).unwrap();
    assert_eq!(e.new, obj(vec![("k", s("a"))]));
    let e = c.insert("p", s("whole")).unwrap();
    assert_eq!(e.key, "");
    assert_eq!(e.new, s("whole"));
}

#[test]
fn apply_edit_with_replacement() {
    let mut c = storage_config();
    let e = c.insert("storage/a", n("2")).unwrap();
    c.apply_edit(e, Some(obj(vec![("validated", JsonValue::Bool(true))])));
    assert_eq!(c.get("storage"), Ok(&obj(vec![("validated", JsonValue::Bool(true))])));
}

#[test]
fn get_missing() {
    let c = storage_config();
    assert_eq!(c.get("nope"), Err(GetError::NoMatchingKey));
    assert_eq!(c.get("storage/zz"), Err(GetError::NoMatchingKey));
    assert_eq!(c.get("storage/a/b"), Err(GetError::NoMatchingKey));
    assert_eq!(c.get("storage/list/5"), Err(GetError::NoMatchingKey));
    assert_eq!(c.get("storage/list/one"), Err(GetError::NoMatchingKey));
    assert_eq!(c.get("storage/list/1"), Ok(&n("2")));
}

#[test]
fn remove_whole_plugin() {
    let mut c = storage_config();
    assert_eq!(c.remove("storage"), Ok(RemoveStep::PluginRemoved("storage".to_string())));
    assert_eq!(c.get("storage"), Err(GetError::NoMatchingKey));
    assert_eq!(c.keys(), vec!["rest".to_string()]);
    assert_eq!(c.remove("absent"), Ok(RemoveStep::PluginRemoved("absent".to_string())));
}

#[test]
fn remove_inside_plugin() {
    let mut c = storage_config();
    let step = c.remove("storage/a").unwrap();
    let edit = match step {
        RemoveStep::Edit(e) => e,
        other => panic!("unexpected {:?}", other),
    };
    assert_eq!(edit.key, "a");
    assert_eq!(edit.new, obj(vec![("list", arr(vec![n("1"), n("2")]))]));
    assert_eq!(c.get("storage/a"), Ok(&n("1")));
    c.apply_edit(edit, None);
    assert_eq!(c.get("storage/a"), Err(GetError::NoMatchingKey));
    let step = c.remove("storage/list/0").unwrap();
    match step {
        RemoveStep::Edit(e) => assert_eq!(e.new, obj(vec![("list", arr(vec![n("2")]))])),
        other => panic!("unexpected {:?}", other),
    }
}

#[test]
fn remove_errors() {
    let mut c = storage_config();
    assert_eq!(c.remove("nope/a"), Err(ConfigError::NoPlugin("nope".to_string())));
    assert_eq!(
        c.remove("storage/zz"),
        Err(ConfigError::Path(PathError::NoProperty("zz".to_string())))
    );
    assert_eq!(
        c.remove("storage/zz/y"),
        Err(ConfigError::Path(PathError::NoProperty("zz".to_string())))
    );
    assert_eq!(c.remove("storage/list/7"), Err(ConfigError::Path(PathError::OutOfBounds(7))));
    assert_eq!(
        c.remove("storage/list/x"),
        Err(ConfigError::Path(PathError::NotAnIndex("x".to_string())))
    );
    assert_eq!(
        c.remove("storage/a/q"),
        Err(ConfigError::Path(PathError::NotIndexable("q".to_string())))
    );
    assert_eq!(
        c.remove("storage/list/0/q"),
        Err(ConfigError::Path(PathError::NotIndexable("q".to_string())))
    );
    assert_eq!(c, storage_config());
}

#[test]
fn sifting_privates() {
    let mut v = obj(vec![
        ("a", arr(vec![obj(vec![("b", n("2")), ("private", n("1"))])])),
        ("private", obj(vec![("secret", s("x"))])),
    ]);
    sift_privates(&mut v);
    assert_eq!(v, obj(vec![("a", arr(vec![obj(vec![("b", n("2"))])]))]));
    let before = v.clone();
    sift_privates(&mut v);
    assert_eq!(v, before);
    let mut c = PluginsConfig::from_values(obj(vec![("p", obj(vec![("private", s("k")), ("x", s("y"))]))]));
    c.sift_privates();
    assert_eq!(c.values(), &obj(vec![("p", obj(vec![("x", s("y"))]))]));
}

#[test]
fn load_requests_in_name_order() {
    let c = PluginsConfig::from_values(obj(vec![
        ("a", obj(vec![("__path__", s("/x.so")), ("__required__", JsonValue::Bool(true))])),
        ("b", obj(vec![])),
        ("c", obj(vec![("__path__", arr(vec![s("/1"), s("/2")]))])),
    ]));
    assert_eq!(
        c.load_requests(),
        LoadRequests { problem: None, requests: vec![
            PluginLoad { name: "a".to_string(), paths: Some(vec!["/x.so".to_string()]), required: true },
            PluginLoad { name: "b".to_string(), paths: None, required: false },
            PluginLoad {
                name: "c".to_string(),
                paths: Some(vec!["/1".to_string(), "/2".to_string()]),
                required: false,
            },
        ] }
    );
}

#[test]
fn load_requests_problems() {
    let c = PluginsConfig::from_values(obj(vec![("a", n("5"))]));
    assert_eq!(
        c.load_requests(),
        LoadRequests { requests: vec![], problem: Some(LoadProblem::NotAnObject("a".to_string())) }
    );
    let c = PluginsConfig::from_values(obj(vec![("a", obj(vec![("__required__", s("yes"))]))]));
    assert_eq!(
        c.load_requests(),
        LoadRequests { requests: vec![], problem: Some(LoadProblem::InvalidRequired("a".to_string())) }
    );
    let c = PluginsConfig::from_values(obj(vec![
        ("a", obj(vec![])),
        ("b", obj(vec![("__path__", arr(vec![s("/ok"), n("1")]))])),
        ("c", n("1")),
    ]));
    assert_eq!(
        c.load_requests(),
        LoadRequests {
            requests: vec![PluginLoad { name: "a".to_string(), paths: None, required: false }],
            problem: Some(LoadProblem::InvalidPath("b".to_string())),
        }
    );
    let c = PluginsConfig::from_values(obj(vec![("a", obj(vec![("__path__", JsonValue::Bool(false))]))]));
    assert_eq!(
        c.load_requests(),
        LoadRequests { requests: vec![], problem: Some(LoadProblem::InvalidPath("a".to_string())) }
    );
}

#[test]
fn new_config_is_empty_object() {
    let c = PluginsConfig::new();
    assert_eq!(c.values(), &JsonValue::Object(vec![]));
    assert_eq!(c.keys(), Vec::<String>::new());
}

#[test]
fn remove_inside_plugin_of_non_object_configuration() {
    let mut c = PluginsConfig::from_values(n("5"));
    assert_eq!(c.remove("storage/a"), Err(ConfigError::NoPlugin("storage".to_string())));
    assert_eq!(c, PluginsConfig::from_values(n("5")));
}
