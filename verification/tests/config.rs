use zenoh::config::{
    client, config_format, empty, peer, user_conf_validator, Config, ConfigFileError, ConfigFormat,
    LibLoaderSetup, PluginSearchDirs, WhatAmI, WhatAmIMatcher,
};
use zenoh::json::JsonValue;
use zenoh::plugins::{ConfigError, PluginsConfig, RemoveStep};

fn obj(members: Vec<(&str, JsonValue)>) -> JsonValue {
    JsonValue::Object(members.into_iter().map(|(k, v)| (k.to_string(), v)).collect())
}

fn with_plugins(values: JsonValue) -> Config {
    let mut c = empty();
    c.plugins = PluginsConfig::from_values(values);
    c
}

#[test]
fn default_configurations() {
    let e = empty();
    assert_eq!(e.mode, None);
    assert!(e.connect_endpoints.is_empty());
    assert_eq!(e.plugins.values(), &JsonValue::Object(vec![]));
    assert_eq!(peer().mode, Some(WhatAmI::Peer));
    assert_eq!(zenoh::config::default().mode, Some(WhatAmI::Peer));
    let c = client(vec!["tcp/127.0.0.1:7447".to_string()]);
    assert_eq!(c.mode, Some(WhatAmI::Client));
    assert_eq!(c.connect_endpoints, vec!["tcp/127.0.0.1:7447".to_string()]);
    assert_eq!(Config::default(), empty());
}

#[test]
fn remove_only_under_plugins() {
    let mut c = with_plugins(obj(vec![("p", obj(vec![("k", JsonValue::Bool(true))]))]));
    assert_eq!(c.remove("transport/link/tx/lease"), Err(ConfigError::NotPluginKey));
    assert_eq!(c.remove("/transport"), Err(ConfigError::NotPluginKey));
    let step = c.remove("/plugins/p/k").unwrap();
    match step {
        RemoveStep::Edit(e) => {
            assert_eq!(e.plugin, "p");
            assert_eq!(e.new, obj(vec![]));
        },
        other => panic!("unexpected {:?}", other),
    }
    assert_eq!(c.remove("plugins/p"), Ok(RemoveStep::PluginRemoved("p".to_string())));
    assert_eq!(c.plugin("p"), None);
}

#[test]
fn plugin_lookup() {
    let c = with_plugins(obj(vec![("p", obj(vec![("k", JsonValue::Bool(true))]))]));
    assert_eq!(c.plugin("p"), Some(&obj(vec![("k", JsonValue::Bool(true))])));
    assert_eq!(c.plugin("q"), None);
}

#[test]
fn config_sift_privates_keeps_the_rest() {
    let mut c = with_plugins(obj(vec![("p", obj(vec![("private", JsonValue::Null), ("x", JsonValue::Null)]))]));
    c.id = Some("0a1b".to_string());
    c.plugins_search_dirs = vec!["/opt".to_string()];
    let s = c.sift_privates();
    assert_eq!(s.plugins.values(), &obj(vec![("p", obj(vec![("x", JsonValue::Null)]))]));
    assert_eq!(s.id, c.id);
    assert_eq!(s.plugins_search_dirs, c.plugins_search_dirs);
    assert_eq!(c.plugin("p"), Some(&obj(vec![("private", JsonValue::Null), ("x", JsonValue::Null)])));
}

#[test]
fn libloader_choice() {
    let mut c = empty();
    assert_eq!(c.libloader(), LibLoaderSetup::Default);
    c.plugins_search_dirs = vec!["/a".to_string(), "/b".to_string()];
    assert_eq!(c.libloader(), LibLoaderSetup::SearchDirs(vec!["/a".to_string(), "/b".to_string()]));
}

#[test]
fn password_needs_a_user() {
    assert!(user_conf_validator(&None, &None));
    assert!(user_conf_validator(&Some("u".to_string()), &Some("p".to_string())));
    assert!(user_conf_validator(&Some("u".to_string()), &None));
    assert!(!user_conf_validator(&None, &Some("p".to_string())));
}

#[test]
fn default_search_dirs() {
    let d = PluginSearchDirs::default();
    assert_eq!(
        d.0,
        vec![".", "~/.zenoh/lib", "/opt/homebrew/lib", "/usr/local/lib", "/usr/lib"]
            .into_iter()
            .map(|s| s.to_string())
            .collect::<Vec<_>>()
    );
}

#[test]
fn matcher_matches() {
    let m = WhatAmIMatcher { router: true, peer: false, client: true };
    assert!(m.matches(WhatAmI::Router));
    assert!(!m.matches(WhatAmI::Peer));
    assert!(m.matches(WhatAmI::Client));
}

#[test]
fn role_names() {
    assert_eq!(WhatAmI::parse("router"), Some(WhatAmI::Router));
    assert_eq!(WhatAmI::parse("peer"), Some(WhatAmI::Peer));
    assert_eq!(WhatAmI::parse("client"), Some(WhatAmI::Client));
    assert_eq!(WhatAmI::parse("Router"), None);
    assert_eq!(WhatAmI::parse(""), None);
}

#[test]
fn matcher_names() {
    assert_eq!(
        WhatAmIMatcher::parse("router|client"),
        Some(WhatAmIMatcher { router: true, peer: false, client: true })
    );
    assert_eq!(
        WhatAmIMatcher::parse("peer"),
        Some(WhatAmIMatcher { router: false, peer: true, client: false })
    );
    assert_eq!(
        WhatAmIMatcher::parse("peer|peer"),
        Some(WhatAmIMatcher { router: false, peer: true, client: false })
    );
    assert_eq!(WhatAmIMatcher::parse("router|nobody"), None);
    assert_eq!(WhatAmIMatcher::parse(""), None);
    assert_eq!(WhatAmIMatcher::parse("router|"), None);
}

#[test]
fn config_file_formats() {
    assert_eq!(config_format(Some("json")), Ok(ConfigFormat::Json5));
    assert_eq!(config_format(Some("json5")), Ok(ConfigFormat::Json5));
    assert_eq!(config_format(Some("yaml")), Ok(ConfigFormat::Yaml));
    assert_eq!(
        config_format(Some("toml")),
        Err(ConfigFileError::UnsupportedExtension("toml".to_string()))
    );
    assert_eq!(config_format(None), Err(ConfigFileError::NoExtension));
}

#[test]
fn role_name_round_trip() {
    for w in [WhatAmI::Router, WhatAmI::Peer, WhatAmI::Client] {
        assert_eq!(WhatAmI::parse(w.as_str()), Some(w));
    }
    assert_eq!(WhatAmI::Router.as_str(), "router");
    assert_eq!(WhatAmI::Client.as_str(), "client");
}

#[test]
fn matcher_text_round_trip() {
    let m = WhatAmIMatcher { router: true, peer: false, client: true };
    assert_eq!(m.to_string(), "router|client");
    assert_eq!(WhatAmIMatcher::parse(&m.to_string()), Some(m));
    let all = WhatAmIMatcher { router: true, peer: true, client: true };
    assert_eq!(all.to_string(), "router|peer|client");
    assert_eq!(WhatAmIMatcher::parse(&all.to_string()), Some(all));
    let none = WhatAmIMatcher { router: false, peer: false, client: false };
    assert_eq!(none.to_string(), "");
    assert_eq!(WhatAmIMatcher::parse(&none.to_string()), None);
}
