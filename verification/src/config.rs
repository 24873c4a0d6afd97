//! The settings of a session that the library acts on, the default
//! configurations, and the configuration edits that go to plugins.
use vstd::prelude::*;
use crate::json::{get_key, get_member, sifted, sift_owned, clone_json, Json, JsonValue};
use crate::plugins::{removal, ConfigError, PluginsConfig, RemoveStep};
use crate::text::{
    char_index, is_prefix, lemma_char_index, lemma_split_once_shorter, split_once, split_once_spec,
    split_all, split_all_strings, starts_with, str_eq, strip_prefix, join, lemma_join_push,
    lemma_split_join,
};
use vstd::string::{StrSliceExecFns, StringExecFns};

verus! {

/// The role of a node.
#[derive(Clone, Copy, Debug, PartialEq, Eq, Structural)]
pub enum WhatAmI {
    Router,
    Peer,
    Client,
}

/// A set of roles.
#[derive(Clone, Copy, Debug, PartialEq, Eq, Structural)]
pub struct WhatAmIMatcher {
    pub router: bool,
    pub peer: bool,
    pub client: bool,
}

impl WhatAmIMatcher {
    /// Whether `w` is one of the roles of this set.
    pub fn matches(&self, w: WhatAmI) -> (r: bool)
        ensures
            r == match w {
                WhatAmI::Router => self.router,
                WhatAmI::Peer => self.peer,
                WhatAmI::Client => self.client,
            },
    {
        match w {
            WhatAmI::Router => self.router,
            WhatAmI::Peer => self.peer,
            WhatAmI::Client => self.client,
        }
    }
}

/// The parts of a session configuration that the library acts on.
#[derive(Debug, PartialEq, Eq)]
pub struct Config {
    /// The identifier of the instance, if set.
    pub id: Option<String>,
    /// The role of the node, if set.
    pub mode: Option<WhatAmI>,
    /// The endpoints to connect to.
    pub connect_endpoints: Vec<String>,
    /// Whether data messages should be timestamped, if set.
    pub add_timestamp: Option<bool>,
    /// Whether peers connect to each other automatically, if set.
    pub peers_autoconnect: Option<bool>,
    /// The roles to connect to automatically upon gossip discovery, if set.
    pub gossip_autoconnect: Option<WhatAmIMatcher>,
    /// The default timeout of queries in milliseconds, if set.
    pub queries_default_timeout: Option<u64>,
    /// The directories where plugins are searched for.
    pub plugins_search_dirs: Vec<String>,
    /// The configurations of the plugins.
    pub plugins: PluginsConfig,
}

/// The configuration with nothing set.
pub open spec fn is_unset(c: Config) -> bool {
    &&& c.mode is None
    &&& c.connect_endpoints@.len() == 0
    &&& unset_besides_role(c)
}

/// Nothing is set but, perhaps, the role and the endpoints to connect to.
pub open spec fn unset_besides_role(c: Config) -> bool {
    &&& c.id is None
    &&& c.add_timestamp is None
    &&& c.peers_autoconnect is None
    &&& c.gossip_autoconnect is None
    &&& c.queries_default_timeout is None
    &&& c.plugins_search_dirs@.len() == 0
    &&& c.plugins@ == Json::Object(Seq::empty())
}

impl Default for Config {
    fn default() -> (r: Config)
        ensures
            is_unset(r),
    {
        Config {
            id: None,
            mode: None,
            connect_endpoints: Vec::new(),
            add_timestamp: None,
            peers_autoconnect: None,
            gossip_autoconnect: None,
            queries_default_timeout: None,
            plugins_search_dirs: Vec::new(),
            plugins: PluginsConfig::new(),
        }
    }
}

/// An empty session configuration.
pub fn empty() -> (r: Config)
    ensures
        is_unset(r),
{
    Config::default()
}

/// The default session configuration: that of a peer.
pub fn default() -> (r: Config)
    ensures
        r.mode == Some(WhatAmI::Peer),
        r.connect_endpoints@.len() == 0,
        unset_besides_role(r),
{
    peer()
}

/// The configuration of a peer.
pub fn peer() -> (r: Config)
    ensures
        r.mode == Some(WhatAmI::Peer),
        r.connect_endpoints@.len() == 0,
        unset_besides_role(r),
{
    let mut config = Config::default();
    config.mode = Some(WhatAmI::Peer);
    config
}

/// The configuration of a client that connects to `peers`.
pub fn client(peers: Vec<String>) -> (r: Config)
    ensures
        r.mode == Some(WhatAmI::Client),
        r.connect_endpoints@ == peers@,
        unset_besides_role(r),
{
    let mut config = Config::default();
    config.mode = Some(WhatAmI::Client);
    config.connect_endpoints = peers;
    config
}

/// How plugin libraries are to be looked up.
#[derive(Debug, PartialEq, Eq)]
pub enum LibLoaderSetup {
    /// In the default search directories.
    Default,
    /// In these directories (and the directory of the executable).
    SearchDirs(Vec<String>),
}

/// A password of an authentication configuration requires a user name.
pub fn user_conf_validator(user: &Option<String>, password: &Option<String>) -> (r: bool)
    ensures
        r == (password is Some ==> user is Some),
{
    password.is_none() || user.is_some()
}

/// A copy of a list of strings.
fn clone_strings(v: &Vec<String>) -> (r: Vec<String>)
    ensures
        r@ == v@,
{
    let mut r: Vec<String> = Vec::new();
    let mut i: usize = 0;
    while i < v.len()
        invariant
            i <= v.len(),
            r@ == v@.take(i as int),
        decreases v.len() - i,
    {
        r.push(v[i].clone());
        proof {
            assert(v@.take(i + 1) =~= v@.take(i as int).push(v@[i as int]));
        }
        i = i + 1;
    }
    proof {
        assert(v@.take(i as int) =~= v@);
    }
    r
}

fn clone_opt_string(s: &Option<String>) -> (r: Option<String>)
    ensures
        r == *s,
{
    match s {
        Some(x) => Some(x.clone()),
        None => None,
    }
}

impl Clone for Config {
    fn clone(&self) -> (r: Config)
        ensures
            r.id == self.id,
            r.mode == self.mode,
            r.connect_endpoints@ == self.connect_endpoints@,
            r.add_timestamp == self.add_timestamp,
            r.peers_autoconnect == self.peers_autoconnect,
            r.gossip_autoconnect == self.gossip_autoconnect,
            r.queries_default_timeout == self.queries_default_timeout,
            r.plugins_search_dirs@ == self.plugins_search_dirs@,
            r.plugins@ == self.plugins@,
    {
        Config {
            id: clone_opt_string(&self.id),
            mode: self.mode,
            connect_endpoints: clone_strings(&self.connect_endpoints),
            add_timestamp: self.add_timestamp,
            peers_autoconnect: self.peers_autoconnect,
            gossip_autoconnect: self.gossip_autoconnect,
            queries_default_timeout: self.queries_default_timeout,
            plugins_search_dirs: clone_strings(&self.plugins_search_dirs),
            plugins: self.plugins.clone(),
        }
    }
}

impl Config {
    /// The configuration of the plugin `name`, if there is one.
    pub fn plugin(&self, name: &str) -> (r: Option<&JsonValue>)
        ensures
            r is Some == get_key(self.plugins@, name@) is Some,
            r matches Some(x) ==> get_key(self.plugins@, name@) == Some(x@),
    {
        get_member(self.plugins.values(), name)
    }

    /// A copy of this configuration with every member named `private`
    /// taken out of the plugins' configurations.
    pub fn sift_privates(&self) -> (r: Config)
        ensures
            r.plugins@ == sifted(self.plugins@),
            r.id == self.id,
            r.mode == self.mode,
            r.connect_endpoints@ == self.connect_endpoints@,
            r.add_timestamp == self.add_timestamp,
            r.peers_autoconnect == self.peers_autoconnect,
            r.gossip_autoconnect == self.gossip_autoconnect,
            r.queries_default_timeout == self.queries_default_timeout,
            r.plugins_search_dirs@ == self.plugins_search_dirs@,
    {
        let values = clone_json(self.plugins.values());
        Config {
            id: clone_opt_string(&self.id),
            mode: self.mode,
            connect_endpoints: clone_strings(&self.connect_endpoints),
            add_timestamp: self.add_timestamp,
            peers_autoconnect: self.peers_autoconnect,
            gossip_autoconnect: self.gossip_autoconnect,
            queries_default_timeout: self.queries_default_timeout,
            plugins_search_dirs: clone_strings(&self.plugins_search_dirs),
            plugins: PluginsConfig::from_values(sift_owned(values)),
        }
    }

    /// Starts removing `key` from the configuration: only keys under
    /// `plugins/` (after an optional leading `/`) can be removed; the rest
    /// of the key is removed from the plugins' configurations (see
    /// [`PluginsConfig::remove`]).
    pub fn remove(&mut self, key: &str) -> (r: Result<RemoveStep, ConfigError>)
        requires
            old(self).plugins@ is Object || ({
                let k = if is_prefix("/"@, key@) { key@.skip(1) } else { key@ };
                is_prefix("plugins/"@, k) ==> char_index(k.skip("plugins/"@.len() as int), '/')
                    < k.skip("plugins/"@.len() as int).len()
            }),
        ensures
            ({
                let k = if is_prefix("/"@, key@) { key@.skip(1) } else { key@ };
                if is_prefix("plugins/"@, k) {
                    removal(old(self).plugins@, k.skip("plugins/"@.len() as int), final(self).plugins@, r)
                } else {
                    &&& r matches Err(e) && e == ConfigError::NotPluginKey
                    &&& final(self).plugins@ == old(self).plugins@
                }
            }),
            final(self).id == old(self).id,
            final(self).mode == old(self).mode,
            final(self).connect_endpoints == old(self).connect_endpoints,
            final(self).add_timestamp == old(self).add_timestamp,
            final(self).peers_autoconnect == old(self).peers_autoconnect,
            final(self).gossip_autoconnect == old(self).gossip_autoconnect,
            final(self).queries_default_timeout == old(self).queries_default_timeout,
            final(self).plugins_search_dirs == old(self).plugins_search_dirs,
    {
        proof {
            reveal_strlit("/");
        }
        let key = match strip_prefix(key, "/") {
            Some(rest) => rest,
            None => key,
        };
        match strip_prefix(key, "plugins/") {
            Some(rest) => self.plugins.remove(rest),
            None => Err(ConfigError::NotPluginKey),
        }
    }

    /// How plugin libraries are to be looked up: in the default places when
    /// no search directory is configured, else in those directories.
    pub fn libloader(&self) -> (r: LibLoaderSetup)
        ensures
            self.plugins_search_dirs@.len() == 0 ==> r is Default,
            self.plugins_search_dirs@.len() > 0 ==> (r matches LibLoaderSetup::SearchDirs(d)
                && d@ == self.plugins_search_dirs@),
    {
        if self.plugins_search_dirs.len() == 0 {
            LibLoaderSetup::Default
        } else {
            LibLoaderSetup::SearchDirs(clone_strings(&self.plugins_search_dirs))
        }
    }
}

/// The directories where plugin libraries are searched for by default,
/// separated by `:`.
pub const LIB_DEFAULT_SEARCH_PATHS: &'static str = ".:~/.zenoh/lib:/opt/homebrew/lib:/usr/local/lib:/usr/lib";

/// A list of directories to search plugins in.
#[derive(Clone, Debug, PartialEq, Eq)]
pub struct PluginSearchDirs(pub Vec<String>);

impl Default for PluginSearchDirs {
    /// The default search directories.
    fn default() -> (r: PluginSearchDirs)
        ensures
            r.0@.len() == split_all(LIB_DEFAULT_SEARCH_PATHS@, ':').len(),
            forall|i: int| 0 <= i < r.0@.len() ==> (#[trigger] r.0@[i])@ == split_all(LIB_DEFAULT_SEARCH_PATHS@, ':')[i],
    {
        PluginSearchDirs(split_all_strings(LIB_DEFAULT_SEARCH_PATHS, ':'))
    }
}

/// The role that a name denotes.
pub open spec fn role_named(s: Seq<char>) -> Option<WhatAmI> {
    if s == "router"@ {
        Some(WhatAmI::Router)
    } else if s == "peer"@ {
        Some(WhatAmI::Peer)
    } else if s == "client"@ {
        Some(WhatAmI::Client)
    } else {
        None
    }
}

impl WhatAmI {
    /// The role named `s` (`router`, `peer` or `client`).
    pub fn parse(s: &str) -> (r: Option<WhatAmI>)
        ensures
            r == role_named(s@),
    {
        if str_eq(s, "router") {
            Some(WhatAmI::Router)
        } else if str_eq(s, "peer") {
            Some(WhatAmI::Peer)
        } else if str_eq(s, "client") {
            Some(WhatAmI::Client)
        } else {
            None
        }
    }
}

/// The set of roles that a `|`-separated list of role names denotes.
pub open spec fn matcher_named(s: Seq<char>) -> Option<WhatAmIMatcher> {
    let parts = split_all(s, '|');
    if forall|i: int| 0 <= i < parts.len() ==> (#[trigger] role_named(parts[i])) is Some {
        Some(WhatAmIMatcher {
            router: exists|i: int| 0 <= i < parts.len() && #[trigger] role_named(parts[i]) == Some(WhatAmI::Router),
            peer: exists|i: int| 0 <= i < parts.len() && #[trigger] role_named(parts[i]) == Some(WhatAmI::Peer),
            client: exists|i: int| 0 <= i < parts.len() && #[trigger] role_named(parts[i]) == Some(WhatAmI::Client),
        })
    } else {
        None
    }
}

impl WhatAmIMatcher {
    /// The set of roles named by the `|`-separated list `s`.
    pub fn parse(s: &str) -> (r: Option<WhatAmIMatcher>)
        ensures
            r == matcher_named(s@),
    {
        let parts = split_all_strings(s, '|');
        let ghost views = split_all(s@, '|');
        let mut m = WhatAmIMatcher { router: false, peer: false, client: false };
        let mut i: usize = 0;
        while i < parts.len()
            invariant
                i <= parts@.len(),
                views == split_all(s@, '|'),
                parts@.len() == views.len(),
                forall|j: int| 0 <= j < parts@.len() ==> (#[trigger] parts@[j])@ == views[j],
                forall|j: int| 0 <= j < i ==> (#[trigger] role_named(views[j])) is Some,
                m.router == exists|j: int| 0 <= j < i && #[trigger] role_named(views[j]) == Some(WhatAmI::Router),
                m.peer == exists|j: int| 0 <= j < i && #[trigger] role_named(views[j]) == Some(WhatAmI::Peer),
                m.client == exists|j: int| 0 <= j < i && #[trigger] role_named(views[j]) == Some(WhatAmI::Client),
            decreases parts@.len() - i,
        {
            match WhatAmI::parse(parts[i].as_str()) {
                Some(WhatAmI::Router) => { m.router = true; },
                Some(WhatAmI::Peer) => { m.peer = true; },
                Some(WhatAmI::Client) => { m.client = true; },
                None => {
                    proof {
                        assert(role_named(views[i as int]) is None);
                        assert(!(forall|j: int| 0 <= j < views.len() ==> (#[trigger] role_named(views[j])) is Some));
                    }
                    return None;
                },
            }
            proof {
                assert(role_named(views[i as int]) is Some);
            }
            i = i + 1;
        }
        Some(m)
    }
}

/// The name of a role.
pub open spec fn role_name(w: WhatAmI) -> Seq<char> {
    match w {
        WhatAmI::Router => "router"@,
        WhatAmI::Peer => "peer"@,
        WhatAmI::Client => "client"@,
    }
}

impl WhatAmI {
    /// The name of this role.
    pub fn as_str(&self) -> (r: &'static str)
        ensures
            r@ == role_name(*self),
    {
        match self {
            WhatAmI::Router => "router",
            WhatAmI::Peer => "peer",
            WhatAmI::Client => "client",
        }
    }
}

/// The names of the roles of a set, routers first and clients last.
pub open spec fn matcher_names(m: WhatAmIMatcher) -> Seq<Seq<char>> {
    (if m.router { seq!["router"@] } else { Seq::empty() })
        + (if m.peer { seq!["peer"@] } else { Seq::empty() })
        + (if m.client { seq!["client"@] } else { Seq::empty() })
}

/// A set of roles written as the `|`-separated list of their names.
pub open spec fn matcher_text(m: WhatAmIMatcher) -> Seq<char> {
    join(matcher_names(m), '|')
}

/// Appends the name `t` to the `|`-separated list `s` of the names `done`.
fn push_name(s: &mut String, t: &str, first: bool, Ghost(done): Ghost<Seq<Seq<char>>>)
    requires
        old(s)@ == join(done, '|'),
        first == (done.len() == 0),
    ensures
        final(s)@ == join(done.push(t@), '|'),
{
    if first {
        assert(join(done.push(t@), '|') == t@);
        assert(old(s)@ + t@ =~= t@);
    } else {
        proof {
            lemma_join_push(done, t@, '|');
        }
        s.append("|");
        proof {
            reveal_strlit("|");
            assert("|"@ =~= seq!['|']);
        }
    }
    s.append(t);
}

impl WhatAmIMatcher {
    /// This set of roles written as the `|`-separated list of their names,
    /// routers first and clients last.
    pub fn to_string(&self) -> (r: String)
        ensures
            r@ == matcher_text(*self),
    {
        let mut s = String::new();
        let ghost mut done: Seq<Seq<char>> = Seq::empty();
        assert(s@ =~= join(done, '|'));
        if self.router {
            push_name(&mut s, "router", true, Ghost(done));
            proof { done = done.push("router"@); }
        }
        if self.peer {
            push_name(&mut s, "peer", !self.router, Ghost(done));
            proof { done = done.push("peer"@); }
        }
        if self.client {
            push_name(&mut s, "client", !self.router && !self.peer, Ghost(done));
            proof { done = done.push("client"@); }
        }
        assert(done =~= matcher_names(*self));
        s
    }
}

/// A role's name is read back as that role.
pub proof fn lemma_role_name_roundtrip(w: WhatAmI)
    ensures
        role_named(role_name(w)) == Some(w),
{
    reveal_strlit("router");
    reveal_strlit("peer");
    reveal_strlit("client");
    assert("peer"@.len() != "router"@.len());
    assert("client"@[0] != "router"@[0]);
    assert("client"@.len() != "peer"@.len());
}

/// A non-empty set of roles, written as the list of their names, is read
/// back as the same set.
pub proof fn lemma_matcher_text_roundtrip(m: WhatAmIMatcher)
    requires
        m.router || m.peer || m.client,
    ensures
        matcher_named(matcher_text(m)) == Some(m),
{
    reveal_strlit("router");
    reveal_strlit("peer");
    reveal_strlit("client");
    let names = matcher_names(m);
    assert forall|i: int| 0 <= i < names.len() implies
        #[trigger] role_named(names[i]) is Some && names[i] == role_name(role_named(names[i])->0) by {
        lemma_role_name_roundtrip(WhatAmI::Router);
        lemma_role_name_roundtrip(WhatAmI::Peer);
        lemma_role_name_roundtrip(WhatAmI::Client);
    }
    assert forall|i: int, j: int| 0 <= i < names.len() && 0 <= j < names[i].len() implies #[trigger] names[i][j] != '|' by {
        assert(names[i] == "router"@ || names[i] == "peer"@ || names[i] == "client"@);
    }
    lemma_split_join(names, '|');
    let parts = split_all(matcher_text(m), '|');
    assert(parts == names);
    if m.router {
        lemma_role_name_roundtrip(WhatAmI::Router);
        assert(role_named(names[0]) == Some(WhatAmI::Router));
    }
    if m.peer {
        let k: int = if m.router { 1 } else { 0 };
        assert(names[k] == "peer"@);
        lemma_role_name_roundtrip(WhatAmI::Peer);
        assert(role_named(names[k]) == Some(WhatAmI::Peer));
    }
    if m.client {
        let k: int = names.len() - 1;
        assert(names[k] == "client"@);
        lemma_role_name_roundtrip(WhatAmI::Client);
        assert(role_named(names[k]) == Some(WhatAmI::Client));
    }
    assert(!m.router ==> forall|i: int| 0 <= i < names.len() ==> #[trigger] role_named(names[i]) != Some(WhatAmI::Router));
    assert(!m.peer ==> forall|i: int| 0 <= i < names.len() ==> #[trigger] role_named(names[i]) != Some(WhatAmI::Peer));
    assert(!m.client ==> forall|i: int| 0 <= i < names.len() ==> #[trigger] role_named(names[i]) != Some(WhatAmI::Client));
}

/// The formats in which a configuration file can be written.
#[derive(Clone, Copy, Debug, PartialEq, Eq, Structural)]
pub enum ConfigFormat {
    /// JSON or JSON5.
    Json5,
    /// YAML.
    Yaml,
}

/// Why a configuration file cannot be read.
#[derive(Debug, PartialEq, Eq)]
pub enum ConfigFileError {
    /// The file name has an extension that names no supported format.
    UnsupportedExtension(String),
    /// The file name has no extension.
    NoExtension,
}

/// The format of a configuration file, by the extension of its name:
/// `json` and `json5` are JSON5, `yaml` is YAML.
pub fn config_format(extension: Option<&str>) -> (r: Result<ConfigFormat, ConfigFileError>)
    ensures
        match extension {
            None => r == Err::<ConfigFormat, ConfigFileError>(ConfigFileError::NoExtension),
            Some(e) => if e@ == "json"@ || e@ == "json5"@ {
                r == Ok::<ConfigFormat, ConfigFileError>(ConfigFormat::Json5)
            } else if e@ == "yaml"@ {
                r == Ok::<ConfigFormat, ConfigFileError>(ConfigFormat::Yaml)
            } else {
                r matches Err(ConfigFileError::UnsupportedExtension(x)) && x@ == e@
            },
        },
{
    match extension {
        None => Err(ConfigFileError::NoExtension),
        Some(e) => if str_eq(e, "json") || str_eq(e, "json5") {
            Ok(ConfigFormat::Json5)
        } else if str_eq(e, "yaml") {
            Ok(ConfigFormat::Yaml)
        } else {
            Err(ConfigFileError::UnsupportedExtension(e.to_owned()))
        },
    }
}

} // verus!
