//! The plugins part of a configuration: a JSON object with one member per
//! plugin, edited and read through `/`-separated keys.
use vstd::prelude::*;
use crate::json::{
    clone_json, ensure_key, ensure_member, entries, find_key, get_key, get_member, lemma_find_key,
    lemma_view_array, lemma_view_object, lookup, lookup_at, member_or_null, merge_at, merge_value,
    remove_at, remove_member, remove_path, removes_member, set_key, set_member, sift_privates, sifted, without_key,
    jsons, well_formed, lemma_merge_well_formed, lemma_remove_well_formed, lemma_set_key_well_formed,
    lemma_sifted_well_formed, lemma_without_key_well_formed, Json, JsonValue, PathError, PathErrorView,
};
use crate::text::{char_index, lemma_char_index, split_once, split_once_spec};
use vstd::string::StrSliceExecFns;

verus! {

/// Why an edit of the plugins configuration was refused.
#[derive(Debug, PartialEq, Eq)]
pub enum ConfigError {
    /// A written path runs into a value it cannot descend into.
    NotFound(String),
    /// There is no plugin of that name to edit.
    NoPlugin(String),
    /// A removal path selects nothing.
    Path(PathError),
    /// Only keys under `plugins/` can be removed from a configuration.
    NotPluginKey,
}

pub enum ConfigErrorView {
    NotFound(Seq<char>),
    NoPlugin(Seq<char>),
    Path(PathErrorView),
    NotPluginKey,
}

impl View for ConfigError {
    type V = ConfigErrorView;

    open spec fn view(&self) -> ConfigErrorView {
        match self {
            ConfigError::NotFound(s) => ConfigErrorView::NotFound(s@),
            ConfigError::NoPlugin(s) => ConfigErrorView::NoPlugin(s@),
            ConfigError::Path(e) => ConfigErrorView::Path(e@),
            ConfigError::NotPluginKey => ConfigErrorView::NotPluginKey,
        }
    }
}

/// A key that selects no value.
#[derive(Debug, PartialEq, Eq, Structural)]
pub enum GetError {
    NoMatchingKey,
}

/// An edit of one plugin's configuration, computed but not yet applied:
/// `old` is the plugin's configuration before the edit and `new` after it;
/// `key` is the path inside the plugin's configuration that was edited.
#[derive(Debug, PartialEq, Eq)]
pub struct PendingEdit {
    pub plugin: String,
    pub key: String,
    pub old: JsonValue,
    pub new: JsonValue,
}

/// What a removal did or will do.
#[derive(Debug, PartialEq, Eq)]
pub enum RemoveStep {
    /// The whole plugin configuration of that name was removed.
    PluginRemoved(String),
    /// A part of a plugin's configuration is to be removed, by applying this edit.
    Edit(PendingEdit),
}

/// The plugins configuration: a JSON object whose members are the
/// configurations of the plugins, by name.
#[derive(Debug, PartialEq, Eq)]
pub struct PluginsConfig {
    values: JsonValue,
}

impl View for PluginsConfig {
    type V = Json;

    closed spec fn view(&self) -> Json {
        self.values@
    }
}

/// The members of an object value (empty for any other value).
pub open spec fn members(v: Json) -> Seq<(Seq<char>, Json)> {
    match v {
        Json::Object(o) => o,
        _ => Seq::empty(),
    }
}

impl Clone for PluginsConfig {
    fn clone(&self) -> (r: PluginsConfig)
        ensures
            r@ == self@,
    {
        PluginsConfig { values: clone_json(&self.values) }
    }
}

impl PluginsConfig {
    /// An empty plugins configuration.
    pub fn new() -> (r: PluginsConfig)
        ensures
            r@ == Json::Object(Seq::empty()),
    {
        let o: Vec<(String, JsonValue)> = Vec::new();
        proof {
            lemma_view_object(o);
            assert(entries(o@) =~= Seq::<(Seq<char>, Json)>::empty());
        }
        PluginsConfig { values: JsonValue::Object(o) }
    }

    /// A plugins configuration holding `values`.
    pub fn from_values(values: JsonValue) -> (r: PluginsConfig)
        ensures
            r@ == values@,
    {
        PluginsConfig { values }
    }

    /// The configuration as a JSON value.
    pub fn values(&self) -> (r: &JsonValue)
        ensures
            r@ == self@,
    {
        &self.values
    }

    /// The configuration as a JSON value, by value.
    pub fn into_values(self) -> (r: JsonValue)
        ensures
            r@ == self@,
    {
        self.values
    }

    /// Takes every member named `private`, at any depth, out of the configuration.
    pub fn sift_privates(&mut self)
        ensures
            final(self)@ == sifted(old(self)@),
            well_formed(old(self)@) ==> well_formed(final(self)@),
    {
        proof {
            if well_formed(self@) {
                lemma_sifted_well_formed(self@);
            }
        }
        sift_privates(&mut self.values);
    }

    /// The names of the plugins, in order.
    pub fn keys(&self) -> (r: Vec<String>)
        requires
            self@ is Object,
        ensures
            r@.len() == members(self@).len(),
            forall|i: int| 0 <= i < r@.len() ==> (#[trigger] r@[i])@ == members(self@)[i].0,
    {
        match &self.values {
            JsonValue::Object(o) => {
                proof {
                    lemma_view_object(*o);
                }
                let mut r: Vec<String> = Vec::new();
                let mut i: usize = 0;
                while i < o.len()
                    invariant
                        i <= o.len(),
                        r@.len() == i,
                        forall|j: int| 0 <= j < i ==> (#[trigger] r@[j])@ == o@[j].0@,
                    decreases o.len() - i,
                {
                    r.push(o[i].0.clone());
                    i = i + 1;
                }
                r
            },
            _ => vstd::pervasive::unreached(),
        }
    }

    /// The value at `key`: its first `/`-separated segment names a plugin,
    /// the rest is a path inside that plugin's configuration.
    pub fn get(&self, key: &str) -> (r: Result<&JsonValue, GetError>)
        ensures
            ({
                let (p, rest) = split_once_spec(key@, '/');
                match get_key(self@, p) {
                    Some(c) => match lookup_at(c, rest) {
                        Some(x) => r matches Ok(y) && y@ == x,
                        None => r == Err::<&JsonValue, GetError>(GetError::NoMatchingKey),
                    },
                    None => r == Err::<&JsonValue, GetError>(GetError::NoMatchingKey),
                }
            }),
    {
        let (plugin, rest) = split_once(key, '/');
        match get_member(&self.values, plugin) {
            Some(c) => match lookup(c, rest) {
                Some(x) => Ok(x),
                None => Err(GetError::NoMatchingKey),
            },
            None => Err(GetError::NoMatchingKey),
        }
    }
}

impl PluginsConfig {
    /// Starts writing `value` at `key`: the first `/`-separated segment of
    /// `key` names a plugin (added, as `null`, when missing), the rest is
    /// the path inside its configuration (see [`merge_at`]). The returned
    /// edit holds the plugin's configuration before and after; it takes
    /// effect with [`PluginsConfig::apply_edit`]. `NotFound` when the path
    /// cannot be written.
    pub fn insert(&mut self, key: &str, value: JsonValue) -> (r: Result<PendingEdit, ConfigError>)
        requires
            old(self)@ is Object,
        ensures
            ({
                let o = members(old(self)@);
                let (p, sub) = split_once_spec(key@, '/');
                let cur = member_or_null(o, p);
                &&& final(self)@ == Json::Object(ensure_key(o, p))
                &&& (r is Ok <==> merge_at(cur, sub, value@) is Some)
                &&& (r matches Ok(e) ==> e.plugin@ == p && e.key@ == sub && e.old@ == cur
                    && merge_at(cur, sub, value@) == Some(e.new@))
                &&& (r matches Err(err) ==> err@ == ConfigErrorView::NotFound(sub))
            }),
            well_formed(old(self)@) ==> well_formed(final(self)@),
            r matches Ok(e) ==> (well_formed(old(self)@) ==> well_formed(e.old@)),
            r matches Ok(e) ==> (well_formed(old(self)@) && well_formed(value@) ==> well_formed(e.new@)),
    {
        let (plugin, sub) = split_once(key, '/');
        let mut values = JsonValue::Null;
        std::mem::swap(&mut values, &mut self.values);
        match values {
            JsonValue::Object(o) => {
                let mut o = o;
                proof {
                    lemma_view_object(o);
                    lemma_find_key(entries(o@), plugin@);
                }
                let ghost o0 = entries(o@);
                proof {
                    if well_formed(Json::Object(o0)) {
                        lemma_set_key_well_formed(o0, plugin@, Json::Null);
                        let cur = member_or_null(o0, plugin@);
                        if find_key(o0, plugin@) is Some {
                            assert(well_formed(o0[find_key(o0, plugin@)->0].1));
                        }
                        if well_formed(value@) && merge_at(cur, sub@, value@) is Some {
                            lemma_merge_well_formed(cur, sub@, value@);
                        }
                    }
                }
                let idx = ensure_member(&mut o, plugin);
                proof {
                    lemma_find_key(entries(o@), plugin@);
                    let e = entries(o@);
                    assert(e[idx as int] == (o@[idx as int].0@, o@[idx as int].1@));
                    match find_key(o0, plugin@) {
                        Some(j) => {},
                        None => {
                            crate::json::lemma_insert_pos(o0, plugin@);
                        },
                    }
                }
                let cur = clone_json(&o[idx].1);
                let old_value = clone_json(&cur);
                self.values = JsonValue::Object(o);
                proof {
                    lemma_view_object(o);
                }
                match merge_value(cur, sub, value) {
                    Some(new) => Ok(PendingEdit {
                        plugin: plugin.to_owned(),
                        key: sub.to_owned(),
                        old: old_value,
                        new,
                    }),
                    None => Err(ConfigError::NotFound(sub.to_owned())),
                }
            },
            other => {
                self.values = other;
                vstd::pervasive::unreached()
            },
        }
    }

    /// Applies an edit: the configuration of `edit.plugin` becomes
    /// `replacement` when given, else `edit.new`.
    pub fn apply_edit(&mut self, edit: PendingEdit, replacement: Option<JsonValue>)
        requires
            old(self)@ is Object,
        ensures
            final(self)@ == Json::Object(set_key(members(old(self)@), edit.plugin@, match replacement {
                Some(x) => x@,
                None => edit.new@,
            })),
            well_formed(old(self)@) && well_formed(match replacement {
                Some(x) => x@,
                None => edit.new@,
            }) ==> well_formed(final(self)@),
    {
        proof {
            let x = if replacement is Some { replacement->0@ } else { edit.new@ };
            if well_formed(self@) && well_formed(x) {
                lemma_set_key_well_formed(members(self@), edit.plugin@, x);
            }
        }
        let value = match replacement {
            Some(x) => x,
            None => edit.new,
        };
        let mut values = JsonValue::Null;
        std::mem::swap(&mut values, &mut self.values);
        match values {
            JsonValue::Object(o) => {
                let mut o = o;
                proof {
                    lemma_view_object(o);
                }
                set_member(&mut o, edit.plugin, value);
                proof {
                    lemma_view_object(o);
                }
                self.values = JsonValue::Object(o);
            },
            other => {
                self.values = other;
                vstd::pervasive::unreached()
            },
        }
    }
}

/// The outcome of removing `key` from a plugins configuration `before`
/// (see [`PluginsConfig::remove`]).
pub open spec fn removal(before: Json, key: Seq<char>, after: Json, r: Result<RemoveStep, ConfigError>) -> bool {
    let o = members(before);
    let i = char_index(key, '/');
    let p = key.take(i);
    let rest = key.skip(i + 1);
    if i >= key.len() {
        &&& after == Json::Object(without_key(o, p))
        &&& r matches Ok(RemoveStep::PluginRemoved(name)) && name@ == p
    } else {
        &&& after == before
        &&& match find_key(o, p) {
            None => r matches Err(err) && err@ == ConfigErrorView::NoPlugin(p),
            Some(j) => match remove_at(o[j].1, rest) {
                Ok(n) => r matches Ok(RemoveStep::Edit(e)) && e.plugin@ == p && e.key@ == rest
                    && e.old@ == o[j].1 && e.new@ == n,
                Err(pe) => r matches Err(err) && err@ == ConfigErrorView::Path(pe),
            },
        }
    }
}

impl PluginsConfig {
    /// Starts removing what `key` names. When `key` has no `/`, the whole
    /// configuration of the plugin it names is removed at once (whether or
    /// not there is one). Otherwise its first segment names a plugin and the
    /// rest a path inside its configuration (see [`remove_at`]); the
    /// returned edit takes effect with [`PluginsConfig::apply_edit`].
    pub fn remove(&mut self, key: &str) -> (r: Result<RemoveStep, ConfigError>)
        requires
            old(self)@ is Object || char_index(key@, '/') < key@.len(),
        ensures
            removal(old(self)@, key@, final(self)@, r),
            well_formed(old(self)@) ==> well_formed(final(self)@),
            r matches Ok(RemoveStep::Edit(e)) ==> (well_formed(old(self)@) ==> well_formed(e.new@)),
    {
        proof {
            let o = members(self@);
            let i = char_index(key@, '/');
            lemma_char_index(key@, '/');
            let p = key@.take(i);
            if well_formed(self@) {
                lemma_without_key_well_formed(o, p);
                lemma_find_key(o, p);
                if find_key(o, p) is Some {
                    let j = find_key(o, p)->0;
                    assert(well_formed(o[j].1));
                    if remove_at(o[j].1, key@.skip(i + 1)) is Ok {
                        lemma_remove_well_formed(o[j].1, key@.skip(i + 1));
                    }
                }
            }
        }
        let (plugin, rest) = split_once(key, '/');
        proof {
            lemma_char_index(key@, '/');
        }
        let last = plugin.unicode_len() == key.unicode_len();
        assert(last == (char_index(key@, '/') >= key@.len()));
        assert(!last ==> rest@ == key@.skip(char_index(key@, '/') + 1));
        if last {
            let mut values = JsonValue::Null;
            std::mem::swap(&mut values, &mut self.values);
            match values {
                JsonValue::Object(o) => {
                    let mut o = o;
                    proof {
                        lemma_view_object(o);
                    }
                    remove_member(&mut o, plugin);
                    proof {
                        lemma_view_object(o);
                    }
                    self.values = JsonValue::Object(o);
                    Ok(RemoveStep::PluginRemoved(plugin.to_owned()))
                },
                other => {
                    self.values = other;
                    vstd::pervasive::unreached()
                },
            }
        } else {
            proof {
                match &self.values {
                    JsonValue::Object(o) => {
                        lemma_view_object(*o);
                        lemma_find_key(entries(o@), plugin@);
                    },
                    _ => {},
                }
            }
            match get_member(&self.values, plugin) {
                Some(current) => {
                    let old_value = clone_json(current);
                    let edited = clone_json(current);
                    match remove_path(edited, rest) {
                        Ok(new) => Ok(RemoveStep::Edit(PendingEdit {
                            plugin: plugin.to_owned(),
                            key: rest.to_owned(),
                            old: old_value,
                            new,
                        })),
                        Err(e) => Err(ConfigError::Path(e)),
                    }
                },
                None => Err(ConfigError::NoPlugin(plugin.to_owned())),
            }
        }
    }
}

/// A request to load a plugin: its name, the paths given for it (if any),
/// and whether failing to load it is fatal.
#[derive(Debug, PartialEq, Eq)]
pub struct PluginLoad {
    pub name: String,
    pub paths: Option<Vec<String>>,
    pub required: bool,
}

pub struct PluginLoadView {
    pub name: Seq<char>,
    pub paths: Option<Seq<Seq<char>>>,
    pub required: bool,
}

impl View for PluginLoad {
    type V = PluginLoadView;

    open spec fn view(&self) -> PluginLoadView {
        PluginLoadView {
            name: self.name@,
            paths: match self.paths {
                Some(p) => Some(Seq::new(p@.len(), |i: int| p@[i]@)),
                None => None,
            },
            required: self.required,
        }
    }
}

/// Why a plugin's configuration cannot be turned into a load request.
#[derive(Debug, PartialEq, Eq)]
pub enum LoadProblem {
    /// The configuration is not an object.
    NotAnObject(String),
    /// `__required__` is present and not a boolean.
    InvalidRequired(String),
    /// `__path__` is present and neither a string nor an array of strings.
    InvalidPath(String),
}

pub enum LoadProblemView {
    NotAnObject(Seq<char>),
    InvalidRequired(Seq<char>),
    InvalidPath(Seq<char>),
}

impl View for LoadProblem {
    type V = LoadProblemView;

    open spec fn view(&self) -> LoadProblemView {
        match self {
            LoadProblem::NotAnObject(s) => LoadProblemView::NotAnObject(s@),
            LoadProblem::InvalidRequired(s) => LoadProblemView::InvalidRequired(s@),
            LoadProblem::InvalidPath(s) => LoadProblemView::InvalidPath(s@),
        }
    }
}

/// The paths that a `__path__` value gives: one string, or an array of strings.
pub open spec fn paths_of(p: Json) -> Option<Seq<Seq<char>>> {
    match p {
        Json::Str(s) => Some(seq![s]),
        Json::Array(a) => if forall|i: int| 0 <= i < a.len() ==> (#[trigger] a[i]) is Str {
            Some(Seq::new(a.len(), |i: int| a[i]->Str_0))
        } else {
            None
        },
        _ => None,
    }
}

/// The load request of the plugin `name` configured by `v`.
pub open spec fn load_request_of(name: Seq<char>, v: Json) -> Result<PluginLoadView, LoadProblemView> {
    if !(v is Object) {
        Err(LoadProblemView::NotAnObject(name))
    } else {
        match get_key(v, "__required__"@) {
            Some(Json::Bool(required)) => load_paths_of(name, v, required),
            None => load_paths_of(name, v, false),
            Some(_) => Err(LoadProblemView::InvalidRequired(name)),
        }
    }
}

pub open spec fn load_paths_of(name: Seq<char>, v: Json, required: bool) -> Result<PluginLoadView, LoadProblemView> {
    match get_key(v, "__path__"@) {
        None => Ok(PluginLoadView { name, paths: None, required }),
        Some(p) => match paths_of(p) {
            Some(paths) => Ok(PluginLoadView { name, paths: Some(paths), required }),
            None => Err(LoadProblemView::InvalidPath(name)),
        },
    }
}

/// The load request of the plugin `name` configured by `v`.
#[verifier::loop_isolation(false)]
fn load_request(name: &String, v: &JsonValue) -> (r: Result<PluginLoad, LoadProblem>)
    ensures
        match load_request_of(name@, v@) {
            Ok(x) => r matches Ok(y) && y@ == x,
            Err(e) => r matches Err(f) && f@ == e,
        },
{
    match v {
        JsonValue::Object(_) => {},
        _ => { return Err(LoadProblem::NotAnObject(name.clone())); },
    }
    let required = match get_member(v, "__required__") {
        None => false,
        Some(JsonValue::Bool(b)) => *b,
        Some(_) => { return Err(LoadProblem::InvalidRequired(name.clone())); },
    };
    let paths = match get_member(v, "__path__") {
        None => None,
        Some(JsonValue::String(s)) => {
            let mut p: Vec<String> = Vec::new();
            p.push(s.clone());
            proof {
                assert(Seq::new(p@.len(), |i: int| p@[i]@) =~= seq![s@]);
            }
            Some(p)
        },
        Some(JsonValue::Array(a)) => {
            proof {
                lemma_view_array(*a);
            }
            let mut p: Vec<String> = Vec::new();
            let mut i: usize = 0;
            while i < a.len()
                invariant
                    i <= a.len(),
                    p@.len() == i,
                    forall|j: int| 0 <= j < i ==> (#[trigger] jsons(a@)[j]) is Str && p@[j]@ == jsons(a@)[j]->Str_0,
                decreases a.len() - i,
            {
                match &a[i] {
                    JsonValue::String(s) => { p.push(s.clone()); },
                    _ => {
                        proof {
                            assert(!(jsons(a@)[i as int] is Str));
                        }
                        return Err(LoadProblem::InvalidPath(name.clone()));
                    },
                }
                i = i + 1;
            }
            proof {
                let ja = jsons(a@);
                assert(Seq::new(p@.len(), |i: int| p@[i]@) =~= Seq::new(ja.len(), |i: int| ja[i]->Str_0));
            }
            Some(p)
        },
        Some(_) => { return Err(LoadProblem::InvalidPath(name.clone())); },
    };
    Ok(PluginLoad { name: name.clone(), paths, required })
}

/// The load requests of the plugins, in name order, up to the first plugin
/// whose configuration is malformed, and that plugin's problem.
#[derive(Debug, PartialEq, Eq)]
pub struct LoadRequests {
    /// The load requests of the plugins before the first malformed one (of
    /// all plugins when none is malformed).
    pub requests: Vec<PluginLoad>,
    /// The problem of the first malformed plugin, if there is one.
    pub problem: Option<LoadProblem>,
}

impl PluginsConfig {
    /// The load requests of the plugins, in order of their names. They are
    /// produced one plugin after the other and stop at the first plugin whose
    /// configuration is not an object, has a `__required__` that is not a
    /// boolean, or a `__path__` that is neither a string nor an array of
    /// strings: that plugin's problem is returned with the requests of the
    /// plugins before it.
    pub fn load_requests(&self) -> (r: LoadRequests)
        requires
            self@ is Object,
        ensures
            ({
                let o = members(self@);
                let n = r.requests@.len();
                &&& n <= o.len()
                &&& forall|j: int| 0 <= j < n ==> (#[trigger] load_request_of(o[j].0, o[j].1)) is Ok
                &&& forall|j: int| 0 <= j < n ==> (#[trigger] r.requests@[j])@ == load_request_of(o[j].0, o[j].1)->Ok_0
                &&& match r.problem {
                    None => n == o.len(),
                    Some(p) => n < o.len() && load_request_of(o[n as int].0, o[n as int].1) == Err::<PluginLoadView, LoadProblemView>(p@),
                }
            }),
    {
        match &self.values {
            JsonValue::Object(o) => {
                proof {
                    lemma_view_object(*o);
                }
                let ghost e = entries(o@);
                let mut out: Vec<PluginLoad> = Vec::new();
                let mut i: usize = 0;
                while i < o.len()
                    invariant
                        e == entries(o@),
                        members(self@) == e,
                        i <= o.len(),
                        out@.len() == i,
                        forall|j: int| 0 <= j < i ==> (#[trigger] load_request_of(e[j].0, e[j].1)) is Ok,
                        forall|j: int| 0 <= j < i ==> (#[trigger] out@[j])@ == load_request_of(e[j].0, e[j].1)->Ok_0,
                    decreases o.len() - i,
                {
                    match load_request(&o[i].0, &o[i].1) {
                        Ok(x) => { out.push(x); },
                        Err(problem) => {
                            return LoadRequests { requests: out, problem: Some(problem) };
                        },
                    }
                    i = i + 1;
                }
                LoadRequests { requests: out, problem: None }
            },
            _ => vstd::pervasive::unreached(),
        }
    }
}

/// What is written at a plugin key (a plain path inside the plugin's
/// configuration) and then applied is what a read at that key gives back.
pub proof fn lemma_insert_then_get(values: Seq<(Seq<char>, Json)>, key: Seq<char>, v: Json)
    requires
        merge_at(member_or_null(values, split_once_spec(key, '/').0), split_once_spec(key, '/').1, v) is Some,
        crate::json::plain_path(split_once_spec(key, '/').1),
    ensures
        ({
            let (p, sub) = split_once_spec(key, '/');
            let written = merge_at(member_or_null(values, p), sub, v)->0;
            let after = Json::Object(set_key(ensure_key(values, p), p, written));
            get_key(after, p) == Some(written) && lookup_at(written, sub) == Some(v)
        }),
{
    let (p, sub) = split_once_spec(key, '/');
    let written = merge_at(member_or_null(values, p), sub, v)->0;
    crate::json::lemma_set_key(ensure_key(values, p), p, written);
    crate::json::lemma_merge_then_lookup(member_or_null(values, p), sub, v);
}

/// After a plugin is removed, reading it finds nothing.
pub proof fn lemma_removed_plugin_is_gone(values: Seq<(Seq<char>, Json)>, p: Seq<char>)
    ensures
        get_key(Json::Object(without_key(values, p)), p) is None,
{
    crate::json::lemma_without_key(values, p);
}

/// What a removal inside a plugin's configuration took out of an object,
/// once the edit is applied, is no longer read at that key.
pub proof fn lemma_remove_then_get(values: Seq<(Seq<char>, Json)>, key: Seq<char>)
    requires
        ({
            let (p, rest) = split_once_spec(key, '/');
            &&& find_key(values, p) is Some
            &&& remove_at(values[find_key(values, p)->0].1, rest) is Ok
            &&& removes_member(values[find_key(values, p)->0].1, rest)
            &&& rest.len() > 0
            &&& rest.last() != '/'
        }),
    ensures
        ({
            let (p, rest) = split_once_spec(key, '/');
            let edited = remove_at(values[find_key(values, p)->0].1, rest)->Ok_0;
            let after = Json::Object(set_key(values, p, edited));
            get_key(after, p) == Some(edited) && lookup_at(edited, rest) is None
        }),
{
    let (p, rest) = split_once_spec(key, '/');
    let j = find_key(values, p)->0;
    crate::json::lemma_set_key(values, p, remove_at(values[j].1, rest)->Ok_0);
    crate::json::lemma_remove_then_lookup(values[j].1, rest);
}

/// The load request of a plugin carries the plugin's name, its
/// `__required__` flag as written (`false` when absent), and its `__path__`:
/// no paths when absent, the one path of a string, or the strings of an
/// array, in order.
pub proof fn lemma_load_request_fields(name: Seq<char>, v: Json)
    requires
        load_request_of(name, v) is Ok,
    ensures
        ({
            let r = load_request_of(name, v)->Ok_0;
            &&& v is Object
            &&& r.name == name
            &&& match get_key(v, "__required__"@) {
                Some(Json::Bool(b)) => r.required == b,
                None => !r.required,
                Some(_) => false,
            }
            &&& match get_key(v, "__path__"@) {
                None => r.paths is None,
                Some(Json::Str(p)) => r.paths == Some(seq![p]),
                Some(Json::Array(a)) => r.paths matches Some(ps) && ps.len() == a.len()
                    && forall|i: int| 0 <= i < a.len() ==> a[i] == Json::Str(#[trigger] ps[i]),
                Some(_) => false,
            }
        }),
{
    match get_key(v, "__path__"@) {
        Some(Json::Array(a)) => {
            let ps = load_request_of(name, v)->Ok_0.paths->0;
            assert forall|i: int| 0 <= i < a.len() implies a[i] == Json::Str(#[trigger] ps[i]) by {
                assert(a[i] is Str);
            }
        },
        _ => {},
    }
}

/// `__required__` is present and no boolean.
pub open spec fn bad_required(v: Json) -> bool {
    match get_key(v, "__required__"@) {
        None => false,
        Some(Json::Bool(_)) => false,
        Some(_) => true,
    }
}

/// `__path__` is present and neither a string nor an array of strings.
pub open spec fn bad_path(v: Json) -> bool {
    match get_key(v, "__path__"@) {
        None => false,
        Some(Json::Str(_)) => false,
        Some(Json::Array(a)) => exists|i: int| 0 <= i < a.len() && !((#[trigger] a[i]) is Str),
        Some(_) => true,
    }
}

/// Which problem a malformed plugin configuration has: it is not an object;
/// else its `__required__` is present and no boolean; else its `__path__` is
/// present and neither a string nor an array of strings. A configuration
/// with none of these problems has a load request.
pub proof fn lemma_load_request_problems(name: Seq<char>, v: Json)
    ensures
        !(v is Object) ==> load_request_of(name, v) == Err::<PluginLoadView, LoadProblemView>(LoadProblemView::NotAnObject(name)),
        v is Object && bad_required(v)
            ==> load_request_of(name, v) == Err::<PluginLoadView, LoadProblemView>(LoadProblemView::InvalidRequired(name)),
        v is Object && !bad_required(v) && bad_path(v)
            ==> load_request_of(name, v) == Err::<PluginLoadView, LoadProblemView>(LoadProblemView::InvalidPath(name)),
        v is Object && !bad_required(v) && !bad_path(v) ==> load_request_of(name, v) is Ok,
{
}

} // verus!
