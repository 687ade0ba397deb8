//! Layered configuration: defaults, then the global file, then the project file, then the command
//! line.
use vstd::prelude::*;

use crate::json;
use crate::json::{find_entry, parse, put, Json, JsonV};
use crate::permissions;
use crate::permissions::PermissionPolicy;
use crate::text;
use crate::text::{cat2, cat4, same_text};

verus! {

/// How an agent works.
#[derive(Debug, Clone, Copy, PartialEq, Eq, Structural)]
pub enum Mode {
    Plan,
    Build,
    Review,
}

/// The name of a mode.
pub open spec fn mode_name(mode: Mode) -> Seq<char> {
    match mode {
        Mode::Plan => "plan"@,
        Mode::Build => "build"@,
        Mode::Review => "review"@,
    }
}

impl Mode {
    /// The name that this mode has in sessions and prompts.
    pub fn name(&self) -> (name: &'static str)
        ensures
            name@ == mode_name(*self),
    {
        match self {
            Mode::Plan => "plan",
            Mode::Build => "build",
            Mode::Review => "review",
        }
    }

    /// The mode of a name.
    pub fn named(name: &str) -> (mode: Option<Mode>)
        ensures
            match mode {
                Some(m) => name@ == mode_name(m),
                None => forall|m: Mode| name@ != #[trigger] mode_name(m),
            },
    {
        if same_text(name, "plan") {
            Some(Mode::Plan)
        } else if same_text(name, "build") {
            Some(Mode::Build)
        } else if same_text(name, "review") {
            Some(Mode::Review)
        } else {
            None
        }
    }
}

/// No two modes have the same name.
pub proof fn law_mode_names_differ(a: Mode, b: Mode)
    ensures
        mode_name(a) == mode_name(b) <==> a == b,
{
    reveal_strlit("plan");
    reveal_strlit("build");
    reveal_strlit("review");
    assert("plan"@.len() == 4 && "build"@.len() == 5 && "review"@.len() == 6);
}

/// Where a model runs.
#[derive(Debug, Clone, Copy, PartialEq, Eq, Structural)]
pub enum Provider {
    Openai,
    Anthropic,
    Ollama,
    OpenaiCompatible,
}

/// The name of a provider.
pub open spec fn provider_name(provider: Provider) -> Seq<char> {
    match provider {
        Provider::Openai => "openai"@,
        Provider::Anthropic => "anthropic"@,
        Provider::Ollama => "ollama"@,
        Provider::OpenaiCompatible => "openai-compatible"@,
    }
}

impl Provider {
    /// The name that this provider has in configurations and messages.
    pub fn name(&self) -> (name: &'static str)
        ensures
            name@ == provider_name(*self),
    {
        match self {
            Provider::Openai => "openai",
            Provider::Anthropic => "anthropic",
            Provider::Ollama => "ollama",
            Provider::OpenaiCompatible => "openai-compatible",
        }
    }
}

/// A configuration.
#[derive(Debug, Clone, PartialEq, Eq)]
pub struct Config {
    pub provider: Provider,
    pub model: String,
    pub base_url: Option<String>,
    pub max_turns: usize,
    pub command_timeout_ms: u64,
    pub max_tool_output_chars: usize,
    pub max_instruction_chars: usize,
    pub max_context_chars: usize,
    pub provider_max_retries: usize,
    pub provider_retry_base_ms: u64,
    pub max_total_tokens: Option<u64>,
    pub permissions: PermissionPolicy,
}

impl Default for Config {
    fn default() -> (config: Self)
        ensures
            config.provider == Provider::Openai,
            config.model@ == "gpt-5-mini"@,
            config.base_url is None,
            config.max_turns == 20,
            config.command_timeout_ms == 120_000,
            config.max_tool_output_chars == 30_000,
            config.max_instruction_chars == 100_000,
            config.max_context_chars == 400_000,
            config.provider_max_retries == 3,
            config.provider_retry_base_ms == 500,
            config.max_total_tokens is None,
            permissions::is_default_policy(config.permissions),
    {
        Config {
            provider: Provider::Openai,
            model: "gpt-5-mini".to_owned(),
            base_url: None,
            max_turns: 20,
            command_timeout_ms: 120_000,
            max_tool_output_chars: 30_000,
            max_instruction_chars: 100_000,
            max_context_chars: 400_000,
            provider_max_retries: 3,
            provider_retry_base_ms: 500,
            max_total_tokens: None,
            permissions: PermissionPolicy::default(),
        }
    }
}

/// What the command line sets.
#[derive(Debug, Clone, PartialEq, Eq)]
pub struct ConfigOverrides {
    pub provider: Option<Provider>,
    pub model: Option<String>,
    pub max_turns: Option<usize>,
}

impl Default for ConfigOverrides {
    fn default() -> (overrides: Self)
        ensures
            overrides.provider is None,
            overrides.model is None,
            overrides.max_turns is None,
    {
        ConfigOverrides { provider: None, model: None, max_turns: None }
    }
}

/// Why there is no configuration.
#[derive(Debug, Clone, PartialEq, Eq)]
pub enum ConfigError {
    Read { path: String, source: String },
    Parse { path: String, source: String },
    Invalid(String),
}

/// What a configuration error says.
#[verifier::ext_equal]
pub enum ConfigErrorV {
    Read { path: Seq<char>, source: Seq<char> },
    Parse { path: Seq<char>, source: Seq<char> },
    Invalid(Seq<char>),
}

impl View for ConfigError {
    type V = ConfigErrorV;

    open spec fn view(&self) -> ConfigErrorV {
        match *self {
            ConfigError::Read { path, source } => ConfigErrorV::Read {
                path: path@,
                source: source@,
            },
            ConfigError::Parse { path, source } => ConfigErrorV::Parse {
                path: path@,
                source: source@,
            },
            ConfigError::Invalid(source) => ConfigErrorV::Invalid(source@),
        }
    }
}

/// The message that a configuration error shows.
pub open spec fn config_error_text(error: ConfigErrorV) -> Seq<char> {
    match error {
        ConfigErrorV::Read { path, source } => "failed to read configuration "@ + path + ": "@
            + source,
        ConfigErrorV::Parse { path, source } => "invalid configuration "@ + path + ": "@ + source,
        ConfigErrorV::Invalid(source) => "merged configuration is invalid: "@ + source,
    }
}

impl ConfigError {
    /// The message that this error shows.
    pub fn describe(&self) -> (message: String)
        ensures
            message@ == config_error_text(self@),
    {
        match self {
            ConfigError::Read { path, source } => cat4(
                "failed to read configuration ",
                path.as_str(),
                ": ",
                source.as_str(),
            ),
            ConfigError::Parse { path, source } => cat4(
                "invalid configuration ",
                path.as_str(),
                ": ",
                source.as_str(),
            ),
            ConfigError::Invalid(source) => cat2(
                "merged configuration is invalid: ",
                source.as_str(),
            ),
        }
    }
}

/// One value over another: where both are objects their entries are merged key by key, else the
/// upper one stands.
pub open spec fn merged(target: JsonV, source: JsonV) -> JsonV
    decreases source,
{
    match (target, source) {
        (JsonV::Object(t), JsonV::Object(s)) => JsonV::Object(
            Map::new(
                |k: Seq<char>| t.dom().contains(k) || s.dom().contains(k),
                |k: Seq<char>|
                    if s.dom().contains(k) {
                        merged(target.at(k), s[k])
                    } else {
                        t[k]
                    },
            ),
        ),
        _ => source,
    }
}

/// Whether entry `i` is the last one with its key.
pub open spec fn is_last(entries: Seq<(String, Json)>, i: int) -> bool {
    forall|j: int| i < j < entries.len() ==> #[trigger] entries[j].0@ != entries[i].0@
}

/// Whether the entry that counts for `key` is among the first `n`.
pub open spec fn settled(entries: Seq<(String, Json)>, n: int, key: Seq<char>) -> bool {
    exists|i: int| 0 <= i < n && #[trigger] entries[i].0@ == key && is_last(entries, i)
}

proof fn lemma_last_exists(entries: Seq<(String, Json)>, i: int)
    requires
        0 <= i < entries.len(),
    ensures
        settled(entries, entries.len() as int, entries[i].0@),
    decreases entries.len() - i,
{
    if is_last(entries, i) {
    } else {
        let j = choose|j: int| i < j < entries.len() && #[trigger] entries[j].0@ == entries[i].0@;
        lemma_last_exists(entries, j);
    }
}

/// Merges the entries of an object into those of another.
fn merge_entries(target: &mut Vec<(String, Json)>, source: &Vec<(String, Json)>)
    ensures
        JsonV::Object(json::entries_view(final(target)@)) == merged(
            JsonV::Object(json::entries_view(old(target)@)),
            JsonV::Object(json::entries_view(source@)),
        ),
    decreases JsonV::Object(json::entries_view(source@)), 0nat,
{
    let ghost below = JsonV::Object(json::entries_view(target@));
    let ghost above = JsonV::Object(json::entries_view(source@));
    let ghost t = json::entries_view(target@);
    let ghost s = json::entries_view(source@);
    for i in 0..source.len()
        invariant
            below == JsonV::Object(t),
            above == JsonV::Object(s),
            s == json::entries_view(source@),
            forall|k: Seq<char>| #[trigger]
                json::entries_view(target@).dom().contains(k) <==> t.dom().contains(k) || settled(
                    source@,
                    i as int,
                    k,
                ),
            forall|k: Seq<char>| #[trigger]
                json::entries_view(target@).dom().contains(k) ==> json::entries_view(target@)[k]
                    == if settled(source@, i as int, k) {
                    merged(below.at(k), s[k])
                } else {
                    t[k]
                },
    {
        let ghost before = json::entries_view(target@);
        let ghost key = source@[i as int].0@;
        let counts = match find_entry(source, source[i].0.as_str()) {
            Some(last) => last == i,
            None => false,
        };
        if counts {
            assert(is_last(source@, i as int));
            proof {
                json::lemma_last_entry_counts(source@, i as int);
                json::lemma_entries_keys(source@);
                assert(!settled(source@, i as int, key)) by {
                    if settled(source@, i as int, key) {
                        let j = choose|j: int|
                            0 <= j < i && #[trigger] source@[j].0@ == key && is_last(source@, j);
                        assert(source@[i as int].0@ != source@[j].0@);
                    }
                }
                assert(decreases_to!(above => above->Object_0));
                assert(decreases_to!(above->Object_0 => above->Object_0[key]));
            }
            let mut slot = match find_entry(target, source[i].0.as_str()) {
                Some(at) => target[at].1.clone(),
                None => Json::Null,
            };
            assert(slot@ == below.at(key));
            merge_from(&mut slot, &source[i].1);
            put(target, source[i].0.as_str(), slot);
            assert(source@[i as int].0@ == key);
            assert forall|k: Seq<char>| settled(source@, i + 1, k) <==> settled(
                source@,
                i as int,
                k,
            ) || k == key by {
                if settled(source@, i + 1, k) && k != key {
                    let j = choose|j: int|
                        0 <= j < i + 1 && #[trigger] source@[j].0@ == k && is_last(source@, j);
                    assert(j < i);
                }
                if settled(source@, i as int, k) {
                    let j = choose|j: int|
                        0 <= j < i && #[trigger] source@[j].0@ == k && is_last(source@, j);
                    assert(j < i + 1);
                }
            }
        } else {
            assert(!is_last(source@, i as int)) by {
                json::lemma_entries_keys(source@);
            }
            assert forall|k: Seq<char>| settled(source@, i + 1, k) <==> settled(
                source@,
                i as int,
                k,
            ) by {
                if settled(source@, i + 1, k) {
                    let j = choose|j: int|
                        0 <= j < i + 1 && #[trigger] source@[j].0@ == k && is_last(source@, j);
                    assert(j < i);
                }
                if settled(source@, i as int, k) {
                    let j = choose|j: int|
                        0 <= j < i && #[trigger] source@[j].0@ == k && is_last(source@, j);
                    assert(j < i + 1);
                }
            }
        }
    }
    proof {
        json::lemma_entries_keys(source@);
        assert forall|k: Seq<char>| settled(source@, source.len() as int, k)
            <==> s.dom().contains(k) by {
            if s.dom().contains(k) {
                let j = choose|j: int| 0 <= j < source.len() && source@[j].0@ == k;
                lemma_last_exists(source@, j);
            }
        }
        assert(json::entries_view(target@) == merged(below, above)->Object_0);
    }
}

fn merge_from(target: &mut Json, source: &Json)
    ensures
        final(target)@ == merged(old(target)@, source@),
    decreases source@, 1nat,
{
    let mut held = Json::Null;
    std::mem::swap(target, &mut held);
    match (held, source) {
        (Json::Object(entries), Json::Object(over)) => {
            let mut entries = entries;
            merge_entries(&mut entries, over);
            *target = Json::Object(entries);
        },
        _ => {
            *target = source.clone();
        },
    }
}

/// Merges a value over another one.
pub fn merge_value(target: &mut Json, source: Json)
    ensures
        final(target)@ == merged(old(target)@, source@),
{
    merge_from(target, &source);
}

/// What reading a configuration file gave.
#[derive(Debug, Clone, PartialEq, Eq)]
pub enum ConfigFile {
    Missing,
    Content(String),
    Unreadable(String),
}

/// A configuration file and what reading it gave.
#[derive(Debug, Clone, PartialEq, Eq)]
pub struct ConfigLayer {
    pub path: String,
    pub file: ConfigFile,
}

/// A value with a file's content merged over it; a file that is missing changes nothing.
pub open spec fn layered(value: JsonV, layer: ConfigLayer) -> Result<JsonV, ConfigErrorV> {
    match layer.file {
        ConfigFile::Missing => Ok(value),
        ConfigFile::Unreadable(source) => Err(
            ConfigErrorV::Read { path: layer.path@, source: source@ },
        ),
        ConfigFile::Content(content) => match json::json_of_text(content@) {
            Ok(over) => Ok(merged(value, over)),
            Err(source) => Err(ConfigErrorV::Parse { path: layer.path@, source }),
        },
    }
}

/// What a step of loading says.
pub open spec fn load_result(result: Result<(), ConfigError>, value: JsonV) -> Result<
    JsonV,
    ConfigErrorV,
> {
    match result {
        Ok(()) => Ok(value),
        Err(error) => Err(error@),
    }
}

/// Merges a configuration file over a value.
pub fn merge_file(target: &mut Json, layer: ConfigLayer) -> (result: Result<(), ConfigError>)
    ensures
        load_result(result, final(target)@) == layered(old(target)@, layer),
        result is Err ==> final(target)@ == old(target)@,
{
    match layer.file {
        ConfigFile::Missing => Ok(()),
        ConfigFile::Unreadable(source) => Err(ConfigError::Read { path: layer.path, source }),
        ConfigFile::Content(content) => match parse(content.as_str()) {
            Ok(over) => {
                merge_value(target, over);
                Ok(())
            },
            Err(source) => Err(ConfigError::Parse { path: layer.path, source }),
        },
    }
}

/// A value with something put under a key; null counts as an empty object.
pub open spec fn with_key(value: JsonV, key: Seq<char>, entry: JsonV) -> JsonV {
    match value {
        JsonV::Object(m) => JsonV::Object(m.insert(key, entry)),
        _ => JsonV::Object(map![key => entry]),
    }
}

/// A value with what the command line sets put over it.
pub open spec fn overridden(value: JsonV, overrides: ConfigOverrides) -> JsonV {
    let value = match overrides.provider {
        Some(provider) => with_key(value, "provider"@, JsonV::Text(provider_name(provider))),
        None => value,
    };
    let value = match overrides.model {
        Some(model) => with_key(value, "model"@, JsonV::Text(model@)),
        None => value,
    };
    match overrides.max_turns {
        Some(turns) => with_key(value, "maxTurns"@, json::unsigned_json(turns as u64)),
        None => value,
    }
}

/// Whether keys can be set on a value.
pub open spec fn takes_keys(value: JsonV) -> bool {
    value is Object || value is Null
}

/// Whether the command line sets anything.
pub open spec fn sets_anything(overrides: ConfigOverrides) -> bool {
    overrides.provider is Some || overrides.model is Some || overrides.max_turns is Some
}

/// Puts something under a key of an object.
fn set_key(value: &mut Json, key: &str, entry: Json)
    requires
        takes_keys(old(value)@),
    ensures
        final(value)@ == with_key(old(value)@, key@, entry@),
{
    let mut held = Json::Null;
    std::mem::swap(value, &mut held);
    let mut entries: Vec<(String, Json)> = match held {
        Json::Object(entries) => entries,
        _ => Vec::new(),
    };
    put(&mut entries, key, entry);
    *value = Json::Object(entries);
}

/// Puts what the command line sets over a value.
pub fn apply_overrides(value: &mut Json, overrides: ConfigOverrides)
    requires
        sets_anything(overrides) ==> takes_keys(old(value)@),
    ensures
        final(value)@ == overridden(old(value)@, overrides),
{
    if let Some(provider) = overrides.provider {
        set_key(value, "provider", Json::text(provider.name()));
    }
    if let Some(model) = overrides.model {
        set_key(value, "model", Json::Text(model));
    }
    if let Some(turns) = overrides.max_turns {
        set_key(value, "maxTurns", Json::unsigned(turns as u64));
    }
}

/// The files of a configuration over its defaults: the global one, where there is a home to look
/// for it in, and the project's over that.
pub open spec fn files_merged(
    defaults: JsonV,
    global: Option<ConfigLayer>,
    project: ConfigLayer,
) -> Result<JsonV, ConfigErrorV> {
    let below = match global {
        Some(layer) => layered(defaults, layer),
        None => Ok(defaults),
    };
    match below {
        Ok(value) => layered(value, project),
        Err(error) => Err(error),
    }
}

/// What loading a configuration gives.
pub open spec fn loaded(config: Result<Option<Json>, ConfigError>) -> Result<
    Option<JsonV>,
    ConfigErrorV,
> {
    match config {
        Ok(Some(value)) => Ok(Some(value@)),
        Ok(None) => Ok(None),
        Err(error) => Err(error@),
    }
}

/// Loads a configuration: the defaults, the global file, the project file and the command line, each
/// over the ones before. `None` where a file replaced everything by something that is no object and
/// the command line sets a key of it.
pub fn load_config(
    defaults: Json,
    global: Option<ConfigLayer>,
    project: ConfigLayer,
    overrides: ConfigOverrides,
) -> (config: Result<Option<Json>, ConfigError>)
    ensures
        loaded(config) == (match files_merged(defaults@, global, project) {
            Err(error) => Err(error),
            Ok(value) => Ok(
                if sets_anything(overrides) && !takes_keys(value) {
                    None
                } else {
                    Some(overridden(value, overrides))
                },
            ),
        }),
{
    let mut value = defaults;
    if let Some(layer) = global {
        if let Err(error) = merge_file(&mut value, layer) {
            return Err(error);
        }
    }
    if let Err(error) = merge_file(&mut value, project) {
        return Err(error);
    }
    let sets = overrides.provider.is_some() || overrides.model.is_some()
        || overrides.max_turns.is_some();
    if sets && !matches!(value, Json::Object(_) | Json::Null) {
        return Ok(None);
    }
    apply_overrides(&mut value, overrides);
    Ok(Some(value))
}

/// The value that a path of keys leads to.
pub open spec fn follow(value: JsonV, path: Seq<Seq<char>>) -> Option<JsonV>
    decreases path.len(),
{
    if path.len() == 0 {
        Some(value)
    } else {
        match value.get(path[0]) {
            Some(inner) => follow(inner, path.drop_first()),
            None => None,
        }
    }
}

/// Whether a path of keys comes to a key that an object does not have.
pub open spec fn lacks(value: JsonV, path: Seq<Seq<char>>) -> bool
    decreases path.len(),
{
    path.len() > 0 && match value {
        JsonV::Object(m) => !m.dom().contains(path[0]) || lacks(m[path[0]], path.drop_first()),
        _ => false,
    }
}

/// A later layer wins: what it sets to anything but an object, the merged value has, however deep.
pub proof fn law_later_layer_wins(target: JsonV, source: JsonV, path: Seq<Seq<char>>, leaf: JsonV)
    requires
        follow(source, path) == Some(leaf),
        !(leaf is Object),
    ensures
        follow(merged(target, source), path) == Some(leaf),
    decreases path.len(),
{
    if path.len() > 0 && target is Object {
        let key = path[0];
        law_later_layer_wins(target.at(key), source->Object_0[key], path.drop_first(), leaf);
        assert(merged(target, source)->Object_0.dom().contains(key));
    }
}

/// A layer that does not mention a setting leaves it as it is, however deep.
pub proof fn law_unmentioned_settings_stay(
    target: JsonV,
    source: JsonV,
    path: Seq<Seq<char>>,
    value: JsonV,
)
    requires
        follow(target, path) == Some(value),
        lacks(source, path),
    ensures
        follow(merged(target, source), path) == Some(value),
    decreases path.len(),
{
    let key = path[0];
    assert(merged(target, source)->Object_0.dom().contains(key));
    if source->Object_0.dom().contains(key) {
        law_unmentioned_settings_stay(
            target->Object_0[key],
            source->Object_0[key],
            path.drop_first(),
            value,
        );
    }
}

/// The command line wins over every file, and leaves every other setting alone.
pub proof fn law_command_line_wins(value: JsonV, overrides: ConfigOverrides, key: Seq<char>)
    requires
        takes_keys(value),
    ensures
        ({
            let config = overridden(value, overrides);
            &&& overrides.provider matches Some(p) ==> config.get("provider"@) == Some(
                JsonV::Text(provider_name(p)),
            )
            &&& overrides.model matches Some(m) ==> config.get("model"@) == Some(JsonV::Text(m@))
            &&& overrides.max_turns matches Some(n) ==> config.get("maxTurns"@) == Some(
                json::unsigned_json(n as u64),
            )
            &&& key != "provider"@ && key != "model"@ && key != "maxTurns"@ ==> config.get(key)
                == value.get(key)
        }),
{
    reveal_strlit("provider");
    reveal_strlit("model");
    reveal_strlit("maxTurns");
    assert("provider"@.len() == 8 && "model"@.len() == 5 && "maxTurns"@.len() == 8);
    assert("provider"@[0] == 'p' && "maxTurns"@[0] == 'm');
    assert("provider"@ != "model"@);
    assert("provider"@ != "maxTurns"@);
    assert("model"@ != "maxTurns"@);
}

/// Whether a file holds this value.
pub open spec fn says(layer: ConfigLayer, value: JsonV) -> bool {
    layer.file matches ConfigFile::Content(content) && json::json_of_text(content@) == Ok::<
        JsonV,
        Seq<char>,
    >(value)
}

/// Project values win over global values, and both over the defaults: a setting is what the project
/// sets it to, else what the global file sets it to, else its default.
pub proof fn law_project_wins_over_global(
    defaults: JsonV,
    global: ConfigLayer,
    project: ConfigLayer,
    outer: JsonV,
    inner: JsonV,
    path: Seq<Seq<char>>,
    leaf: JsonV,
)
    ensures
        says(global, outer) && says(project, inner) && !(leaf is Object) ==> {
            &&& files_merged(defaults, Some(global), project) matches Ok(config) && {
                &&& follow(inner, path) == Some(leaf) ==> follow(config, path) == Some(leaf)
                &&& follow(outer, path) == Some(leaf) && lacks(inner, path) ==> follow(config, path)
                    == Some(leaf)
                &&& follow(defaults, path) == Some(leaf) && lacks(outer, path) && lacks(inner, path)
                    ==> follow(config, path) == Some(leaf)
            }
        },
{
    let below = merged(defaults, outer);
    if !(leaf is Object) {
        if follow(inner, path) == Some(leaf) {
            law_later_layer_wins(below, inner, path, leaf);
        }
        if lacks(inner, path) {
            if follow(outer, path) == Some(leaf) {
                law_later_layer_wins(defaults, outer, path, leaf);
                law_unmentioned_settings_stay(below, inner, path, leaf);
            }
            if lacks(outer, path) && follow(defaults, path) == Some(leaf) {
                law_unmentioned_settings_stay(defaults, outer, path, leaf);
                law_unmentioned_settings_stay(below, inner, path, leaf);
            }
        }
    }
}

/// Merging a layer twice is merging it once.
pub proof fn law_merge_is_idempotent(target: JsonV, source: JsonV)
    ensures
        merged(merged(target, source), source) == merged(target, source),
    decreases source,
{
    match (target, source) {
        (JsonV::Object(t), JsonV::Object(s)) => {
            let once = merged(target, source);
            let twice = merged(once, source);
            assert forall|k: Seq<char>| once->Object_0.dom().contains(k) implies twice->Object_0[k]
                == once->Object_0[k] by {
                if s.dom().contains(k) {
                    law_merge_is_idempotent(target.at(k), s[k]);
                }
            }
            assert(twice->Object_0 == once->Object_0);
        },
        (_, JsonV::Object(s)) => {
            assert forall|k: Seq<char>| s.dom().contains(k) implies merged(source, source)->Object_0[k]
                == s[k] by {
                law_merge_is_idempotent(JsonV::Null, s[k]);
            }
            assert(merged(source, source)->Object_0 == s);
        },
        _ => {},
    }
}

/// Merging goes key by key: under each key that the upper object has stands its value merged over
/// what was there, every other key keeps what it had, and no key comes from anywhere else. What is
/// no object on either side is replaced whole.
pub proof fn law_merging_goes_key_by_key(target: JsonV, source: JsonV, key: Seq<char>)
    ensures
        !(target is Object) || !(source is Object) ==> merged(target, source) == source,
        target is Object && source is Object ==> {
            &&& merged(target, source) is Object
            &&& source.get(key) is None ==> merged(target, source).get(key) == target.get(key)
            &&& source.get(key) matches Some(over) ==> (merged(target, source).get(
                key,
            ) matches Some(found) && {
                &&& target.get(key) matches Some(under) ==> found == merged(under, over)
                &&& target.get(key) is None ==> found == over
            })
        },
{
    reveal_with_fuel(merged, 2);
    if target is Object && source is Object {
        assert(merged(target, source)->Object_0.dom().contains(key) == (
        target->Object_0.dom().contains(key) || source->Object_0.dom().contains(key)));
    }
}

/// A file is merged over what it is a layer of; one that is missing changes nothing, and one that
/// cannot be read or is no JSON is an error that names it.
pub proof fn law_files_are_layers(value: JsonV, layer: ConfigLayer)
    ensures
        layer.file is Missing ==> layered(value, layer) == Ok::<JsonV, ConfigErrorV>(value),
        layer.file matches ConfigFile::Unreadable(source) ==> layered(value, layer) == Err::<
            JsonV,
            ConfigErrorV,
        >(ConfigErrorV::Read { path: layer.path@, source: source@ }),
        layer.file matches ConfigFile::Content(content) ==> match json::json_of_text(content@) {
            Ok(over) => layered(value, layer) == Ok::<JsonV, ConfigErrorV>(merged(value, over)),
            Err(source) => layered(value, layer) == Err::<JsonV, ConfigErrorV>(
                ConfigErrorV::Parse { path: layer.path@, source },
            ),
        },
{
}

/// The layers of a configuration lie in order: the project's over the global one, where there is
/// such, over the defaults; the first that fails is the error.
pub proof fn law_layers_lie_in_order(
    defaults: JsonV,
    global: ConfigLayer,
    project: ConfigLayer,
)
    ensures
        files_merged(defaults, None, project) == layered(defaults, project),
        layered(defaults, global) matches Err(error) ==> files_merged(
            defaults,
            Some(global),
            project,
        ) == Err::<JsonV, ConfigErrorV>(error),
        layered(defaults, global) matches Ok(below) ==> files_merged(
            defaults,
            Some(global),
            project,
        ) == layered(below, project),
{
}

/// Where the command line sets nothing, a configuration stays as it is.
pub proof fn law_nothing_set_changes_nothing(value: JsonV, overrides: ConfigOverrides)
    requires
        overrides.provider is None,
        overrides.model is None,
        overrides.max_turns is None,
    ensures
        overridden(value, overrides) == value,
        !sets_anything(overrides),
{
}

/// No two providers have the same name.
pub proof fn law_provider_names_differ(a: Provider, b: Provider)
    ensures
        provider_name(a) == provider_name(b) <==> a == b,
{
    reveal_strlit("openai");
    reveal_strlit("anthropic");
    reveal_strlit("ollama");
    reveal_strlit("openai-compatible");
    assert("openai"@.len() == 6 && "anthropic"@.len() == 9 && "ollama"@.len() == 6
        && "openai-compatible"@.len() == 17);
    assert("openai"@[1] == 'p' && "ollama"@[1] == 'l');
}

/// A configuration error shows the file that it is about and what is wrong with it.
pub proof fn law_config_errors_show_what_they_know(path: Seq<char>, source: Seq<char>)
    ensures
        source.is_suffix_of(config_error_text(ConfigErrorV::Read { path, source })),
        source.is_suffix_of(config_error_text(ConfigErrorV::Parse { path, source })),
        source.is_suffix_of(config_error_text(ConfigErrorV::Invalid(source))),
        ("failed to read configuration "@ + path).is_prefix_of(
            config_error_text(ConfigErrorV::Read { path, source }),
        ),
        ("invalid configuration "@ + path).is_prefix_of(
            config_error_text(ConfigErrorV::Parse { path, source }),
        ),
{
    let read = config_error_text(ConfigErrorV::Read { path, source });
    let parse = config_error_text(ConfigErrorV::Parse { path, source });
    let invalid = config_error_text(ConfigErrorV::Invalid(source));
    let front = "failed to read configuration "@ + path;
    let other = "invalid configuration "@ + path;
    assert(source == read.subrange(read.len() - source.len(), read.len() as int));
    assert(source == parse.subrange(parse.len() - source.len(), parse.len() as int));
    assert(source == invalid.subrange(invalid.len() - source.len(), invalid.len() as int));
    assert(front == read.take(front.len() as int));
    assert(other == parse.take(other.len() as int));
}

} // verus!
