use vstd::prelude::*;
use vstd::string::StringExecFns;

use crate::util::push_char;
use crate::util::str_eq;

verus! {

/// A configuration value as the loader reads it. Only strings, booleans and
/// tables bear on app configuration; a value of any other kind is carried as
/// opaque and never matches a lookup.
pub enum ConfigValue {
    Str(String),
    Bool(bool),
    Table(Vec<(String, ConfigValue)>),
    Other,
}

/// One application's sync configuration: where its data lives, where its
/// mirror lives, and how the play workflow should treat it.
pub struct AppConfig {
    pub name: String,
    pub path: String,
    pub play_watch_dir: Option<String>,
    pub play_path: Option<String>,
    pub dropbox_path: String,
    pub disabled: bool,
}

/// Why a configuration cannot be loaded.
#[derive(Debug)]
pub enum ConfigError {
    /// The top-level value of a config file must be a table.
    NotATable,
    /// A required key is missing for an app under the given hostname.
    MissingKey { key: String, app: String, hostname: String },
}

/// The value stored under the first entry of a table bearing the given key.
pub open spec fn table_lookup(entries: Seq<(String, ConfigValue)>, key: Seq<char>) -> Option<
    ConfigValue,
>
    decreases entries.len(),
{
    if entries.len() == 0 {
        None
    } else if entries.first().0@ == key {
        Some(entries.first().1)
    } else {
        table_lookup(entries.drop_first(), key)
    }
}

/// A lookup on a configuration value: tables yield their entry, everything
/// else yields nothing.
pub open spec fn spec_value_get(config: ConfigValue, key: Seq<char>) -> Option<ConfigValue> {
    match config {
        ConfigValue::Table(entries) => table_lookup(entries@, key),
        _ => None,
    }
}

/// The entries of a table value.
pub open spec fn spec_table_entries(config: ConfigValue) -> Option<Seq<(String, ConfigValue)>> {
    match config {
        ConfigValue::Table(entries) => Some(entries@),
        _ => None,
    }
}

/// A string setting with host override: a string under the key inside the
/// table named after the host wins; otherwise a string directly under the
/// key counts; anything else is no setting.
pub open spec fn spec_get_optional_str(
    config: ConfigValue,
    hostname: Seq<char>,
    key: Seq<char>,
) -> Option<Seq<char>> {
    let from_host = match spec_value_get(config, hostname) {
        Some(host_value) => match spec_value_get(host_value, key) {
            Some(ConfigValue::Str(s)) => Some(s@),
            _ => None,
        },
        None => None,
    };
    match from_host {
        Some(s) => Some(s),
        None => match spec_value_get(config, key) {
            Some(ConfigValue::Str(s)) => Some(s@),
            _ => None,
        },
    }
}

/// A boolean setting with host override, falling back to a default.
pub open spec fn spec_get_bool(
    config: ConfigValue,
    hostname: Seq<char>,
    key: Seq<char>,
    default: bool,
) -> bool {
    let from_host = match spec_value_get(config, hostname) {
        Some(host_value) => match spec_value_get(host_value, key) {
            Some(ConfigValue::Bool(b)) => Some(b),
            _ => None,
        },
        None => None,
    };
    match from_host {
        Some(b) => b,
        None => match spec_value_get(config, key) {
            Some(ConfigValue::Bool(b)) => b,
            _ => default,
        },
    }
}

fn value_get<'a>(config: &'a ConfigValue, key: &str) -> (r: Option<&'a ConfigValue>)
    ensures
        match r {
            Some(v) => spec_value_get(*config, key@) == Some(*v),
            None => spec_value_get(*config, key@) is None,
        },
{
    match config {
        ConfigValue::Table(entries) => {
            proof {
                assert(spec_value_get(*config, key@) == table_lookup(entries@, key@));
                assert(entries@.skip(0) =~= entries@);
            }
            let mut i: usize = 0;
            while i < entries.len()
                invariant
                    i <= entries@.len(),
                    spec_value_get(*config, key@) == table_lookup(entries@, key@),
                    table_lookup(entries@, key@) == table_lookup(
                        entries@.skip(i as int),
                        key@,
                    ),
                decreases entries@.len() - i,
            {
                proof {
                    assert(entries@.skip(i as int)[0] == entries@[i as int]);
                }
                if str_eq(entries[i].0.as_str(), key) {
                    proof {
                        assert(table_lookup(entries@.skip(i as int), key@) == Some(
                            entries@[i as int].1,
                        ));
                    }
                    return Some(&entries[i].1);
                }
                proof {
                    assert(entries@.skip(i as int).drop_first() =~= entries@.skip(i as int + 1));
                }
                i += 1;
            }
            proof {
                assert(entries@.skip(i as int) =~= Seq::<(String, ConfigValue)>::empty());
            }
            None
        },
        _ => None,
    }
}

/// The string setting stored under a key, host overrides honoured.
pub fn get_optional_app_config_str(config: &ConfigValue, hostname: &str, key: &str) -> (r:
    Option<String>)
    ensures
        match r {
            Some(s) => spec_get_optional_str(*config, hostname@, key@) == Some(s@),
            None => spec_get_optional_str(*config, hostname@, key@) is None,
        },
{
    match value_get(config, hostname) {
        Some(host_value) => {
            match value_get(host_value, key) {
                Some(ConfigValue::Str(s)) => {
                    return Some(s.clone());
                },
                _ => {},
            }
        },
        None => {},
    }
    match value_get(config, key) {
        Some(ConfigValue::Str(s)) => Some(s.clone()),
        _ => None,
    }
}

/// The boolean setting stored under a key, host overrides honoured, with a
/// default for when no such setting stands anywhere.
pub fn get_app_config_bool(config: &ConfigValue, hostname: &str, key: &str, default: bool) -> (r:
    bool)
    ensures
        r == spec_get_bool(*config, hostname@, key@, default),
{
    match value_get(config, hostname) {
        Some(host_value) => {
            match value_get(host_value, key) {
                Some(ConfigValue::Bool(b)) => {
                    return *b;
                },
                _ => {},
            }
        },
        None => {},
    }
    match value_get(config, key) {
        Some(ConfigValue::Bool(b)) => *b,
        _ => default,
    }
}

/// A path text with every forward slash replaced by the platform's
/// separator.
pub open spec fn spec_normalize_slashes(path: Seq<char>, separator: char) -> Seq<char> {
    path.map_values(
        |c: char|
            if c == '/' {
                separator
            } else {
                c
            },
    )
}

/// Replaces every forward slash in a path text by the given separator.
pub fn normalize_path_slashes(path: &str, separator: char) -> (r: String)
    ensures
        r@ == spec_normalize_slashes(path@, separator),
{
    let n = path.unicode_len();
    let mut out = String::new();
    let mut i: usize = 0;
    while i < n
        invariant
            n == path@.len(),
            i <= n,
            out@ == spec_normalize_slashes(path@.take(i as int), separator),
        decreases n - i,
    {
        let c = path.get_char(i);
        let mapped: char = if c == '/' {
            separator
        } else {
            c
        };
        push_char(&mut out, mapped);
        proof {
            assert(out@ =~= spec_normalize_slashes(path@.take(i as int + 1), separator));
        }
        i += 1;
    }
    proof {
        assert(path@.take(n as int) =~= path@);
    }
    out
}

/// Two path texts joined with a separator. An empty side yields the other
/// side unchanged; a relative part that already starts with the separator
/// stands alone, as an absolute path replaces the root it is joined to.
/// This is a model of joining path texts, not of an OS path type, and it
/// diverges from one in two corners: an empty relative part adds no trailing
/// separator, and only a part that starts with the separator counts as
/// absolute, so a drive-letter prefix does not.
pub open spec fn spec_join_path(root: Seq<char>, rel: Seq<char>, separator: char) -> Seq<char> {
    if root.len() == 0 {
        rel
    } else if rel.len() == 0 {
        root
    } else if rel[0] == separator {
        rel
    } else if root[root.len() - 1] == separator {
        root + rel
    } else {
        root.push(separator) + rel
    }
}

/// Joins two path texts with the given separator.
pub fn join_path(root: &str, rel: &str, separator: char) -> (r: String)
    ensures
        r@ == spec_join_path(root@, rel@, separator),
{
    if root.unicode_len() == 0 {
        return rel.to_owned();
    }
    if rel.unicode_len() == 0 {
        return root.to_owned();
    }
    if rel.get_char(0) == separator {
        return rel.to_owned();
    }
    let mut out = root.to_owned();
    if root.get_char(root.unicode_len() - 1) != separator {
        push_char(&mut out, separator);
    }
    out.append(rel);
    out
}

/// Joins a path text onto an optional root.
pub fn maybe_join_paths(first: &Option<String>, second: &str, separator: char) -> (r: String)
    ensures
        r@ == match *first {
            Some(root) => spec_join_path(root@, second@, separator),
            None => second@,
        },
{
    match first {
        Some(root) => join_path(root.as_str(), second, separator),
        None => second.to_owned(),
    }
}

/// The view of an optional string.
pub open spec fn opt_view(o: Option<String>) -> Option<Seq<char>> {
    match o {
        Some(s) => Some(s@),
        None => None,
    }
}

/// The required key an app's configuration lacks under the given hostname,
/// if it lacks one; the path is required before the mirror path.
pub open spec fn spec_entry_missing_key(app: ConfigValue, hostname: Seq<char>) -> Option<
    Seq<char>,
> {
    if spec_get_optional_str(app, hostname, "path"@) is None {
        Some("path"@)
    } else if spec_get_optional_str(app, hostname, "dropbox_path"@) is None {
        Some("dropbox_path"@)
    } else {
        None
    }
}

/// How a loaded app configuration relates to its table entry: the name is
/// the entry's key; the path is the required path setting; the mirror path
/// is the required mirror setting, slashes normalized, joined under the
/// mirror root; the disabled flag defaults to false; the watch directory is
/// the optional play root, kept verbatim; the play path is the optional play
/// setting, slashes normalized, joined onto the play root when one stands.
pub open spec fn spec_loaded_app(
    c: AppConfig,
    name: Seq<char>,
    app: ConfigValue,
    hostname: Seq<char>,
    root: Seq<char>,
    separator: char,
) -> bool {
    &&& c.name@ == name
    &&& Some(c.path@) == spec_get_optional_str(app, hostname, "path"@)
    &&& match spec_get_optional_str(app, hostname, "dropbox_path"@) {
        Some(rel) => c.dropbox_path@ == spec_join_path(
            root,
            spec_normalize_slashes(rel, separator),
            separator,
        ),
        None => false,
    }
    &&& c.disabled == spec_get_bool(app, hostname, "disabled"@, false)
    &&& opt_view(c.play_watch_dir) == spec_get_optional_str(app, hostname, "play_root_path"@)
    &&& opt_view(c.play_path) == match spec_get_optional_str(app, hostname, "play_path"@) {
        Some(pp) => Some(
            match spec_get_optional_str(app, hostname, "play_root_path"@) {
                Some(wd) => spec_join_path(wd, spec_normalize_slashes(pp, separator), separator),
                None => spec_normalize_slashes(pp, separator),
            },
        ),
        None => None,
    }
}

/// Loads every app's configuration from a parsed config table. The top-level
/// value must be a table of app tables; each app must carry a path and a
/// mirror path, under the hostname's override table or directly. The first
/// app that lacks one, in table order, names the error.
pub fn load_config(
    hostname: &str,
    config: &ConfigValue,
    root_dropbox_path: &str,
    separator: char,
) -> (r: Result<Vec<(String, AppConfig)>, ConfigError>)
    ensures
        match r {
            Ok(v) => {
                &&& spec_table_entries(*config) is Some
                &&& {
                    let entries = spec_table_entries(*config)->Some_0;
                    &&& v@.len() == entries.len()
                    &&& (forall|i: int|
                        0 <= i < entries.len() ==> spec_entry_missing_key(
                            (#[trigger] entries[i]).1,
                            hostname@,
                        ) is None)
                    &&& (forall|i: int|
                        0 <= i < entries.len() ==> (#[trigger] v@[i]).0@ == entries[i].0@
                            && spec_loaded_app(
                            v@[i].1,
                            entries[i].0@,
                            entries[i].1,
                            hostname@,
                            root_dropbox_path@,
                            separator,
                        ))
                }
            },
            Err(e) => match e {
                ConfigError::NotATable => spec_table_entries(*config) is None,
                ConfigError::MissingKey { key, app, hostname: h } => {
                    &&& spec_table_entries(*config) is Some
                    &&& h@ == hostname@
                    &&& exists|i: int|
                        #![trigger spec_table_entries(*config)->Some_0[i]]
                        {
                            &&& 0 <= i < spec_table_entries(*config)->Some_0.len()
                            &&& spec_table_entries(*config)->Some_0[i].0@ == app@
                            &&& spec_entry_missing_key(
                                spec_table_entries(*config)->Some_0[i].1,
                                hostname@,
                            ) == Some(key@)
                            &&& (forall|j: int|
                                0 <= j < i ==> (#[trigger] spec_entry_missing_key(
                                    spec_table_entries(*config)->Some_0[j].1,
                                    hostname@,
                                )) is None)
                        }
                },
            },
        },
{
    let entries = match config {
        ConfigValue::Table(entries) => entries,
        _ => {
            return Err(ConfigError::NotATable);
        },
    };
    let mut result: Vec<(String, AppConfig)> = Vec::new();
    let mut i: usize = 0;
    while i < entries.len()
        invariant
            spec_table_entries(*config) == Some(entries@),
            i <= entries@.len(),
            result@.len() == i,
            forall|j: int|
                0 <= j < i ==> spec_entry_missing_key(
                    (#[trigger] entries@[j]).1,
                    hostname@,
                ) is None,
            forall|j: int|
                0 <= j < i ==> (#[trigger] result@[j]).0@ == entries@[j].0@ && spec_loaded_app(
                    result@[j].1,
                    entries@[j].0@,
                    entries@[j].1,
                    hostname@,
                    root_dropbox_path@,
                    separator,
                ),
        decreases entries@.len() - i,
    {
        let name = &entries[i].0;
        let app_value = &entries[i].1;
        let path = match get_optional_app_config_str(app_value, hostname, "path") {
            Some(p) => p,
            None => {
                return Err(
                    ConfigError::MissingKey {
                        key: "path".to_owned(),
                        app: name.clone(),
                        hostname: hostname.to_owned(),
                    },
                );
            },
        };
        let dropbox_rel = match get_optional_app_config_str(app_value, hostname, "dropbox_path") {
            Some(p) => p,
            None => {
                return Err(
                    ConfigError::MissingKey {
                        key: "dropbox_path".to_owned(),
                        app: name.clone(),
                        hostname: hostname.to_owned(),
                    },
                );
            },
        };
        let norm_dropbox = normalize_path_slashes(dropbox_rel.as_str(), separator);
        let dropbox_path = join_path(root_dropbox_path, norm_dropbox.as_str(), separator);
        let disabled = get_app_config_bool(app_value, hostname, "disabled", false);
        let play_root = get_optional_app_config_str(app_value, hostname, "play_root_path");
        let play_path = match get_optional_app_config_str(app_value, hostname, "play_path") {
            Some(pp) => {
                let norm_pp = normalize_path_slashes(pp.as_str(), separator);
                Some(maybe_join_paths(&play_root, norm_pp.as_str(), separator))
            },
            None => None,
        };
        let cfg = AppConfig {
            name: name.clone(),
            path,
            play_watch_dir: play_root,
            play_path,
            dropbox_path,
            disabled,
        };
        let ghost prev = result@;
        result.push((name.clone(), cfg));
        proof {
            assert(result@.len() == prev.len() + 1);
            assert(forall|j: int| 0 <= j < prev.len() ==> #[trigger] prev[j] == result@[j]);
            assert(result@[prev.len() as int].0@ == entries@[i as int].0@);
            assert(spec_loaded_app(
                result@[prev.len() as int].1,
                entries@[i as int].0@,
                entries@[i as int].1,
                hostname@,
                root_dropbox_path@,
                separator,
            ));
        }
        i += 1;
    }
    Ok(result)
}

} // verus!
