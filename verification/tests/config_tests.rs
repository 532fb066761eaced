use dropsync::config::get_app_config_bool;
use dropsync::config::get_optional_app_config_str;
use dropsync::config::join_path;
use dropsync::config::load_config;
use dropsync::config::maybe_join_paths;
use dropsync::config::normalize_path_slashes;
use dropsync::config::ConfigError;
use dropsync::config::ConfigValue;

fn entry(key: &str, value: ConfigValue) -> (String, ConfigValue) {
    (key.to_owned(), value)
}

fn s(text: &str) -> ConfigValue {
    ConfigValue::Str(text.to_owned())
}

#[test]
fn test_load_config_reads_apps_with_host_overrides() {
    let app1 = ConfigValue::Table(vec![
        entry(
            "my_first_computer",
            ConfigValue::Table(vec![entry("path", s("C:\\myapp1\\stuff"))]),
        ),
        entry("dropbox_path", s("MyAppData/app1")),
    ]);
    let app2 = ConfigValue::Table(vec![
        entry("path", s("F:\\myapp2\\stuff")),
        entry("dropbox_path", s("MyAppData/app2")),
        entry("disabled", ConfigValue::Bool(true)),
    ]);
    let config = ConfigValue::Table(vec![entry("app1", app1), entry("app2", app2)]);

    let loaded = load_config("my_first_computer", &config, ".", '\\').unwrap();
    assert_eq!(loaded.len(), 2);

    assert_eq!(loaded[0].0, "app1");
    let c1 = &loaded[0].1;
    assert_eq!(c1.name, "app1");
    assert_eq!(c1.path, "C:\\myapp1\\stuff");
    assert_eq!(c1.dropbox_path, ".\\MyAppData\\app1");
    assert!(!c1.disabled);
    assert_eq!(c1.play_path, None);
    assert_eq!(c1.play_watch_dir, None);

    let c2 = &loaded[1].1;
    assert_eq!(c2.name, "app2");
    assert_eq!(c2.path, "F:\\myapp2\\stuff");
    assert_eq!(c2.dropbox_path, ".\\MyAppData\\app2");
    assert!(c2.disabled);
}

#[test]
fn test_load_config_play_settings() {
    let app = ConfigValue::Table(vec![
        entry("path", s("/data/app")),
        entry("dropbox_path", s("Apps/app")),
        entry("play_root_path", s("/games/app")),
        entry("play_path", s("bin/run")),
    ]);
    let config = ConfigValue::Table(vec![entry("app", app)]);

    let loaded = load_config("anyhost", &config, "/home/me/Dropbox", '/').unwrap();
    let c = &loaded[0].1;
    assert_eq!(c.dropbox_path, "/home/me/Dropbox/Apps/app");
    assert_eq!(c.play_watch_dir, Some("/games/app".to_owned()));
    assert_eq!(c.play_path, Some("/games/app/bin/run".to_owned()));
}

#[test]
fn test_load_config_missing_path_names_the_first_bad_app() {
    let good = ConfigValue::Table(vec![
        entry("path", s("/data/good")),
        entry("dropbox_path", s("Apps/good")),
    ]);
    let bad = ConfigValue::Table(vec![entry("dropbox_path", s("Apps/bad"))]);
    let config = ConfigValue::Table(vec![entry("good", good), entry("bad", bad)]);

    match load_config("host", &config, ".", '/') {
        Err(ConfigError::MissingKey { key, app, hostname }) => {
            assert_eq!(key, "path");
            assert_eq!(app, "bad");
            assert_eq!(hostname, "host");
        }
        other => panic!("expected a missing key error, got {:?}", other.is_ok()),
    }
}

#[test]
fn test_load_config_missing_dropbox_path() {
    let bad = ConfigValue::Table(vec![entry("path", s("/data/bad"))]);
    let config = ConfigValue::Table(vec![entry("bad", bad)]);

    match load_config("host", &config, ".", '/') {
        Err(ConfigError::MissingKey { key, .. }) => assert_eq!(key, "dropbox_path"),
        _ => panic!("expected a missing key error"),
    }
}

#[test]
fn test_load_config_rejects_a_non_table_top_level() {
    let config = s("just a string");
    match load_config("host", &config, ".", '/') {
        Err(ConfigError::NotATable) => {}
        _ => panic!("expected the top-level shape error"),
    }
}

#[test]
fn test_host_override_beats_the_direct_setting() {
    let app = ConfigValue::Table(vec![
        entry("path", s("/generic")),
        entry(
            "thishost",
            ConfigValue::Table(vec![
                entry("path", s("/override")),
                entry("disabled", ConfigValue::Bool(true)),
            ]),
        ),
        entry("dropbox_path", s("Apps/app")),
    ]);

    assert_eq!(
        get_optional_app_config_str(&app, "thishost", "path"),
        Some("/override".to_owned())
    );
    assert_eq!(
        get_optional_app_config_str(&app, "otherhost", "path"),
        Some("/generic".to_owned())
    );
    assert_eq!(get_optional_app_config_str(&app, "thishost", "nope"), None);
    assert!(get_app_config_bool(&app, "thishost", "disabled", false));
    assert!(!get_app_config_bool(&app, "otherhost", "disabled", false));
    assert!(get_app_config_bool(&app, "otherhost", "missing", true));
}

#[test]
fn test_path_text_helpers() {
    assert_eq!(normalize_path_slashes("a/b/c", '\\'), "a\\b\\c");
    assert_eq!(normalize_path_slashes("plain", '\\'), "plain");
    assert_eq!(normalize_path_slashes("", '\\'), "");

    assert_eq!(join_path("root", "rel", '/'), "root/rel");
    assert_eq!(join_path("root/", "rel", '/'), "root/rel");
    assert_eq!(join_path("root", "/abs", '/'), "/abs");
    assert_eq!(join_path("", "rel", '/'), "rel");
    assert_eq!(join_path("root", "", '/'), "root");

    assert_eq!(maybe_join_paths(&Some("root".to_owned()), "rel", '/'), "root/rel");
    assert_eq!(maybe_join_paths(&None, "rel", '/'), "rel");
}
