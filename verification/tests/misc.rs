use jukebox::config::{AppConfig, ConfigError};
use jukebox::db::{file_uri, latest_migration, lf_line_endings, migrations, pending_migrations};
use jukebox::paths::{default_root_in, override_root, DataDir};

#[test]
fn migrations_still_needed_are_listed_oldest_first() {
    assert_eq!(latest_migration(), 10);
    assert_eq!(pending_migrations(&vec![], 3), vec![1, 2, 3]);
    assert_eq!(pending_migrations(&vec![2, 1], 4), vec![3, 4]);
    assert_eq!(pending_migrations(&vec![1, 2, 3, 4, 11], 4), Vec::<u32>::new());
}

#[test]
fn migration_sql_gets_lf_line_endings() {
    assert_eq!(lf_line_endings("a\r\nb\rc\n"), "a\nb\rc\n");
    assert_eq!(migrations(&vec!["x\r\n".to_string(), "y".to_string()]), vec!["x\n".to_string(), "y".to_string()]);
}

#[test]
fn read_only_paths_become_file_uris() {
    assert_eq!(file_uri("/data/jukebox.db", "immutable=1"), "file:///data/jukebox.db?immutable=1");
    assert_eq!(
        file_uri("C:\\My Data\\a%b?#.db", "immutable=1"),
        "file:///C:/My%20Data/a%25b%3f%23.db?immutable=1"
    );
}

#[test]
fn uses_the_package_name_folder() {
    let root = default_root_in("/home/me/.config", false, false);
    assert_eq!(root, "/home/me/.config/kyylan-jukebox");
}

#[test]
fn falls_back_to_a_product_name_folder_only_when_it_is_the_one_that_exists() {
    assert_eq!(default_root_in("/base", false, true), "/base/Kyylan Jukebox");
    assert_eq!(default_root_in("/base", true, true), "/base/kyylan-jukebox", "the real folder wins when both exist");
}

#[test]
fn data_folders_hold_the_config_and_the_database() {
    let dir = DataDir::at("/data".to_string());
    assert_eq!(dir.root(), "/data");
    assert_eq!(dir.config_path(), "/data/config.json");
    assert_eq!(dir.database_path(), "/data/jukebox.db");
    assert!(override_root(Some(String::new())).is_none());
    assert!(override_root(None).is_none());
    assert_eq!(override_root(Some("/custom".into())).unwrap().root(), "/custom");
}

#[test]
fn config_defaults_and_messages() {
    let c = AppConfig::defaults();
    assert_eq!(c.port, 8080);
    assert_eq!(c.per_user_queue_limit, 3);
    assert_eq!(c.password_placeholder(), "<unset>");
    let mut c = c;
    c.admin_password = "hunter2".into();
    assert_eq!(c.password_placeholder(), "<redacted>");
    let e = ConfigError::Invalid { path: "/c.json".into(), line: 3, column: 14, message: "expected value".into() };
    assert_eq!(e.message(), "/c.json is not valid (line 3, column 14): expected value");
    let e = ConfigError::Read { path: "/c.json".into(), source: "denied".into() };
    assert_eq!(e.message(), "could not read /c.json: denied");
}
