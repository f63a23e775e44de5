use jump::config::Config;
use jump::config::load_config;
use jump::config::save_config;
use jump::db::Database;
use jump::persist::ch_dir;
use jump::persist::load_database;
use jump::persist::reset_save_load;
use jump::persist::save_database;
use jump::persist::save_then_load;
use jump::resolver::resolve;
use jump::JumpError;

fn sample_db() -> Database {
    let mut db = Database::new();
    for _ in 0..5 {
        db.record_visit("/home/alice/proj");
    }
    db.record_visit("/home/alice/projects");
    for _ in 0..9 {
        db.record_visit("/var/log");
    }
    db
}

#[test]
fn record_visit_counts_from_zero() {
    let mut db = Database::new();
    assert_eq!(db.count("/a"), 0);
    db.record_visit("/a");
    assert_eq!(db.count("/a"), 1);
    db.record_visit("/a");
    db.record_visit("/a");
    assert_eq!(db.count("/a"), 3);
    assert_eq!(db.count("/b"), 0);
    db.record_visit("/b");
    assert_eq!(db.count("/b"), 1);
    assert_eq!(db.count("/a"), 3);
    assert_eq!(db.num_entries(), 2);
}

#[test]
fn resolve_root_unchanged() {
    let db = sample_db();
    assert_eq!(resolve("/", false, &db).unwrap(), "/");
    let empty = Database::new();
    assert_eq!(resolve("/", false, &empty).unwrap(), "/");
}

#[test]
fn resolve_existing_path_unchanged() {
    // The caller's filesystem probe found the query, so it comes back as is,
    // although it also matches stored entries as a pattern.
    let db = sample_db();
    assert_eq!(resolve("proj", true, &db).unwrap(), "proj");
}

#[test]
fn resolve_picks_lexicographically_first_match() {
    let db = sample_db();
    assert_eq!(db.count("/home/alice/proj"), 5);
    assert_eq!(db.count("/home/alice/projects"), 1);
    assert_eq!(db.count("/var/log"), 9);
    // Not the higher-count entry, and not the longer shared-prefix entry.
    assert_eq!(resolve("proj", false, &db).unwrap(), "/home/alice/proj");
}

#[test]
fn resolve_anchored_pattern() {
    let db = sample_db();
    assert_eq!(resolve("^/var", false, &db).unwrap(), "/var/log");
}

#[test]
fn resolve_no_match_returns_query() {
    let db = sample_db();
    assert_eq!(resolve("zzz-no-match", false, &db).unwrap(), "zzz-no-match");
}

#[test]
fn resolve_invalid_pattern_fails() {
    let db = sample_db();
    assert_eq!(resolve("(", false, &db), Err(JumpError::InvalidPattern));
    let empty = Database::new();
    assert_eq!(resolve("(", false, &empty), Err(JumpError::InvalidPattern));
}

#[test]
fn database_roundtrip() {
    let db = sample_db();
    let bytes = save_database(&db);
    let loaded = load_database(&bytes).unwrap();
    assert_eq!(loaded.num_entries(), db.num_entries());
    assert_eq!(loaded.count("/home/alice/proj"), 5);
    assert_eq!(loaded.count("/home/alice/projects"), 1);
    assert_eq!(loaded.count("/var/log"), 9);
    assert_eq!(loaded.count("/missing"), 0);
}

#[test]
fn database_roundtrip_empty() {
    let db = Database::new();
    let bytes = save_database(&db);
    let loaded = load_database(&bytes).unwrap();
    assert_eq!(loaded.num_entries(), 0);
    let again = save_then_load(&db).unwrap();
    assert_eq!(again.num_entries(), 0);
}

#[test]
fn empty_database_encodes_as_zero_length_prefix() {
    let db = Database::new();
    assert_eq!(save_database(&db), vec![0u8; 8]);
}

#[test]
fn reset_save_load_yields_empty() {
    let mut db = sample_db();
    let loaded = reset_save_load(&mut db).unwrap();
    assert_eq!(db.num_entries(), 0);
    assert_eq!(loaded.num_entries(), 0);
    assert_eq!(loaded.count("/var/log"), 0);
}

#[test]
fn load_rejects_garbage() {
    assert!(matches!(
        load_database(&vec![1u8, 2u8, 3u8]),
        Err(JumpError::CorruptDatabase)
    ));
}

#[test]
fn from_entries_rejects_negative_count() {
    let entries = vec![("/a".to_string(), -1)];
    assert!(matches!(
        Database::from_entries(&entries),
        Err(JumpError::CorruptDatabase)
    ));
}

#[test]
fn from_entries_last_entry_wins() {
    let entries = vec![("/a".to_string(), 2), ("/a".to_string(), 7)];
    let db = Database::from_entries(&entries).unwrap();
    assert_eq!(db.count("/a"), 7);
    assert_eq!(db.num_entries(), 1);
}

#[test]
fn from_entries_accepts_largest_count() {
    let entries = vec![("/a".to_string(), i32::MAX)];
    let db = Database::from_entries(&entries).unwrap();
    assert_eq!(db.count("/a"), i32::MAX);
}

#[test]
fn resolve_on_empty_database_returns_query() {
    let db = Database::new();
    assert_eq!(resolve("anything", false, &db).unwrap(), "anything");
}

#[test]
fn ch_dir_records_and_encodes() {
    let mut db = Database::new();
    db.record_visit("/x");
    let bytes = ch_dir("/x", &mut db);
    assert_eq!(db.count("/x"), 2);
    let loaded = load_database(&bytes).unwrap();
    assert_eq!(loaded.count("/x"), 2);
}

#[test]
fn config_default_command() {
    let c = Config::default();
    assert_eq!(c.command, "j");
}

#[test]
fn config_encodes_exactly() {
    let c = Config::default();
    assert_eq!(save_config(&c), "command = \"j\"\n");
}

#[test]
fn config_roundtrip() {
    let c = Config {
        command: "go".to_string(),
    };
    let text = save_config(&c);
    let (loaded, persist_now) = load_config(&text).unwrap();
    assert_eq!(loaded.command, "go");
    assert!(!persist_now);
}

#[test]
fn config_empty_text_yields_default() {
    let (c, persist_now) = load_config("").unwrap();
    assert_eq!(c.command, "j");
    assert!(persist_now);
}

#[test]
fn config_rejects_garbage() {
    assert!(matches!(
        load_config("command = = 3"),
        Err(JumpError::CorruptConfig)
    ));
}
