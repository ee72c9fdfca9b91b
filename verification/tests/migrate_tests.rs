use braid::migrate::{
    get_schema_version, migrate_frontmatter, migration_summary, needs_migration, YamlDoc, YamlEntry, YamlValue,
    CURRENT_SCHEMA,
};

fn s(t: &str) -> YamlValue {
    YamlValue::Str(t.to_string())
}

fn entry(k: &str, v: YamlValue) -> YamlEntry {
    YamlEntry { key: s(k), value: v }
}

fn doc(entries: Vec<YamlEntry>) -> YamlDoc {
    YamlDoc::Mapping(entries)
}

fn get<'a>(d: &'a YamlDoc, k: &str) -> Option<&'a YamlValue> {
    match d {
        YamlDoc::Mapping(es) => es
            .iter()
            .find(|e| matches!(&e.key, YamlValue::Str(t) if t == k))
            .map(|e| &e.value),
        _ => None,
    }
}

fn keys(d: &YamlDoc) -> Vec<String> {
    match d {
        YamlDoc::Mapping(es) => es
            .iter()
            .map(|e| match &e.key {
                YamlValue::Str(t) => t.clone(),
                _ => "?".to_string(),
            })
            .collect(),
        _ => vec![],
    }
}

fn as_str(v: Option<&YamlValue>) -> Option<&str> {
    match v {
        Some(YamlValue::Str(t)) => Some(t.as_str()),
        _ => None,
    }
}

fn as_int(v: Option<&YamlValue>) -> Option<u64> {
    match v {
        Some(YamlValue::PosInt(n)) => Some(*n),
        _ => None,
    }
}

#[test]
fn test_get_schema_version_brd() {
    let d = doc(vec![entry("brd", YamlValue::PosInt(1)), entry("id", s("test"))]);
    assert_eq!(get_schema_version(&d).unwrap(), 1);
}

#[test]
fn test_get_schema_version_schema_version() {
    let d = doc(vec![entry("schema_version", YamlValue::PosInt(2)), entry("id", s("test"))]);
    assert_eq!(get_schema_version(&d).unwrap(), 2);
}

#[test]
fn test_get_schema_version_missing() {
    let d = doc(vec![entry("id", s("test"))]);
    assert_eq!(get_schema_version(&d).unwrap(), 0);
}

#[test]
fn test_migrate_v0_to_v1() {
    let d = doc(vec![entry("id", s("test")), entry("title", s("Test"))]);
    let (migrated, changed) = migrate_frontmatter(d, 1).unwrap();
    assert!(changed);
    assert_eq!(get_schema_version(&migrated).unwrap(), 1);
}

#[test]
fn test_migrate_v1_to_v2() {
    let d = doc(vec![entry("brd", YamlValue::PosInt(1)), entry("id", s("test"))]);
    let (migrated, changed) = migrate_frontmatter(d, 2).unwrap();
    assert!(changed);
    assert_eq!(get_schema_version(&migrated).unwrap(), 2);
    assert!(get(&migrated, "brd").is_none());
    assert!(get(&migrated, "schema_version").is_some());
}

#[test]
fn test_migrate_v0_to_v2() {
    let d = doc(vec![entry("id", s("test")), entry("title", s("Test"))]);
    let (migrated, changed) = migrate_frontmatter(d, 2).unwrap();
    assert!(changed);
    assert_eq!(get_schema_version(&migrated).unwrap(), 2);
    assert!(get(&migrated, "schema_version").is_some());
}

#[test]
fn test_no_migration_needed() {
    let d = doc(vec![entry("schema_version", YamlValue::PosInt(2)), entry("id", s("test"))]);
    let (_migrated, changed) = migrate_frontmatter(d, 2).unwrap();
    assert!(!changed);
}

#[test]
fn full_migration_from_v0() {
    let d = doc(vec![
        entry("id", s("brd-a")),
        entry("status", s("todo")),
        entry("labels", YamlValue::Other(7)),
        entry("updated_at", s("2024-01-01T00:00:00Z")),
    ]);
    let (m, changed) = migrate_frontmatter(d, CURRENT_SCHEMA).unwrap();
    assert!(changed);
    assert_eq!(get_schema_version(&m).unwrap(), CURRENT_SCHEMA);
    assert_eq!(as_int(get(&m, "schema_version")), Some(9));
    assert_eq!(as_str(get(&m, "status")), Some("open"));
    assert!(matches!(get(&m, "tags"), Some(YamlValue::Other(7))));
    assert!(get(&m, "labels").is_none());
    assert!(matches!(get(&m, "owner"), Some(YamlValue::Null)));
    assert!(get(&m, "updated_at").is_none());
    assert!(get(&m, "started_at").is_none());
    let (again, changed_again) = migrate_frontmatter(m, CURRENT_SCHEMA).unwrap();
    assert!(!changed_again);
    assert_eq!(get_schema_version(&again).unwrap(), CURRENT_SCHEMA);
}

#[test]
fn timestamps_follow_the_status() {
    let base = |st: &str| {
        doc(vec![
            entry("schema_version", YamlValue::PosInt(7)),
            entry("status", s(st)),
            entry("updated_at", s("T")),
            entry("id", s("x")),
        ])
    };
    let (doing, _) = migrate_frontmatter(base("doing"), 8).unwrap();
    assert_eq!(as_str(get(&doing, "started_at")), Some("T"));
    assert!(get(&doing, "completed_at").is_none());
    assert_eq!(keys(&doing), vec!["schema_version", "status", "id", "started_at"]);

    let (done, _) = migrate_frontmatter(base("done"), 8).unwrap();
    assert_eq!(as_str(get(&done, "started_at")), Some("T"));
    assert_eq!(as_str(get(&done, "completed_at")), Some("T"));

    let (open, _) = migrate_frontmatter(base("open"), 8).unwrap();
    assert!(get(&open, "started_at").is_none());
    assert!(get(&open, "updated_at").is_none());
}

#[test]
fn a_version_that_is_not_a_number_is_an_error() {
    let d = doc(vec![entry("schema_version", s("two"))]);
    assert_eq!(get_schema_version(&d).unwrap_err().to_text(), "parse error in schema_version: expected integer");
    let d = doc(vec![entry("brd", YamlValue::Other(3))]);
    assert_eq!(get_schema_version(&d).unwrap_err().to_text(), "parse error in brd: expected integer");
}

#[test]
fn tagged_versions_are_read_through_the_tag() {
    let d = doc(vec![entry("schema_version", YamlValue::Tagged("!v".to_string(), Box::new(YamlValue::PosInt(4))))]);
    assert_eq!(get_schema_version(&d).unwrap(), 4);
}

#[test]
fn other_documents_have_version_zero_and_pass_through() {
    let d = YamlDoc::Other(1);
    assert_eq!(get_schema_version(&d).unwrap(), 0);
    let (m, changed) = migrate_frontmatter(d, 9).unwrap();
    assert!(changed);
    assert!(matches!(m, YamlDoc::Other(1)));
}

#[test]
fn summaries_and_needs() {
    assert!(needs_migration(8));
    assert!(!needs_migration(9));
    assert_eq!(
        migration_summary(7, 9),
        vec![
            "v7→v8: replace updated_at with started_at/completed_at".to_string(),
            "v8→v9: add scheduled_for field".to_string()
        ]
    );
    assert!(migration_summary(9, 12).is_empty());
}

#[test]
fn stale_count_counts_versions_behind() {
    assert_eq!(braid::migrate::stale_count(&vec![9, 2, 8, 9, 0]), 3);
    assert_eq!(braid::migrate::stale_count(&vec![]), 0);
}
