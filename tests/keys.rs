use sql_migrations::{select_down, select_up, Migration};

fn strings(v: &[&str]) -> Vec<String> {
    v.iter().map(|s| s.to_string()).collect()
}

#[test]
fn selects_up_and_down_keys_in_order() {
    let keys = strings(&[
        "migrations/002_up.sql",
        "migrations/001_down.sql",
        "readme.txt",
        "migrations/001_up.sql",
        "migrations/002_down.sql",
    ]);
    assert_eq!(
        select_up(&keys),
        strings(&["migrations/002_up.sql", "migrations/001_up.sql"])
    );
    assert_eq!(
        select_down(&keys),
        strings(&["migrations/001_down.sql", "migrations/002_down.sql"])
    );
}

#[test]
fn rejects_keys_outside_the_pattern() {
    let keys = strings(&[
        "other/migrations/001_up.sql",
        "migrations/001_up.sql.bak",
        "migration/001_up.sql",
        "migrations/001_up.SQL",
        "up.sql",
        "migrations",
        "",
    ]);
    assert!(select_up(&keys).is_empty());
    assert!(select_down(&keys).is_empty());
}

#[test]
fn requires_a_migrations_path_segment() {
    let keys = strings(&[
        "migrationsup.sql",
        "migrationsdown.sql",
        "migrations_日本_up.sql",
        "migrations_old/001_up.sql",
        "migrations_old/001_down.sql",
    ]);
    assert!(select_up(&keys).is_empty());
    assert!(select_down(&keys).is_empty());
}

#[test]
fn rejects_other_directories_for_down_keys() {
    let keys = strings(&[
        "readme.txt",
        "docs/001_down.sql",
        "migrations/001_up.sql",
        "migrations_old/001_down.sql",
    ]);
    assert!(select_down(&keys).is_empty());
}

#[test]
fn accepts_the_shortest_keys() {
    let keys = strings(&["migrations/up.sql", "migrations/down.sql", "migrations/日本_up.sql"]);
    assert_eq!(
        select_up(&keys),
        strings(&["migrations/up.sql", "migrations/日本_up.sql"])
    );
    assert_eq!(select_down(&keys), strings(&["migrations/down.sql"]));
}

#[test]
fn selections_are_disjoint_and_cover_matching_keys() {
    let keys = strings(&[
        "migrations/001_up.sql",
        "migrations/001_down.sql",
        "readme.txt",
        "migrations/notes.md",
    ]);
    let up = select_up(&keys);
    let down = select_down(&keys);
    assert!(up.iter().all(|k| !down.contains(k)));
    assert_eq!(up.len() + down.len(), 2);
    assert!(!up.contains(&"readme.txt".to_string()));
    assert!(!down.contains(&"migrations/notes.md".to_string()));
}

#[test]
fn selecting_twice_changes_nothing() {
    let keys = strings(&[
        "migrations/003_up.sql",
        "x",
        "migrations/001_up.sql",
        "migrations/001_down.sql",
    ]);
    let up = select_up(&keys);
    assert_eq!(select_up(&up), up);
    let down = select_down(&keys);
    assert_eq!(select_down(&down), down);
}

#[test]
fn selection_of_a_concatenation_is_the_concatenation() {
    let a = strings(&["migrations/b_up.sql", "z"]);
    let b = strings(&["migrations/a_up.sql", "migrations/a_down.sql"]);
    let mut ab = a.clone();
    ab.extend(b.clone());
    let mut expected = select_up(&a);
    expected.extend(select_up(&b));
    assert_eq!(select_up(&ab), expected);
}

#[test]
fn migration_methods_classify() {
    let m = Migration::new("bucket", "ap-northeast-1");
    assert_eq!(m.bucket, "bucket");
    assert_eq!(m.region, "ap-northeast-1");
    let keys = strings(&["migrations/001_up.sql", "migrations/001_down.sql"]);
    assert_eq!(m.get_up_migrations(&keys), strings(&["migrations/001_up.sql"]));
    assert_eq!(m.get_down_migrations(&keys), strings(&["migrations/001_down.sql"]));
}

#[test]
fn default_migration_is_empty() {
    let m = Migration::default();
    assert_eq!(m.bucket, "");
    assert_eq!(m.region, "");
}
