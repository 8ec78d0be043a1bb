use sql_migrations::{Action, Direction, Event, Migration, MigrationRun, Phase, RunError};

/// What a simulated run did: the keys fetched, the SQL executed, the result.
struct Trace {
    fetched: Vec<String>,
    executed: Vec<String>,
    result: Result<bool, RunError>,
    applied: Vec<String>,
}

/// Drives `run` against an in-memory bucket (`objects`, in listing order)
/// and a database on which the statements in `failing` fail.
fn drive(
    mut run: MigrationRun,
    objects: &[(&str, &str)],
    list_ok: bool,
    connect_ok: bool,
    failing: &[&str],
) -> Trace {
    let mut fetched = Vec::new();
    let mut executed = Vec::new();
    let mut act = Action::List;
    loop {
        let ev = match act {
            Action::List => {
                if list_ok {
                    Event::Listed(objects.iter().map(|(k, _)| k.to_string()).collect())
                } else {
                    Event::ListFailed("access denied".to_string())
                }
            }
            Action::Fetch(key) => {
                fetched.push(key.clone());
                match objects.iter().find(|(k, _)| *k == key) {
                    Some((_, body)) => Event::Fetched(body.to_string()),
                    None => Event::FetchFailed(format!("no such key: {}", key)),
                }
            }
            Action::Connect => {
                if connect_ok {
                    Event::Connected
                } else {
                    Event::ConnectFailed("connection refused".to_string())
                }
            }
            Action::Execute(sql) => {
                executed.push(sql.clone());
                if failing.contains(&sql.as_str()) {
                    Event::ExecuteFailed(format!("syntax error in {}", sql))
                } else {
                    Event::Executed
                }
            }
            Action::Finish(result) => {
                assert_eq!(run.phase, Phase::Finished);
                return Trace { fetched, executed, result, applied: run.applied.clone() };
            }
        };
        assert!(run.accepts(&ev));
        act = run.on_event(ev);
    }
}

fn up(objects: &[(&str, &str)], failing: &[&str]) -> Trace {
    drive(Migration::new("b", "r").execute_up_migrations(), objects, true, true, failing)
}

#[test]
fn scenario_up_run_executes_only_the_up_script() {
    let t = up(
        &[
            ("migrations/001_up.sql", "CREATE TABLE t(id INT);"),
            ("migrations/001_down.sql", "DROP TABLE t;"),
            ("readme.txt", "ignored"),
        ],
        &[],
    );
    assert_eq!(t.executed, vec!["CREATE TABLE t(id INT);".to_string()]);
    assert_eq!(t.result, Ok(true));
    assert_eq!(t.fetched, vec!["migrations/001_up.sql".to_string()]);
    assert!(!t.fetched.contains(&"readme.txt".to_string()));
}

#[test]
fn scenario_empty_script_is_skipped() {
    let t = up(
        &[("migrations/001_up.sql", ""), ("migrations/002_up.sql", "SELECT 1;")],
        &[],
    );
    assert_eq!(t.executed, vec!["SELECT 1;".to_string()]);
    assert_eq!(t.result, Ok(true));
    assert_eq!(t.applied, vec!["migrations/002_up.sql".to_string()]);
}

#[test]
fn scenario_failed_script_halts_the_run() {
    let t = up(
        &[("migrations/001_up.sql", "BAD SQL"), ("migrations/002_up.sql", "SELECT 1;")],
        &["BAD SQL"],
    );
    assert_eq!(t.executed, vec!["BAD SQL".to_string()]);
    assert_eq!(
        t.result,
        Err(RunError::SqlExecution {
            key: "migrations/001_up.sql".to_string(),
            sql: "BAD SQL".to_string(),
            error: "syntax error in BAD SQL".to_string(),
        })
    );
    assert!(t.applied.is_empty());
}

#[test]
fn failure_keeps_earlier_scripts_applied() {
    let t = up(
        &[
            ("migrations/001_up.sql", "A;"),
            ("migrations/002_up.sql", ""),
            ("migrations/003_up.sql", "B;"),
            ("migrations/004_up.sql", "C;"),
        ],
        &["B;"],
    );
    assert_eq!(t.executed, vec!["A;".to_string(), "B;".to_string()]);
    assert_eq!(t.applied, vec!["migrations/001_up.sql".to_string()]);
    assert!(matches!(t.result, Err(RunError::SqlExecution { .. })));
}

#[test]
fn only_empty_scripts_succeed_without_sql() {
    let t = up(&[("migrations/001_up.sql", ""), ("migrations/002_up.sql", "")], &[]);
    assert!(t.executed.is_empty());
    assert_eq!(t.result, Ok(true));
}

#[test]
fn no_migrations_still_connects_and_succeeds() {
    let mut run = Migration::new("b", "r").execute_up_migrations();
    let act = run.on_event(Event::Listed(vec!["readme.txt".to_string()]));
    assert_eq!(act, Action::Connect);
    assert_eq!(run.on_event(Event::Connected), Action::Finish(Ok(true)));
}

#[test]
fn down_run_applies_down_scripts_in_listed_order() {
    let run = Migration::new("b", "r").execute_down_migrations();
    assert_eq!(run.direction, Direction::Down);
    let t = drive(
        run,
        &[
            ("migrations/002_down.sql", "DROP TABLE u;"),
            ("migrations/001_up.sql", "CREATE TABLE t(id INT);"),
            ("migrations/001_down.sql", "DROP TABLE t;"),
        ],
        true,
        true,
        &[],
    );
    assert_eq!(t.executed, vec!["DROP TABLE u;".to_string(), "DROP TABLE t;".to_string()]);
    assert_eq!(t.result, Ok(true));
}

#[test]
fn listing_failure_is_a_storage_error() {
    let run = Migration::new("b", "r").execute_up_migrations();
    let t = drive(run, &[("migrations/001_up.sql", "A;")], false, true, &[]);
    assert_eq!(t.result, Err(RunError::Storage("access denied".to_string())));
    assert!(t.fetched.is_empty());
    assert!(t.executed.is_empty());
}

#[test]
fn fetch_failure_aborts_before_any_sql() {
    let mut run = Migration::new("b", "r").execute_up_migrations();
    let act = run.on_event(Event::Listed(vec![
        "migrations/001_up.sql".to_string(),
        "migrations/002_up.sql".to_string(),
    ]));
    assert_eq!(act, Action::Fetch("migrations/001_up.sql".to_string()));
    let act = run.on_event(Event::Fetched("A;".to_string()));
    assert_eq!(act, Action::Fetch("migrations/002_up.sql".to_string()));
    assert_eq!(
        run.on_event(Event::FetchFailed("timeout".to_string())),
        Action::Finish(Err(RunError::Storage("timeout".to_string())))
    );
    assert!(!run.accepts(&Event::Connected));
}

#[test]
fn connection_failure_is_reported() {
    let run = Migration::new("b", "r").execute_up_migrations();
    let t = drive(run, &[("migrations/001_up.sql", "A;")], true, false, &[]);
    assert_eq!(t.result, Err(RunError::DbConnection("connection refused".to_string())));
    assert!(t.executed.is_empty());
}

#[test]
fn unexpected_events_are_not_accepted() {
    let run = MigrationRun::new("b".to_string(), "r".to_string(), Direction::Up);
    assert_eq!(run.phase, Phase::Listing);
    assert!(run.accepts(&Event::ListFailed(String::new())));
    assert!(!run.accepts(&Event::Executed));
    assert!(!run.accepts(&Event::Fetched(String::new())));
}
