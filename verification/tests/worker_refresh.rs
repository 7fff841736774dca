use pgstate::config::Config;
use pgstate::config::Cors;
use pgstate::config::DiskConfig;
use pgstate::config::ServerConfig;
use pgstate::config::UserConfig;
use pgstate::postgres::DatabaseError;
use pgstate::state::create;
use pgstate::state::State;
use pgstate::worker::parse_disk_output;
use pgstate::worker::refresh_catalog;
use pgstate::worker::refresh_disk;
use pgstate::worker::resolve_records;
use pgstate::worker::update_databases;
use pgstate::worker::update_disk;
use pgstate::worker::DatabaseInfo;
use pgstate::worker::Worker;
use pgstate::worker::WorkerError;

fn users(logins: &[&str]) -> Vec<UserConfig> {
    logins.iter().map(|l| UserConfig::new(l)).collect()
}

fn config_with_disk(disk: DiskConfig, logins: &[&str]) -> Config {
    let server = ServerConfig::new(
        String::from("localhost"),
        5432,
        String::from("postgres"),
        String::from("secret"),
        vec![String::from("postgres")],
        disk,
    );
    Config::new(60, server, None::<Cors>, users(logins))
}

#[test]
fn refresh_installs_exactly_the_listing() {
    let mut st = State::new();
    st.put("leftover", None, 1, 1);
    let rows = vec![
        DatabaseInfo::new("alice_shop", 10, 100),
        DatabaseInfo::new("warehouse", 20, 200),
    ];
    let r = refresh_catalog(&mut st, &users(&["alice"]), &Ok(rows));
    assert!(r.is_ok());
    let records = st.for_each();
    assert_eq!(records.len(), 2);
    assert_eq!(records[0].name(), "alice_shop");
    assert_eq!(records[0].user(), Some(&String::from("alice")));
    assert_eq!(records[0].modified(), 10);
    assert_eq!(records[0].size(), 100);
    assert_eq!(records[1].name(), "warehouse");
    assert_eq!(records[1].user(), None);
}

#[test]
fn failed_refresh_preserves_the_catalog() {
    let mut st = State::new();
    st.put("survivor", Some(&String::from("bob")), 5, 50);
    let failure: Result<Vec<DatabaseInfo>, DatabaseError> =
        Err(DatabaseError::connection_error("connection refused"));
    let r = refresh_catalog(&mut st, &users(&["bob"]), &failure);
    assert!(r.is_err());
    match r {
        Err(WorkerError::DatabaseError { message }) => {
            assert_eq!(message, "connection refused");
        }
        other => panic!("unexpected result: {:?}", other),
    }
    let records = st.for_each();
    assert_eq!(records.len(), 1);
    assert_eq!(records[0].name(), "survivor");
    assert_eq!(records[0].user(), Some(&String::from("bob")));
    assert_eq!(records[0].modified(), 5);
    assert_eq!(records[0].size(), 50);
}

#[test]
fn repeated_refresh_of_unchanged_listing_is_idempotent() {
    let mut st = State::new();
    let list = || {
        Ok(vec![
            DatabaseInfo::new("alpha", 1, 10),
            DatabaseInfo::new("beta", 2, 20),
        ])
    };
    refresh_catalog(&mut st, &users(&["alpha"]), &list()).unwrap();
    let first: Vec<(String, Option<String>, i64, u64)> = st
        .for_each()
        .iter()
        .map(|d| (d.name().to_string(), d.user().cloned(), d.modified(), d.size()))
        .collect();
    refresh_catalog(&mut st, &users(&["alpha"]), &list()).unwrap();
    let second: Vec<(String, Option<String>, i64, u64)> = st
        .for_each()
        .iter()
        .map(|d| (d.name().to_string(), d.user().cloned(), d.modified(), d.size()))
        .collect();
    assert_eq!(first, second);
}

#[test]
fn owner_is_first_configured_matching_login() {
    let rows = vec![DatabaseInfo::new("alice_shop", 1, 1)];
    let records = resolve_records(&users(&["ali", "alice"]), &rows);
    assert_eq!(records.len(), 1);
    assert_eq!(records[0].user(), Some(&String::from("ali")));
}

#[test]
fn owner_match_is_case_insensitive_and_stores_lowercase() {
    let rows = vec![DatabaseInfo::new("ALICE_shop", 1, 1)];
    let records = resolve_records(&users(&["AlIcE"]), &rows);
    assert_eq!(records[0].user(), Some(&String::from("alice")));
}

#[test]
fn owner_absent_when_no_login_matches() {
    let rows = vec![DatabaseInfo::new("alice_shop", 1, 1)];
    let records = resolve_records(&users(&["ab", "bob"]), &rows);
    assert_eq!(records[0].user(), None);
}

#[test]
fn sampler_output_parses_four_lines() {
    let d = parse_disk_output(b"100\n500\n50\n10\n");
    assert_eq!(d.offset(), 100);
    assert_eq!(d.capacity(), 500);
    assert_eq!(d.soft_threshold(), 50);
    assert_eq!(d.hard_threshold(), 10);
}

#[test]
fn sampler_parse_failure_defaults_to_zero() {
    let d = parse_disk_output(b"100\nbadnum\n");
    assert_eq!(d.offset(), 100);
    assert_eq!(d.capacity(), 0);
    assert_eq!(d.soft_threshold(), 0);
    assert_eq!(d.hard_threshold(), 0);
}

#[test]
fn sampler_empty_output_is_all_zero() {
    let d = parse_disk_output(b"");
    assert_eq!(d.offset(), 0);
    assert_eq!(d.capacity(), 0);
    assert_eq!(d.soft_threshold(), 0);
    assert_eq!(d.hard_threshold(), 0);
}

#[test]
fn sampler_lines_are_trimmed_and_empty_lines_skipped() {
    let d = parse_disk_output(b"  7 \r\n\n 8\n\t9\n1");
    assert_eq!(d.offset(), 7);
    assert_eq!(d.capacity(), 8);
    assert_eq!(d.soft_threshold(), 9);
    assert_eq!(d.hard_threshold(), 1);
}

#[test]
fn sampler_value_past_u64_max_is_zero() {
    let d = parse_disk_output(b"99999999999999999999\n18446744073709551615\n+5\n-3\n");
    assert_eq!(d.offset(), 0);
    assert_eq!(d.capacity(), u64::MAX);
    assert_eq!(d.soft_threshold(), 5);
    assert_eq!(d.hard_threshold(), 0);
}

#[test]
fn refresh_disk_fixed_reasserts_configured_figures() {
    let mut st = State::new();
    let disk = DiskConfig::Fixed {
        offset: 1,
        capacity: 2,
        soft_threshold: 3,
        hard_threshold: 4,
    };
    let r = refresh_disk(&mut st, &disk, &Ok(Vec::new()));
    assert!(r.is_ok());
    let d = st.disk_state();
    assert_eq!(d.offset(), 1);
    assert_eq!(d.capacity(), 2);
    assert_eq!(d.soft_threshold(), 3);
    assert_eq!(d.hard_threshold(), 4);
}

#[test]
fn refresh_disk_command_parses_the_sample() {
    let mut st = State::new();
    let disk = DiskConfig::Command {
        command: String::from("/usr/local/bin/disk-sample"),
    };
    let r = refresh_disk(&mut st, &disk, &Ok(b"9\n8\n7\n6\n".to_vec()));
    assert!(r.is_ok());
    let d = st.disk_state();
    assert_eq!(d.offset(), 9);
    assert_eq!(d.capacity(), 8);
}

#[test]
fn refresh_disk_command_failure_leaves_store_untouched() {
    let mut st = State::new();
    st.set_disk_state(1, 2, 3, 4);
    let disk = DiskConfig::Command {
        command: String::from("/usr/local/bin/disk-sample"),
    };
    let r = refresh_disk(&mut st, &disk, &Err(WorkerError::io_error("spawn failed")));
    match r {
        Err(WorkerError::IoError { message }) => assert_eq!(message, "spawn failed"),
        other => panic!("unexpected result: {:?}", other),
    }
    let d = st.disk_state();
    assert_eq!(d.offset(), 1);
    assert_eq!(d.capacity(), 2);
}

#[test]
fn update_disk_fixed_succeeds_against_the_store() {
    let state = create();
    let config = config_with_disk(
        DiskConfig::Fixed {
            offset: 10,
            capacity: 20,
            soft_threshold: 30,
            hard_threshold: 40,
        },
        &[],
    );
    update_disk(&config, &state, Ok(Vec::new())).unwrap();
    let d = state.disk_state().unwrap();
    assert_eq!(d.offset(), 10);
    assert_eq!(d.capacity(), 20);
}

#[test]
fn update_disk_command_propagates_sampling_failure() {
    let state = create();
    let config = config_with_disk(
        DiskConfig::Command {
            command: String::from("/usr/local/bin/disk-sample"),
        },
        &[],
    );
    let r = update_disk(&config, &state, Err(WorkerError::io_error("no such file")));
    assert!(r.is_err());
}

#[test]
fn update_databases_replaces_through_the_store() {
    let state = create();
    let config = config_with_disk(
        DiskConfig::Command {
            command: String::from("/usr/local/bin/disk-sample"),
        },
        &["alice"],
    );
    let list = Ok(vec![DatabaseInfo::new("alice_shop", 1, 10)]);
    update_databases(&config, &state, &list).unwrap();
    let records = state.for_each().unwrap();
    assert_eq!(records.len(), 1);
    assert_eq!(records[0].user(), Some(&String::from("alice")));
}

#[test]
fn update_databases_returns_listing_failure() {
    let state = create();
    state.put("kept", None, 1, 1).unwrap();
    let config = config_with_disk(
        DiskConfig::Command {
            command: String::from("/usr/local/bin/disk-sample"),
        },
        &[],
    );
    let list: Result<Vec<DatabaseInfo>, DatabaseError> =
        Err(DatabaseError::query_execution_error("bad statement"));
    let r = update_databases(&config, &state, &list);
    assert!(matches!(r, Err(WorkerError::DatabaseError { .. })));
    let records = state.for_each().unwrap();
    assert_eq!(records.len(), 1);
    assert_eq!(records[0].name(), "kept");
}

#[test]
fn run_cycle_refreshes_disk_then_catalog() {
    let state = create();
    let config = config_with_disk(
        DiskConfig::Fixed {
            offset: 1,
            capacity: 2,
            soft_threshold: 3,
            hard_threshold: 4,
        },
        &["alice"],
    );
    let worker = Worker::new(config, state.clone());
    let list = Ok(vec![DatabaseInfo::new("alice_db", 1, 10)]);
    let (disk_result, catalog_result) = worker.run_cycle(Ok(Vec::new()), &list);
    assert!(disk_result.is_ok());
    assert!(catalog_result.is_ok());
    assert_eq!(state.disk_state().unwrap().capacity(), 2);
    assert_eq!(state.for_each().unwrap().len(), 1);
}

#[test]
fn worker_error_constructors_carry_messages() {
    let e = WorkerError::io_error("boom");
    assert_eq!(e.message(), "boom");
    let s = WorkerError::state_error(pgstate::state::StateError::new("lock"));
    assert_eq!(s.message(), "lock");
    let d = WorkerError::database_error(&DatabaseError::connection_error("down"));
    assert_eq!(d.message(), "down");
    let c = e.clone();
    assert_eq!(c.message(), "boom");
}
