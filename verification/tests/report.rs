use pgstate::config::DiskConfig;
use pgstate::handler::state_report;
use pgstate::handler::DatabaseData;
use pgstate::handler::Response;
use pgstate::state::Database;
use pgstate::state::DiskState;

fn sample_records() -> Vec<Database> {
    let owner = String::from("alice");
    vec![
        Database::new("alice_shop", Some(&owner), 10, 100),
        Database::new("postgres", None, 20, 200),
    ]
}

#[test]
fn fixed_mode_adds_summed_sizes_to_the_offset() {
    let records = sample_records();
    let disk = DiskState::new(1000, 5000, 4000, 4500);
    let service = vec![String::from("postgres")];
    let disk_config = DiskConfig::Fixed {
        offset: 1000,
        capacity: 5000,
        soft_threshold: 4000,
        hard_threshold: 4500,
    };
    let r = state_report(&records, &disk, &service, &disk_config);
    assert_eq!(r.disk_used, 1000 + 100 + 200);
    assert_eq!(r.disk_capacity, 5000);
    assert_eq!(r.soft_threshold, 4000);
    assert_eq!(r.hard_threshold, 4500);
    assert_eq!(r.databases.len(), 2);
}

#[test]
fn command_mode_reports_the_offset_alone() {
    let records = sample_records();
    let disk = DiskState::new(700, 5000, 4000, 4500);
    let service: Vec<String> = Vec::new();
    let disk_config = DiskConfig::Command {
        command: String::from("/usr/local/bin/disk-sample"),
    };
    let r = state_report(&records, &disk, &service, &disk_config);
    assert_eq!(r.disk_used, 700);
}

#[test]
fn records_keep_their_fields_and_service_flag() {
    let records = sample_records();
    let disk = DiskState::default();
    let service = vec![String::from("postgres")];
    let disk_config = DiskConfig::Command {
        command: String::from("/usr/local/bin/disk-sample"),
    };
    let r = state_report(&records, &disk, &service, &disk_config);
    assert_eq!(r.databases[0].name, "alice_shop");
    assert_eq!(r.databases[0].user, Some(String::from("alice")));
    assert_eq!(r.databases[0].modified, 10);
    assert_eq!(r.databases[0].size, 100);
    assert!(!r.databases[0].service);
    assert_eq!(r.databases[1].name, "postgres");
    assert_eq!(r.databases[1].user, None);
    assert!(r.databases[1].service);
}

#[test]
fn empty_snapshot_reports_no_records() {
    let records: Vec<Database> = Vec::new();
    let disk = DiskState::new(5, 6, 7, 8);
    let service: Vec<String> = Vec::new();
    let disk_config = DiskConfig::Fixed {
        offset: 5,
        capacity: 6,
        soft_threshold: 7,
        hard_threshold: 8,
    };
    let r = state_report(&records, &disk, &service, &disk_config);
    assert_eq!(r.databases.len(), 0);
    assert_eq!(r.disk_used, 5);
}

#[test]
fn constructors_keep_their_fields() {
    let d = DatabaseData::new("db", None, 3, 30, true);
    assert_eq!(d.name, "db");
    assert_eq!(d.modified, 3);
    assert_eq!(d.size, 30);
    assert!(d.service);
    let r = Response::new(1, 2, 3, 4, vec![d]);
    assert_eq!(r.disk_used, 1);
    assert_eq!(r.databases.len(), 1);
}
