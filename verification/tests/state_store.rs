use pgstate::state::create;
use pgstate::state::Database;
use pgstate::state::DiskState;
use pgstate::state::State;
use pgstate::state::StateError;

#[test]
fn create_starts_empty() {
    let state = create();
    let records = state.for_each().unwrap();
    assert_eq!(records.len(), 0);
    let disk = state.disk_state().unwrap();
    assert_eq!(disk.offset(), 0);
    assert_eq!(disk.capacity(), 0);
    assert_eq!(disk.soft_threshold(), 0);
    assert_eq!(disk.hard_threshold(), 0);
}

#[test]
fn put_then_for_each_enumerates() {
    let state = create();
    let owner = String::from("alice");
    state.put("alice_shop", Some(&owner), 11, 100).unwrap();
    state.put("plain", None, 22, 200).unwrap();
    let records = state.for_each().unwrap();
    assert_eq!(records.len(), 2);
    assert_eq!(records[0].name(), "alice_shop");
    assert_eq!(records[0].user(), Some(&String::from("alice")));
    assert_eq!(records[0].modified(), 11);
    assert_eq!(records[0].size(), 100);
    assert_eq!(records[1].name(), "plain");
    assert_eq!(records[1].user(), None);
}

#[test]
fn put_replaces_record_of_same_name() {
    let state = create();
    state.put("db", None, 1, 10).unwrap();
    state.put("db", None, 2, 20).unwrap();
    let records = state.for_each().unwrap();
    assert_eq!(records.len(), 1);
    assert_eq!(records[0].name(), "db");
    assert_eq!(records[0].modified(), 2);
    assert_eq!(records[0].size(), 20);
}

#[test]
fn clear_empties_the_catalog() {
    let state = create();
    state.put("db", None, 1, 10).unwrap();
    state.clear().unwrap();
    let records = state.for_each().unwrap();
    assert_eq!(records.len(), 0);
}

#[test]
fn clear_keeps_the_quota() {
    let state = create();
    state.set_disk_state(1, 2, 3, 4).unwrap();
    state.put("db", None, 1, 10).unwrap();
    state.clear().unwrap();
    let disk = state.disk_state().unwrap();
    assert_eq!(disk.offset(), 1);
    assert_eq!(disk.capacity(), 2);
}

#[test]
fn replace_catalog_discards_previous_records() {
    let state = create();
    state.put("old_one", None, 1, 10).unwrap();
    state.put("old_two", None, 2, 20).unwrap();
    let fresh = vec![
        Database::new("new_one", None, 3, 30),
        Database::new("new_two", None, 4, 40),
    ];
    state.replace_catalog(fresh).unwrap();
    let records = state.for_each().unwrap();
    assert_eq!(records.len(), 2);
    assert_eq!(records[0].name(), "new_one");
    assert_eq!(records[1].name(), "new_two");
}

#[test]
fn replace_catalog_keeps_last_record_of_duplicate_names() {
    let state = create();
    let fresh = vec![
        Database::new("db", None, 1, 10),
        Database::new("db", None, 2, 20),
    ];
    state.replace_catalog(fresh).unwrap();
    let records = state.for_each().unwrap();
    assert_eq!(records.len(), 1);
    assert_eq!(records[0].modified(), 2);
    assert_eq!(records[0].size(), 20);
}

#[test]
fn set_disk_state_overwrites_wholesale() {
    let state = create();
    state.set_disk_state(1, 2, 3, 4).unwrap();
    state.set_disk_state(5, 6, 7, 8).unwrap();
    let disk = state.disk_state().unwrap();
    assert_eq!(disk.offset(), 5);
    assert_eq!(disk.capacity(), 6);
    assert_eq!(disk.soft_threshold(), 7);
    assert_eq!(disk.hard_threshold(), 8);
}

#[test]
fn sequential_state_behaves_like_the_store() {
    let mut st = State::new();
    st.put("db", None, 7, 70);
    st.set_disk_state(1, 2, 3, 4);
    let records = st.for_each();
    assert_eq!(records.len(), 1);
    assert_eq!(records[0].name(), "db");
    let disk = st.disk_state();
    assert_eq!(disk.offset(), 1);
    st.clear();
    assert_eq!(st.for_each().len(), 0);
}

#[test]
fn database_accessors_return_what_was_given() {
    let owner = String::from("bob");
    let d = Database::new("accounts", Some(&owner), -5, 1024);
    assert_eq!(d.name(), "accounts");
    assert_eq!(d.user(), Some(&String::from("bob")));
    assert_eq!(d.modified(), -5);
    assert_eq!(d.size(), 1024);
    let c = d.clone();
    assert_eq!(c.name(), "accounts");
    assert_eq!(c.user(), Some(&String::from("bob")));
}

#[test]
fn disk_state_default_is_zero() {
    let d = DiskState::default();
    assert_eq!(d.offset(), 0);
    assert_eq!(d.capacity(), 0);
    assert_eq!(d.soft_threshold(), 0);
    assert_eq!(d.hard_threshold(), 0);
}

#[test]
fn state_error_carries_its_message() {
    let e = StateError::new("lock unavailable");
    assert_eq!(e.message(), "lock unavailable");
}
