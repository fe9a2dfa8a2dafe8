use kv_store::controller::Controller;
use kv_store::model::db::{AtomicDb, Db};

#[test]
fn set_then_get_on_separate_requests() {
    let db = AtomicDb::new();
    let first = Controller::handle_cmd(db.clone(), "set a 10".to_owned());
    assert_eq!(first, "Success entry data\n");
    let second = Controller::handle_cmd(db.clone(), "get a".to_owned());
    assert_eq!(second, "10\n");
}

#[test]
fn delete_of_missing_key_reports_no_value() {
    let db = AtomicDb::new();
    let response = Controller::handle_cmd(db, "del missing".to_owned());
    assert_eq!(response, "No value for key: missing\n");
}

#[test]
fn gibberish_line_reports_unknown_command() {
    let db = AtomicDb::new();
    let response = Controller::handle_cmd(db, "banana".to_owned());
    assert_eq!(response, "Unknown command\n");
}

#[test]
fn get_of_never_inserted_key_reports_no_value() {
    let db = AtomicDb::new();
    let response = Controller::handle_cmd(db, "get ghost".to_owned());
    assert_eq!(response, "No value for key: ghost\n");
}

#[test]
fn many_sets_to_one_key_leave_one_submitted_value() {
    let db = AtomicDb::new();
    let n = 16;
    for i in 0..n {
        let line = format!("set k {}", i);
        assert_eq!(Controller::handle_cmd(db.clone(), line), "Success entry data\n");
    }
    let response = Controller::handle_cmd(db.clone(), "get k".to_owned());
    let observed = response.trim_end_matches('\n');
    let value: usize = observed.parse().unwrap();
    assert!(value < n);
}

#[test]
fn set_then_delete_then_get_observes_absence() {
    let db = AtomicDb::new();
    assert_eq!(
        Controller::handle_cmd(db.clone(), "set k v".to_owned()),
        "Success entry data\n"
    );
    assert_eq!(
        Controller::handle_cmd(db.clone(), "del k".to_owned()),
        "Success remove k\n"
    );
    assert_eq!(
        Controller::handle_cmd(db.clone(), "get k".to_owned()),
        "No value for key: k\n"
    );
    let observed = db.with_value("k", |val| val.map(|v| v.to_owned())).unwrap();
    assert_eq!(observed, None);
}

#[test]
fn set_without_value_reports_value_not_found() {
    let db = AtomicDb::new();
    let response = Controller::handle_cmd(db, "set k".to_owned());
    assert_eq!(response, "Value not found\n");
}

#[test]
fn get_without_key_reports_key_not_found() {
    let db = AtomicDb::new();
    let response = Controller::handle_cmd(db, "get".to_owned());
    assert_eq!(response, "Key not found\n");
}
