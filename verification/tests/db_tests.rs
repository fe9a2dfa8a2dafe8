use kv_store::model::db::{AtomicDb, Db};
use kv_store::model::error::Error;

#[test]
fn insert_value() {
    let sut = AtomicDb::new();
    let key = format!("a");
    let value = format!("data");

    sut.insert(key.clone(), value).unwrap();
    sut.with_value(&key, |val| {
        assert_eq!(val, Some("data"));
    })
    .unwrap();
}

#[test]
fn db_get_value() {
    let sut = AtomicDb::new();
    let key = format!("a");
    let value = format!("data");

    sut.with_value(&key, |val| {
        assert_eq!(val, None);
    })
    .unwrap();

    sut.insert(key.clone(), value).unwrap();
    sut.with_value(&key, |val| {
        assert_eq!(val, Some("data"));
    })
    .unwrap();
}

#[test]
fn delete_value() {
    let sut = AtomicDb::new();
    let key = format!("a");
    let value = format!("data");

    sut.insert(key.clone(), value).unwrap();
    sut.with_value(&key, |val| {
        assert_eq!(val, Some("data"));
    })
    .unwrap();

    sut.delete(&key).unwrap();
    sut.with_value(&key, |val| {
        assert_eq!(val, None);
    })
    .unwrap();
}

#[test]
fn never_inserted_key_is_absent() {
    let sut = AtomicDb::new();
    let observed = sut.with_value("missing", |val| val.map(|v| v.to_owned())).unwrap();
    assert_eq!(observed, None);
}

#[test]
fn overwrite_observes_last_value() {
    let sut = AtomicDb::new();
    sut.insert("k".to_owned(), "v1".to_owned()).unwrap();
    sut.insert("k".to_owned(), "v2".to_owned()).unwrap();
    let observed = sut.with_value("k", |val| val.map(|v| v.to_owned())).unwrap();
    assert_eq!(observed, Some("v2".to_owned()));
}

#[test]
fn delete_absent_key_reports_key_not_found() {
    let sut = AtomicDb::new();
    sut.insert("other".to_owned(), "v".to_owned()).unwrap();
    assert_eq!(sut.delete("missing"), Err(Error::KeyNotFound));
    let untouched = sut.with_value("other", |val| val.map(|v| v.to_owned())).unwrap();
    assert_eq!(untouched, Some("v".to_owned()));
}

#[test]
fn clone_shares_the_store() {
    let sut = AtomicDb::new();
    let other = sut.clone();
    other.insert("k".to_owned(), "v".to_owned()).unwrap();
    let observed = sut.with_value("k", |val| val.map(|v| v.to_owned())).unwrap();
    assert_eq!(observed, Some("v".to_owned()));
}
