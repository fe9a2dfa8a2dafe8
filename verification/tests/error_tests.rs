use kv_store::model::error::Error as ModelError;
use kv_store::pool::error::Error as PoolError;

#[test]
fn request_error_messages_render_exactly() {
    assert_eq!(ModelError::KeyNotFound.message(), "Key not found");
    assert_eq!(ModelError::ValueNotFound.message(), "Value not found");
    assert_eq!(ModelError::UnknownCommand.message(), "Unknown command");
    assert_eq!(ModelError::DbPoisoned.message(), "Db mutex is poisoned");
}

#[test]
fn pool_fault_wraps_into_process_error() {
    let e = kv_store::error::Error::from(PoolError::InvalidPoolSize);
    assert!(matches!(
        e,
        kv_store::error::Error::Pool(PoolError::InvalidPoolSize)
    ));
}

#[test]
fn io_fault_wraps_into_process_error() {
    let io = std::io::Error::new(std::io::ErrorKind::Other, "transport failure");
    let e = kv_store::error::Error::from(io);
    assert!(matches!(e, kv_store::error::Error::Io(_)));
}
