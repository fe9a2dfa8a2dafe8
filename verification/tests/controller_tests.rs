use kv_store::controller::Controller;
use kv_store::model::db::Db;
use kv_store::model::error::Error;

#[derive(Debug, Clone)]
struct MockDb<'a> {
    value_action: Result<Option<&'a str>, Error>,
    insert_action: Result<(), Error>,
    delete_action: Result<(), Error>,
}

impl<'a> MockDb<'a> {
    fn new() -> Self {
        Self {
            value_action: Err(Error::UnknownCommand),
            insert_action: Err(Error::UnknownCommand),
            delete_action: Err(Error::UnknownCommand),
        }
    }

    fn set_value_action(&mut self, action: Result<Option<&'a str>, Error>) {
        self.value_action = action;
    }

    fn set_insert_action(&mut self, action: Result<(), Error>) {
        self.insert_action = action;
    }

    fn set_delete_action(&mut self, action: Result<(), Error>) {
        self.delete_action = action;
    }
}

impl<'a> Db for MockDb<'a> {
    fn insert(&self, _: String, _: String) -> Result<(), Error> {
        self.insert_action.clone()
    }

    fn with_value<C, T>(&self, _: &str, carrier: C) -> Result<T, Error>
    where
        C: FnOnce(Option<&str>) -> T,
    {
        match &self.value_action {
            Ok(value) => Ok(carrier(*value)),
            Err(e) => Err(e.clone()),
        }
    }

    fn delete(&self, _: &str) -> Result<(), Error> {
        self.delete_action.clone()
    }
}

fn make_sut<'a>() -> (MockDb<'a>, String) {
    let sut = MockDb::new();
    let key: String = String::from("abc");
    (sut, key)
}

#[test]
fn fail_get_value() {
    let (sut, key) = make_sut();
    let response: String = Controller::handle_get(sut, key);
    assert_eq!(response, "Failed to get data\n");
}

#[test]
fn get_none_value() {
    let (mut sut, key) = make_sut();
    sut.set_value_action(Ok(None));
    let response: String = Controller::handle_get(sut, key);
    assert_eq!(response, "No value for key: abc\n");
}

#[test]
fn mod_get_value() {
    let (mut sut, key) = make_sut();
    sut.set_value_action(Ok(Some("10")));
    let response: String = Controller::handle_get(sut, key);
    assert_eq!(response, "10\n");
}

#[test]
fn fail_set_value() {
    let (sut, key) = make_sut();
    let response: String = Controller::handle_set(sut.clone(), key.clone(), "10".into());
    assert_eq!(response, "Failed to entry data\n");
}

#[test]
fn set_value() {
    let (mut sut, key) = make_sut();
    sut.set_insert_action(Ok(()));
    let response: String = Controller::handle_set(sut.clone(), key.clone(), "10".into());
    assert_eq!(response, "Success entry data\n");
}

#[test]
fn fail_del_value() {
    let (sut, key) = make_sut();
    let response: String = Controller::handle_del(sut.clone(), key.clone());
    assert_eq!(response, "Failed to delete data\n");
}

#[test]
fn del_none_value() {
    let (mut sut, key) = make_sut();
    sut.set_delete_action(Err(Error::KeyNotFound));
    let response: String = Controller::handle_del(sut.clone(), key.clone());
    assert_eq!(response, "No value for key: abc\n");
}

#[test]
fn del_value() {
    let (mut sut, key) = make_sut();
    sut.set_delete_action(Ok(()));
    let response: String = Controller::handle_del(sut.clone(), key.clone());
    assert_eq!(response, "Success remove abc\n");
}

#[test]
fn input_handler_with_unknown_cmd_test() {
    let (sut, request_line) = make_sut();
    let response: String = Controller::handle_cmd(sut, request_line);
    assert_eq!(response, "Unknown command\n");
}
