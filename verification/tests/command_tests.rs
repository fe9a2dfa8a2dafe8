use kv_store::model::command::Command;
use kv_store::model::command::split_tokens;
use kv_store::model::error::Error;

#[test]
fn empty_cmd_test() {
    let sut: String = String::from("");
    assert_eq!(Command::parse(&sut), Err(Error::UnknownCommand));
}

#[test]
fn unknown_cmd_test() {
    let sut: String = String::from("gibberish");
    assert_eq!(Command::parse(&sut), Err(Error::UnknownCommand));
}

#[test]
fn get_cmd_test() {
    let sut: String = String::from("get abc");
    assert_eq!(Command::parse(&sut), Ok(Command::GET("abc".into())));
}

#[test]
fn get_cmd_no_key_test() {
    let sut: String = String::from("get");
    assert_eq!(Command::parse(&sut), Err(Error::KeyNotFound));
}

#[test]
fn get_cmd_with_value_test() {
    let sut: String = String::from("get abc 10");
    assert_eq!(Command::parse(&sut), Ok(Command::GET("abc".into())));
}

#[test]
fn set_cmd_test() {
    let sut: String = String::from("set abc 10");
    assert_eq!(
        Command::parse(&sut),
        Ok(Command::SET { key: "abc".into(), value: "10".into() })
    );
}

#[test]
fn set_cmd_no_key_test() {
    let sut: String = String::from("set");
    assert_eq!(Command::parse(&sut), Err(Error::KeyNotFound));
}

#[test]
fn set_cmd_no_value_test() {
    let sut: String = String::from("set abc");
    assert_eq!(Command::parse(&sut), Err(Error::ValueNotFound));
}

#[test]
fn del_cmd_test() {
    let sut: String = String::from("del abc");
    assert_eq!(Command::parse(&sut), Ok(Command::DELETE("abc".into())));
}

#[test]
fn del_cmd_no_key_test() {
    let sut: String = String::from("del");
    assert_eq!(Command::parse(&sut), Err(Error::KeyNotFound));
}

#[test]
fn delete_cmd_test() {
    let sut: String = String::from("delete abc");
    assert_eq!(Command::parse(&sut), Ok(Command::DELETE("abc".into())));
}

#[test]
fn delete_cmd_no_key_test() {
    let sut: String = String::from("delete");
    assert_eq!(Command::parse(&sut), Err(Error::KeyNotFound));
}

#[test]
fn split_tokens_test() {
    let toks = split_tokens(" set  abc\t 10\n");
    assert_eq!(toks, vec!["set".to_owned(), "abc".to_owned(), "10".to_owned()]);
    assert_eq!(split_tokens(""), Vec::<String>::new());
    assert_eq!(split_tokens("  \t "), Vec::<String>::new());
}

#[test]
fn case_insensitive_verb_test() {
    let sut: String = String::from("GeT abc");
    assert_eq!(Command::parse(&sut), Ok(Command::GET("abc".into())));
    let sut2: String = String::from("DELETE abc");
    assert_eq!(Command::parse(&sut2), Ok(Command::DELETE("abc".into())));
}

#[test]
fn whitespace_only_cmd_test() {
    let sut: String = String::from("   \t  ");
    assert_eq!(Command::parse(&sut), Err(Error::UnknownCommand));
}

#[test]
fn extra_whitespace_between_tokens_test() {
    let sut: String = String::from("  set   abc\t10 ");
    assert_eq!(
        Command::parse(&sut),
        Ok(Command::SET { key: "abc".into(), value: "10".into() })
    );
}
