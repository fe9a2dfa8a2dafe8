use vstd::prelude::*;
use vstd::string::StringExecFns;

use crate::model::command::{parse_spec, Command, CommandView};
use crate::model::db::{AtomicDb, Db};
use crate::model::error::Error;

verus! {

/// Turns one parsed command into one store operation and exactly one
/// newline-terminated response line; every failure path becomes a
/// response line, none escapes.
pub struct Controller;

/// Response carrying a stored value.
pub open spec fn value_response(v: Seq<char>) -> Seq<char> {
    v + "\n"@
}

/// Response for a key that holds no value.
pub open spec fn no_value_response(k: Seq<char>) -> Seq<char> {
    "No value for key: "@ + k + "\n"@
}

/// The one response line a get produces from what the store reported:
/// the value, its absence, or a store failure.
pub open spec fn get_response(key: Seq<char>, obs: Result<Option<Seq<char>>, Error>) -> Seq<char> {
    match obs {
        Ok(Some(v)) => value_response(v),
        Ok(None) => no_value_response(key),
        Err(e) => "Failed to get data\n"@,
    }
}

/// The one response line a set produces from what the store reported.
pub open spec fn set_response(obs: Result<(), Error>) -> Seq<char> {
    match obs {
        Ok(u) => "Success entry data\n"@,
        Err(e) => "Failed to entry data\n"@,
    }
}

/// The one response line a delete produces from what the store reported:
/// only `KeyNotFound` is rendered as the key's absence.
pub open spec fn del_response(key: Seq<char>, obs: Result<(), Error>) -> Seq<char> {
    match obs {
        Ok(u) => "Success remove "@ + key + "\n"@,
        Err(e) => if e == Error::KeyNotFound {
            no_value_response(key)
        } else {
            "Failed to delete data\n"@
        },
    }
}

/// The value of a get outcome, for stating the render functions.
pub open spec fn get_obs_view(obs: Result<Option<String>, Error>) -> Result<
    Option<Seq<char>>,
    Error,
> {
    match obs {
        Ok(Some(s)) => Ok(Some(s@)),
        Ok(None) => Ok(None),
        Err(e) => Err(e),
    }
}

/// How [`Controller::handle_cmd`] answers request line `line` with
/// `resp` against store `db`: a parse error is rendered as its message
/// line; a set or delete is answered by the response mapped from an
/// outcome the store's own operation can actually report for the parsed
/// key and value; a get by the response mapped from what its visitor
/// observed.
pub open spec fn cmd_response_matches<D: Db>(db: &D, line: Seq<char>, resp: Seq<char>) -> bool {
    match parse_spec(line) {
        Ok(c) => match c {
            CommandView::GET(k) => exists|obs: Result<Option<Seq<char>>, Error>|
                resp == get_response(k, obs),
            CommandView::SET { key, value } => exists|ks: String, vs: String, obs: Result<(), Error>|
                ks@ == key && vs@ == value && #[trigger] call_ensures(D::insert, (db, ks, vs), obs)
                    && resp == set_response(obs),
            CommandView::DELETE(k) => exists|ks: &str, obs: Result<(), Error>|
                ks@ == k && #[trigger] call_ensures(D::delete, (db, ks), obs) && resp
                    == del_response(k, obs),
        },
        Err(e) => resp == e.message_spec() + "\n"@,
    }
}

/// A get of a key the store holds no value for renders exactly the
/// `No value for key` line.
pub proof fn lemma_get_absent_renders_no_value(k: Seq<char>)
    ensures
        get_response(k, Ok(None)) == no_value_response(k),
{
}

/// Every answer of [`Controller::handle_cmd`] is one non-empty,
/// newline-terminated response line, whatever the store reported: no
/// request is left without a response and none escapes as a fault.
pub proof fn lemma_response_is_newline_terminated<D: Db>(db: &D, line: Seq<char>, resp: Seq<char>)
    requires
        cmd_response_matches(db, line, resp),
    ensures
        resp.len() > 0,
        resp[resp.len() - 1] == '\n',
{
    reveal_strlit("\n");
    reveal_strlit("Failed to get data\n");
    reveal_strlit("Success entry data\n");
    reveal_strlit("Failed to entry data\n");
    reveal_strlit("Failed to delete data\n");
    match parse_spec(line) {
        Ok(c) => match c {
            CommandView::GET(k) => {
                let obs = choose|obs: Result<Option<Seq<char>>, Error>|
                    resp == get_response(k, obs);
                assert(resp == get_response(k, obs));
            },
            CommandView::SET { key, value } => {
                let (ks, vs, obs) = choose|ks: String, vs: String, obs: Result<(), Error>|
                    ks@ == key && vs@ == value && #[trigger] call_ensures(
                        D::insert,
                        (db, ks, vs),
                        obs,
                    ) && resp == set_response(obs);
                assert(resp == set_response(obs));
            },
            CommandView::DELETE(k) => {
                let (ks, obs) = choose|ks: &str, obs: Result<(), Error>|
                    ks@ == k && #[trigger] call_ensures(D::delete, (db, ks), obs) && resp
                        == del_response(k, obs);
                assert(resp == del_response(k, obs));
            },
        },
        Err(e) => {
            assert(resp == e.message_spec() + "\n"@);
        },
    }
}

/// With the concrete store, whose insert always succeeds, a well-formed
/// set request is always answered with the success line.
pub proof fn lemma_store_set_answers_success(db: &AtomicDb, line: Seq<char>, resp: Seq<char>)
    requires
        cmd_response_matches(db, line, resp),
        parse_spec(line) is Ok,
        parse_spec(line)->Ok_0 is SET,
    ensures
        resp == "Success entry data\n"@,
{
    let key = parse_spec(line)->Ok_0->SET_key;
    let value = parse_spec(line)->Ok_0->SET_value;
    let (ks, vs, obs) = choose|ks: String, vs: String, obs: Result<(), Error>|
        ks@ == key && vs@ == value && #[trigger] call_ensures(AtomicDb::insert, (db, ks, vs), obs)
            && resp == set_response(obs);
    assert(obs is Ok);
    assert(resp == set_response(obs));
}

/// With the concrete store, whose delete errs only with `KeyNotFound`,
/// a well-formed delete request is answered with the success line or
/// the key's no-value line — never the internal-failure line.
pub proof fn lemma_store_del_answers_exactly(db: &AtomicDb, line: Seq<char>, resp: Seq<char>)
    requires
        cmd_response_matches(db, line, resp),
        parse_spec(line) is Ok,
        parse_spec(line)->Ok_0 is DELETE,
    ensures
        resp == "Success remove "@ + parse_spec(line)->Ok_0->DELETE_0 + "\n"@ || resp
            == no_value_response(parse_spec(line)->Ok_0->DELETE_0),
{
    let k = parse_spec(line)->Ok_0->DELETE_0;
    let (ks, obs) = choose|ks: &str, obs: Result<(), Error>|
        ks@ == k && #[trigger] call_ensures(AtomicDb::delete, (db, ks), obs) && resp
            == del_response(k, obs);
    assert(obs is Ok || obs->Err_0 == Error::KeyNotFound);
    assert(resp == del_response(k, obs));
}

/// A get response carrying a word value — as every value that entered
/// through a parsed set command is — is exactly one line: its only
/// newline is the terminator.
pub proof fn lemma_word_value_is_one_line(v: Seq<char>)
    requires
        crate::model::command::is_word(v),
    ensures
        value_response(v).len() > 0,
        value_response(v)[value_response(v).len() - 1] == '\n',
        forall|t: int|
            0 <= t < value_response(v).len() - 1 ==> #[trigger] value_response(v)[t] != '\n',
{
    reveal_strlit("\n");
    assert(crate::model::command::is_space('\n'));
    assert forall|t: int|
        0 <= t < value_response(v).len() - 1 implies #[trigger] value_response(v)[t] != '\n' by {
        assert(value_response(v)[t] == v[t]);
        assert(!crate::model::command::is_space(v[t]));
    }
}

impl Controller {
    /// Renders the response line for a get, given what the store
    /// reported for `key`.
    pub fn render_get(key: &String, obs: Result<Option<String>, Error>) -> (r: String)
        ensures
            r@ == get_response(key@, get_obs_view(obs)),
    {
        match obs {
            Ok(Some(v)) => v.concat("\n"),
            Ok(None) => {
                let mut m = String::from_str("No value for key: ");
                m.append(key.as_str());
                m.append("\n");
                m
            },
            Err(_) => String::from_str("Failed to get data\n"),
        }
    }

    /// Renders the response line for a set, given what the store
    /// reported.
    pub fn render_set(obs: Result<(), Error>) -> (r: String)
        ensures
            r@ == set_response(obs),
    {
        match obs {
            Ok(_) => String::from_str("Success entry data\n"),
            Err(_) => String::from_str("Failed to entry data\n"),
        }
    }

    /// Renders the response line for a delete, given what the store
    /// reported for `key`.
    pub fn render_del(key: &String, obs: Result<(), Error>) -> (r: String)
        ensures
            r@ == del_response(key@, obs),
    {
        match obs {
            Ok(_) => {
                let mut m = String::from_str("Success remove ");
                m.append(key.as_str());
                m.append("\n");
                m
            },
            Err(Error::KeyNotFound) => {
                let mut m = String::from_str("No value for key: ");
                m.append(key.as_str());
                m.append("\n");
                m
            },
            Err(_) => String::from_str("Failed to delete data\n"),
        }
    }

    /// Reads `key` through the store's visitor and renders the response:
    /// the stored value, `No value for key`, or `Failed to get data`,
    /// exactly as [`get_response`] maps what the store reported.
    pub fn handle_get<D: Db>(db: D, key: String) -> (r: String)
        ensures
            exists|obs: Result<Option<Seq<char>>, Error>| r@ == get_response(key@, obs),
    {
        let carrier = |val: Option<&str>| -> (out: Option<String>)
            ensures
                match val {
                    Some(v) => out matches Some(s) && s@ == v@,
                    None => out is None,
                },
            {
                match val {
                    Some(v) => Some(String::from_str(v)),
                    None => None,
                }
            };
        let res: Result<Option<String>, Error> = db.with_value(key.as_str(), carrier);
        let r = Controller::render_get(&key, res);
        proof {
            assert(r@ == get_response(key@, get_obs_view(res)));
        }
        r
    }

    /// Writes `value` for `key` and renders the response: exactly
    /// [`set_response`] of the outcome the store's insert reported.
    pub fn handle_set<D: Db>(db: D, key: String, value: String) -> (r: String)
        ensures
            exists|obs: Result<(), Error>|
                #[trigger] call_ensures(D::insert, (&db, key, value), obs) && r@ == set_response(
                    obs,
                ),
    {
        let res = db.insert(key, value);
        let r = Controller::render_set(res);
        proof {
            assert(call_ensures(D::insert, (&db, key, value), res));
            assert(r@ == set_response(res));
        }
        r
    }

    /// Deletes `key` and renders the response: exactly [`del_response`]
    /// of the outcome the store's delete reported.
    pub fn handle_del<D: Db>(db: D, key: String) -> (r: String)
        ensures
            exists|ks: &str, obs: Result<(), Error>|
                ks@ == key@ && #[trigger] call_ensures(D::delete, (&db, ks), obs) && r@
                    == del_response(key@, obs),
    {
        let ks = key.as_str();
        let res = db.delete(ks);
        let r = Controller::render_del(&key, res);
        proof {
            assert(call_ensures(D::delete, (&db, ks), res));
            assert(r@ == del_response(key@, res));
        }
        r
    }

    /// Parses one request line, performs the one store operation it
    /// names, and renders the one response line: parse errors become
    /// their message line without touching the store; commands map to
    /// [`get_response`], [`set_response`] and [`del_response`].
    pub fn handle_cmd<D: Db>(db: D, request_line: String) -> (r: String)
        ensures
            cmd_response_matches(&db, request_line@, r@),
    {
        let res = Command::parse(request_line.as_str());
        match res {
            Ok(Command::GET(key)) => {
                let ghost kv = key@;
                let r = Controller::handle_get(db, key);
                proof {
                    assert(parse_spec(request_line@) == Ok::<CommandView, Error>(CommandView::GET(kv)));
                    assert(parse_spec(request_line@)->Ok_0->GET_0 == kv);
                    let obs = choose|obs: Result<Option<Seq<char>>, Error>|
                        r@ == get_response(kv, obs);
                    assert(r@ == get_response(parse_spec(request_line@)->Ok_0->GET_0, obs));
                    assert(cmd_response_matches(&db, request_line@, r@));
                }
                r
            },
            Ok(Command::SET { key, value }) => {
                let ghost kv = key@;
                let ghost vv = value@;
                let ghost ksnap = key;
                let ghost vsnap = value;
                let r = Controller::handle_set(db, key, value);
                proof {
                    assert(parse_spec(request_line@) == Ok::<CommandView, Error>(
                        CommandView::SET { key: kv, value: vv },
                    ));
                    assert(parse_spec(request_line@)->Ok_0->SET_key == kv);
                    assert(parse_spec(request_line@)->Ok_0->SET_value == vv);
                    let obs = choose|obs: Result<(), Error>|
                        #[trigger] call_ensures(D::insert, (&db, ksnap, vsnap), obs) && r@
                            == set_response(obs);
                    assert(ksnap@ == parse_spec(request_line@)->Ok_0->SET_key);
                    assert(vsnap@ == parse_spec(request_line@)->Ok_0->SET_value);
                    assert(call_ensures(D::insert, (&db, ksnap, vsnap), obs) && r@ == set_response(
                        obs,
                    ));
                    assert(cmd_response_matches(&db, request_line@, r@));
                }
                r
            },
            Ok(Command::DELETE(key)) => {
                let ghost kv = key@;
                let r = Controller::handle_del(db, key);
                proof {
                    assert(parse_spec(request_line@) == Ok::<CommandView, Error>(CommandView::DELETE(kv)));
                    assert(parse_spec(request_line@)->Ok_0->DELETE_0 == kv);
                    let (ks, obs) = choose|ks: &str, obs: Result<(), Error>|
                        ks@ == kv && #[trigger] call_ensures(D::delete, (&db, ks), obs) && r@
                            == del_response(kv, obs);
                    assert(ks@ == parse_spec(request_line@)->Ok_0->DELETE_0);
                    assert(call_ensures(D::delete, (&db, ks), obs) && r@ == del_response(
                        parse_spec(request_line@)->Ok_0->DELETE_0,
                        obs,
                    ));
                    assert(cmd_response_matches(&db, request_line@, r@));
                }
                r
            },
            Err(error) => {
                let mut m = error.message();
                m.append("\n");
                proof {
                    assert(cmd_response_matches(&db, request_line@, m@));
                }
                m
            },
        }
    }
}

} // verus!
