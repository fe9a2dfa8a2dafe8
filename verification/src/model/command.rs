use vstd::prelude::*;
use vstd::string::StrSliceExecFns;
use vstd::string::StringExecFns;

use crate::model::error::Error;

verus! {

/// One parsed request: get, set or delete of a key.
#[derive(Debug, PartialEq)]
pub enum Command {
    GET(String),
    SET { key: String, value: String },
    DELETE(String),
}

/// The mathematical value of a [`Command`]: its keys and values as
/// character sequences.
pub enum CommandView {
    GET(Seq<char>),
    SET { key: Seq<char>, value: Seq<char> },
    DELETE(Seq<char>),
}

impl View for Command {
    type V = CommandView;

    open spec fn view(&self) -> CommandView {
        match self {
            Command::GET(k) => CommandView::GET(k@),
            Command::SET { key, value } => CommandView::SET { key: key@, value: value@ },
            Command::DELETE(k) => CommandView::DELETE(k@),
        }
    }
}

/// Whether `c` has the Unicode `White_Space` property, the separator set
/// that request lines are split on.
pub open spec fn is_space(c: char) -> bool {
    let u = c as u32;
    (0x09 <= u && u <= 0x0D) || u == 0x20 || u == 0x85 || u == 0xA0 || u == 0x1680 || (0x2000 <= u
        && u <= 0x200A) || u == 0x2028 || u == 0x2029 || u == 0x202F || u == 0x205F || u == 0x3000
}

/// Runtime test for [`is_space`].
pub fn is_space_char(c: char) -> (r: bool)
    ensures
        r == is_space(c),
{
    let u = c as u32;
    (0x09 <= u && u <= 0x0D) || u == 0x20 || u == 0x85 || u == 0xA0 || u == 0x1680 || (0x2000 <= u
        && u <= 0x200A) || u == 0x2028 || u == 0x2029 || u == 0x202F || u == 0x205F || u == 0x3000
}

/// Length of the maximal leading run of non-space characters of `s`.
pub open spec fn head_token_len(s: Seq<char>) -> nat
    decreases s.len(),
{
    if s.len() == 0 || is_space(s[0]) {
        0
    } else {
        1 + head_token_len(s.drop_first())
    }
}

/// The head token run never reaches past the end of `s`.
proof fn lemma_head_token_len_le(s: Seq<char>)
    ensures
        head_token_len(s) <= s.len(),
    decreases s.len(),
{
    if s.len() == 0 || is_space(s[0]) {
    } else {
        lemma_head_token_len_le(s.drop_first());
    }
}

/// The whitespace-separated tokens of `s`, in order, each non-empty.
pub open spec fn tokens_of(s: Seq<char>) -> Seq<Seq<char>>
    decreases s.len(),
    via tokens_of_decreases
{
    if s.len() == 0 {
        Seq::<Seq<char>>::empty()
    } else if is_space(s[0]) {
        tokens_of(s.drop_first())
    } else {
        let n = head_token_len(s) as int;
        seq![s.take(n)] + tokens_of(s.skip(n))
    }
}

#[via_fn]
proof fn tokens_of_decreases(s: Seq<char>) {
    if s.len() != 0 && !is_space(s[0]) {
        lemma_head_token_len_le(s);
    }
}

/// A maximal non-space run of length `k` at the head of `s` pins down
/// [`head_token_len`].
proof fn lemma_head_token_len(s: Seq<char>, k: int)
    requires
        0 <= k <= s.len(),
        forall|t: int| 0 <= t < k ==> !is_space(#[trigger] s[t]),
        k == s.len() || is_space(s[k]),
    ensures
        head_token_len(s) == k,
    decreases k,
{
    if k == 0 {
    } else {
        lemma_head_token_len(s.drop_first(), k - 1);
    }
}

/// Dropping one leading space character keeps the token list.
proof fn lemma_tokens_skip_space(s: Seq<char>, i: int)
    requires
        0 <= i < s.len(),
        is_space(s[i]),
    ensures
        tokens_of(s.skip(i)) == tokens_of(s.skip(i + 1)),
{
    assert(s.skip(i).drop_first() =~= s.skip(i + 1));
}

/// A token reaching from `i` to `j` is the head of the token list of the
/// suffix at `i`.
proof fn lemma_tokens_take_token(s: Seq<char>, i: int, j: int)
    requires
        0 <= i < j <= s.len(),
        forall|t: int| i <= t < j ==> !is_space(#[trigger] s[t]),
        j == s.len() || is_space(s[j]),
    ensures
        tokens_of(s.skip(i)) == seq![s.subrange(i, j)] + tokens_of(s.skip(j)),
{
    let suf = s.skip(i);
    assert(forall|t: int| 0 <= t < j - i ==> !is_space(#[trigger] suf[t]));
    lemma_head_token_len(suf, j - i);
    assert(suf.take(j - i) =~= s.subrange(i, j));
    assert(suf.skip(j - i) =~= s.skip(j));
}

/// Splits `s` on Unicode whitespace into its tokens.
pub fn split_tokens(s: &str) -> (r: Vec<String>)
    ensures
        r.deep_view() == tokens_of(s@),
{
    let mut toks: Vec<String> = Vec::new();
    let n = s.unicode_len();
    let mut i: usize = 0;
    proof {
        assert(s@.skip(0) =~= s@);
        assert(toks.deep_view() + tokens_of(s@) =~= tokens_of(s@));
    }
    while i < n
        invariant
            n == s@.len(),
            0 <= i <= n,
            toks.deep_view() + tokens_of(s@.skip(i as int)) == tokens_of(s@),
        decreases n - i,
    {
        let c = s.get_char(i);
        if is_space_char(c) {
            proof {
                lemma_tokens_skip_space(s@, i as int);
            }
            i = i + 1;
        } else {
            let start = i;
            i = i + 1;
            while i < n && !is_space_char(s.get_char(i))
                invariant
                    n == s@.len(),
                    start < i <= n,
                    forall|t: int| start <= t < i ==> !is_space(#[trigger] s@[t]),
                decreases n - i,
            {
                i = i + 1;
            }
            let tok = s.substring_char(start, i);
            let owned = String::from_str(tok);
            let ghost pre = toks.deep_view();
            toks.push(owned);
            proof {
                lemma_tokens_take_token(s@, start as int, i as int);
                assert(toks.deep_view() =~= pre.push(owned@));
                assert(pre.push(owned@) + tokens_of(s@.skip(i as int)) =~= pre + (seq![
                    s@.subrange(start as int, i as int),
                ] + tokens_of(s@.skip(i as int))));
            }
        }
    }
    proof {
        assert(s@.skip(n as int) =~= Seq::<char>::empty());
        assert(toks.deep_view() + tokens_of(s@.skip(n as int)) =~= toks.deep_view());
    }
    toks
}

/// A word: non-empty, with no whitespace inside.
pub open spec fn is_word(w: Seq<char>) -> bool {
    w.len() > 0 && forall|t: int| 0 <= t < w.len() ==> !is_space(#[trigger] w[t])
}

/// Characters inside the head token run are not whitespace.
proof fn lemma_head_token_chars(s: Seq<char>, t: int)
    requires
        0 <= t < head_token_len(s),
    ensures
        !is_space(s[t]),
    decreases t,
{
    lemma_head_token_len_le(s);
    if t == 0 {
    } else {
        lemma_head_token_chars(s.drop_first(), t - 1);
        assert(s.drop_first()[t - 1] == s[t]);
    }
}

/// Every token is a word: splitting never yields an empty token or one
/// holding whitespace.
pub proof fn lemma_tokens_are_words(s: Seq<char>, i: int)
    requires
        0 <= i < tokens_of(s).len(),
    ensures
        is_word(tokens_of(s)[i]),
    decreases s.len(),
{
    if s.len() == 0 {
    } else if is_space(s[0]) {
        lemma_tokens_are_words(s.drop_first(), i);
    } else {
        let n = head_token_len(s) as int;
        lemma_head_token_len_le(s);
        if i == 0 {
            assert(tokens_of(s)[0] == s.take(n));
            assert forall|t: int| 0 <= t < s.take(n).len() implies !is_space(
                #[trigger] s.take(n)[t],
            ) by {
                lemma_head_token_chars(s, t);
            }
        } else {
            lemma_tokens_are_words(s.skip(n), i - 1);
            assert(tokens_of(s)[i] == tokens_of(s.skip(n))[i - 1]);
        }
    }
}

/// Every key and value a parsed command carries is a word, so in
/// particular it holds no newline: a response built from it is one line.
pub proof fn lemma_parsed_fields_are_words(s: Seq<char>)
    ensures
        match parse_spec(s) {
            Ok(c) => match c {
                CommandView::GET(k) => is_word(k),
                CommandView::SET { key, value } => is_word(key) && is_word(value),
                CommandView::DELETE(k) => is_word(k),
            },
            Err(e) => true,
        },
{
    let toks = tokens_of(s);
    if toks.len() >= 2 {
        lemma_tokens_are_words(s, 1);
    }
    if toks.len() >= 3 {
        lemma_tokens_are_words(s, 2);
    }
}

/// Whether characters `a` and `b` are equal up to ASCII case.
pub open spec fn chars_eq_ignore_ascii_case(a: char, b: char) -> bool {
    let au = a as u32;
    let bu = b as u32;
    au == bu || (0x41 <= au && au <= 0x5A && au + 32 == bu) || (0x41 <= bu && bu <= 0x5A && bu + 32
        == au)
}

/// Whether token `t` spells verb `l` up to ASCII case.
pub open spec fn is_verb(t: Seq<char>, l: Seq<char>) -> bool {
    t.len() == l.len() && forall|i: int|
        0 <= i < t.len() ==> chars_eq_ignore_ascii_case(#[trigger] t[i], l[i])
}

/// Runtime test for [`is_verb`].
pub fn verb_matches(t: &str, l: &str) -> (r: bool)
    ensures
        r == is_verb(t@, l@),
{
    let tn = t.unicode_len();
    let ln = l.unicode_len();
    if tn != ln {
        return false;
    }
    let mut i: usize = 0;
    while i < tn
        invariant
            tn == t@.len(),
            ln == l@.len(),
            tn == ln,
            0 <= i <= tn,
            forall|k: int| 0 <= k < i ==> chars_eq_ignore_ascii_case(#[trigger] t@[k], l@[k]),
        decreases tn - i,
    {
        let au = t.get_char(i) as u32;
        let bu = l.get_char(i) as u32;
        let same = au == bu || (0x41 <= au && au <= 0x5A && au + 32 == bu) || (0x41 <= bu && bu
            <= 0x5A && bu + 32 == au);
        if !same {
            return false;
        }
        i = i + 1;
    }
    true
}

/// The command or parse error that request line `s` denotes.
///
/// The first token picks the verb, case-insensitively; `get` and
/// `del`/`delete` need a key, `set` needs a key and a value; tokens past
/// those are ignored; anything else is an unknown command.
pub open spec fn parse_spec(s: Seq<char>) -> Result<CommandView, Error> {
    let toks = tokens_of(s);
    if toks.len() == 0 {
        Err(Error::UnknownCommand)
    } else if is_verb(toks[0], "get"@) {
        if toks.len() < 2 {
            Err(Error::KeyNotFound)
        } else {
            Ok(CommandView::GET(toks[1]))
        }
    } else if is_verb(toks[0], "set"@) {
        if toks.len() < 2 {
            Err(Error::KeyNotFound)
        } else if toks.len() < 3 {
            Err(Error::ValueNotFound)
        } else {
            Ok(CommandView::SET { key: toks[1], value: toks[2] })
        }
    } else if is_verb(toks[0], "del"@) || is_verb(toks[0], "delete"@) {
        if toks.len() < 2 {
            Err(Error::KeyNotFound)
        } else {
            Ok(CommandView::DELETE(toks[1]))
        }
    } else {
        Err(Error::UnknownCommand)
    }
}

/// The value of a parse result, for stating [`Command::parse`].
pub open spec fn parse_result_view(r: Result<Command, Error>) -> Result<CommandView, Error> {
    match r {
        Ok(c) => Ok(c@),
        Err(e) => Err(e),
    }
}

impl Command {
    /// Parses one request line into a command, exactly as [`parse_spec`]
    /// describes.
    pub fn parse(s: &str) -> (r: Result<Command, Error>)
        ensures
            parse_result_view(r) == parse_spec(s@),
    {
        let toks = split_tokens(s);
        if toks.len() == 0 {
            return Err(Error::UnknownCommand);
        }
        proof {
            assert(toks.deep_view()[0] == toks@[0]@);
        }
        let verb = &toks[0];
        if verb_matches(verb.as_str(), "get") {
            if toks.len() < 2 {
                Err(Error::KeyNotFound)
            } else {
                proof {
                    assert(toks.deep_view()[1] == toks@[1]@);
                }
                Ok(Command::GET(toks[1].clone()))
            }
        } else if verb_matches(verb.as_str(), "set") {
            if toks.len() < 2 {
                Err(Error::KeyNotFound)
            } else if toks.len() < 3 {
                Err(Error::ValueNotFound)
            } else {
                proof {
                    assert(toks.deep_view()[1] == toks@[1]@);
                    assert(toks.deep_view()[2] == toks@[2]@);
                }
                Ok(Command::SET { key: toks[1].clone(), value: toks[2].clone() })
            }
        } else if verb_matches(verb.as_str(), "del") || verb_matches(verb.as_str(), "delete") {
            if toks.len() < 2 {
                Err(Error::KeyNotFound)
            } else {
                proof {
                    assert(toks.deep_view()[1] == toks@[1]@);
                }
                Ok(Command::DELETE(toks[1].clone()))
            }
        } else {
            Err(Error::UnknownCommand)
        }
    }
}

} // verus!
