//! Settings as lines of text to be edited: a key and a value in each.
use crate::document::{bool_text, show_bool};
use crate::domain::{
    ApiKeyPlacement, Authentication, AuthenticationView, Interval, RequestSettings,
};
use crate::editor_fields::{lemma_lines_of_join, lemma_split_at, said};
use crate::lines::{is_line, join, join_texts, lines, split_lines};
use crate::message::concat3;
use crate::number::{
    decimal, decimal_text, is_digit, lemma_decimal, lemma_parse_decimal, parse_unsigned,
    read_unsigned,
};
use crate::order::{distinct_keys, lemma_map_of, map_of, FieldMap, TextMap};
use crate::text::{
    chars_of, is_blank, lemma_trim, lemma_trim_first, same_text, slices, split_at_char, split_once,
    string_of, texts, trim, trim_chars, trimmed,
};
use vstd::prelude::*;

verus! {

/// Settings by key.
pub type Settings = Map<Seq<char>, Seq<char>>;

/// A value as it counts: with the space around it, or without.
pub open spec fn setting_value(value: Seq<char>, plain: bool) -> Seq<char> {
    if plain {
        trim(value)
    } else {
        value
    }
}

/// The settings that lines say; blank lines say nothing, and of two lines with the same key the
/// later one counts.
pub open spec fn keyed(list: Seq<Seq<char>>, plain: bool, what: Seq<char>) -> Result<
    Settings,
    Seq<char>,
>
    decreases list.len(),
{
    if list.len() == 0 {
        Ok(Map::empty())
    } else {
        match keyed(list.drop_last(), plain, what) {
            Err(e) => Err(e),
            Ok(m) => if is_blank(list.last()) {
                Ok(m)
            } else {
                match split_once(list.last(), '=') {
                    None => Err(what + " '"@ + list.last() + "' must use key=value"@),
                    Some((key, value)) => Ok(m.insert(trim(key), setting_value(value, plain))),
                }
            },
        }
    }
}

proof fn lemma_keyed_error(list: Seq<Seq<char>>, plain: bool, what: Seq<char>, k: int)
    requires
        0 <= k <= list.len(),
        keyed(list.take(k), plain, what) is Err,
    ensures
        keyed(list, plain, what) == keyed(list.take(k), plain, what),
    decreases list.len() - k,
{
    if k < list.len() {
        assert(list.take(k + 1).drop_last() =~= list.take(k));
        lemma_keyed_error(list, plain, what, k + 1);
    } else {
        assert(list.take(k) =~= list);
    }
}

/// Reads the settings that lines say.
pub fn read_keyed(list: &[&[char]], plain: bool, what: &str) -> (r: Result<FieldMap, String>)
    ensures
        match r {
            Ok(m) => m.wf() && keyed(slices(list@), plain, what@) == Ok::<Settings, Seq<char>>(m@),
            Err(e) => keyed(slices(list@), plain, what@) == Err::<Settings, Seq<char>>(e@),
        },
{
    let ghost all = slices(list@);
    let mut m: FieldMap = TextMap::new();
    assert(all.take(0) =~= seq![]);
    for i in 0..list.len()
        invariant
            all == slices(list@),
            m.wf(),
            keyed(all.take(i as int), plain, what@) == Ok::<Settings, Seq<char>>(m@),
    {
        let line = list[i];
        proof {
            assert(all.take(i + 1).drop_last() =~= all.take(i as int));
            assert(all.take(i + 1).last() == line@);
        }
        if trim_chars(line).len() > 0 {
            match split_at_char(line, '=') {
                None => {
                    let first = concat3(what, " '", string_of(line).as_str());
                    let r = crate::message::concat2(first.as_str(), "' must use key=value");
                    proof {
                        assert(r@ =~= what@ + " '"@ + line@ + "' must use key=value"@);
                        lemma_keyed_error(all, plain, what@, i + 1);
                    }
                    return Err(r);
                },
                Some((key, value)) => {
                    let held = if plain {
                        string_of(trim_chars(value))
                    } else {
                        string_of(value)
                    };
                    m.insert(string_of(trim_chars(key)), held);
                },
            }
        }
    }
    assert(all.take(list@.len() as int) =~= all);
    Ok(m)
}

/// The value of a key that has to be there.
pub open spec fn demanded(m: Settings, key: Seq<char>, missing: Seq<char>) -> Result<
    Seq<char>,
    Seq<char>,
> {
    if m.dom().contains(key) {
        Ok(m[key])
    } else {
        Err(missing + " '"@ + key + "'"@)
    }
}

/// Finds the value of a key that has to be there.
pub fn demand<'a>(m: &'a FieldMap, key: &str, missing: &str) -> (r: Result<&'a str, String>)
    requires
        m.wf(),
    ensures
        match r {
            Ok(v) => demanded(m@, key@, missing@) == Ok::<Seq<char>, Seq<char>>(v@),
            Err(e) => demanded(m@, key@, missing@) == Err::<Seq<char>, Seq<char>>(e@),
        },
{
    match m.get(key) {
        Some(v) => Ok(v.as_str()),
        None => {
            let first = concat3(missing, " '", key);
            let r = crate::message::concat2(first.as_str(), "'");
            assert(r@ =~= missing@ + " '"@ + key@ + "'"@);
            Err(r)
        },
    }
}

/// A number that has to be there.
pub open spec fn demanded_number(m: Settings, key: Seq<char>, missing: Seq<char>, limit: int) -> Result<
    int,
    Seq<char>,
> {
    match demanded(m, key, missing) {
        Err(e) => Err(e),
        Ok(text) => match parse_unsigned(text, limit) {
            Some(n) => Ok(n),
            None => Err(key + " must be an integer"@),
        },
    }
}

/// Reads a number that has to be there.
pub fn demand_number(m: &FieldMap, key: &str, missing: &str, limit: u64) -> (r: Result<u64, String>)
    requires
        m.wf(),
    ensures
        match r {
            Ok(n) => demanded_number(m@, key@, missing@, limit as int) == Ok::<int, Seq<char>>(
                n as int,
            ) && n <= limit,
            Err(e) => demanded_number(m@, key@, missing@, limit as int) == Err::<int, Seq<char>>(
                e@,
            ),
        },
{
    let text = match demand(m, key, missing) {
        Ok(t) => t,
        Err(e) => {
            return Err(e);
        },
    };
    match read_unsigned(chars_of(text).as_slice(), limit) {
        Some(n) => Ok(n),
        None => Err(crate::message::concat2(key, " must be an integer")),
    }
}

/// The truth value of a word.
pub open spec fn truth(text: Seq<char>) -> Option<bool> {
    if text == "true"@ {
        Some(true)
    } else if text == "false"@ {
        Some(false)
    } else {
        None
    }
}

/// Reads the word for a truth value.
pub fn read_truth(text: &str) -> (r: Option<bool>)
    ensures
        r == truth(text@),
{
    if same_text(text, "true") {
        Some(true)
    } else if same_text(text, "false") {
        Some(false)
    } else {
        None
    }
}

/// A truth value is read from its word.
pub proof fn lemma_truth(b: bool)
    ensures
        truth(bool_text(b)) == Some(b),
        trimmed(bool_text(b)),
        is_line(bool_text(b)),
        bool_text(b).len() > 0,
{
    reveal_strlit("true");
    reveal_strlit("false");
    assert("true"@.len() == 4 && "false"@.len() == 5);
}

/// A truth value that has to be there.
pub open spec fn demanded_truth(m: Settings, key: Seq<char>, missing: Seq<char>) -> Result<
    bool,
    Seq<char>,
> {
    match demanded(m, key, missing) {
        Err(e) => Err(e),
        Ok(text) => match truth(text) {
            Some(b) => Ok(b),
            None => Err("setting '"@ + key + "' must be true or false"@),
        },
    }
}

fn demand_truth(m: &FieldMap, key: &str, missing: &str) -> (r: Result<bool, String>)
    requires
        m.wf(),
    ensures
        said(r) == demanded_truth(m@, key@, missing@),
{
    let text = match demand(m, key, missing) {
        Ok(t) => t,
        Err(e) => {
            return Err(e);
        },
    };
    match read_truth(text) {
        Some(b) => Ok(b),
        None => Err(concat3("setting '", key, "' must be true or false")),
    }
}

/// The line of a setting.
pub open spec fn pair_line(p: (Seq<char>, Seq<char>)) -> Seq<char> {
    p.0 + seq!['='] + p.1
}

/// The lines of settings.
pub open spec fn pair_lines(pairs: Seq<(Seq<char>, Seq<char>)>) -> Seq<Seq<char>> {
    pairs.map_values(|p: (Seq<char>, Seq<char>)| pair_line(p))
}

fn write_pair(key: &str, value: &str) -> (r: String)
    ensures
        r@ == pair_line((key@, value@)),
{
    let r = concat3(key, "=", value);
    proof {
        reveal_strlit("=");
        assert("="@ =~= seq!['=']);
        assert(r@ =~= pair_line((key@, value@)));
    }
    r
}

/// Whether a setting can be written as a line and read back.
pub open spec fn plain_pair(p: (Seq<char>, Seq<char>), plain: bool) -> bool {
    &&& p.0.len() > 0
    &&& trimmed(p.0)
    &&& !p.0.contains('=')
    &&& plain ==> trimmed(p.1)
}

/// Settings are read back from their lines.
pub proof fn lemma_keyed_pairs(pairs: Seq<(Seq<char>, Seq<char>)>, plain: bool, what: Seq<char>)
    requires
        forall|i: int| 0 <= i < pairs.len() ==> plain_pair(#[trigger] pairs[i], plain),
    ensures
        keyed(pair_lines(pairs), plain, what) == Ok::<Settings, Seq<char>>(map_of(pairs)),
    decreases pairs.len(),
{
    let list = pair_lines(pairs);
    if pairs.len() == 0 {
        assert(map_of(pairs) =~= Map::empty());
    } else {
        let front = pairs.drop_last();
        assert forall|i: int| 0 <= i < front.len() implies plain_pair(#[trigger] front[i], plain) by {
            assert(front[i] == pairs[i]);
        }
        lemma_keyed_pairs(front, plain, what);
        assert(list.drop_last() =~= pair_lines(front));
        let p = pairs.last();
        assert(plain_pair(pairs[pairs.len() - 1], plain));
        assert(list.last() == pair_line(p));
        lemma_split_at(p.0, '=', p.1);
        lemma_trim(p.0);
        lemma_trim(p.1);
        assert(list.last()[0] == p.0[0]);
        lemma_trim_first(list.last());
    }
}

/// What proves who sends a request, as settings.
pub open spec fn authentication_lines(a: AuthenticationView) -> Seq<Seq<char>> {
    match a {
        AuthenticationView::Anonymous => seq!["none"@],
        AuthenticationView::Basic { username, password } => seq!["basic"@] + pair_lines(
            seq![("username"@, username), ("password"@, password)],
        ),
        AuthenticationView::Bearer { token } => seq!["bearer"@] + pair_lines(
            seq![("token"@, token)],
        ),
        AuthenticationView::ApiKey { name, value, placement } => seq!["api_key"@] + pair_lines(
            seq![("placement"@, placement_text(placement)), ("name"@, name), ("value"@, value)],
        ),
    }
}

/// The name of where a key is put.
pub open spec fn placement_text(placement: ApiKeyPlacement) -> Seq<char> {
    match placement {
        ApiKeyPlacement::Header => "header"@,
        ApiKeyPlacement::Query => "query"@,
    }
}

/// The text of what proves who sends a request.
pub open spec fn authentication_text(a: AuthenticationView) -> Seq<char> {
    join(authentication_lines(a), "\n"@)
}

/// Writes what proves who sends a request as text.
pub fn format_authentication(authentication: &Authentication) -> (r: String)
    ensures
        r@ == authentication_text(authentication@),
{
    let mut list: Vec<String> = Vec::new();
    match authentication {
        Authentication::Anonymous => {
            list.push("none".to_owned());
        },
        Authentication::Basic { username, password } => {
            list.push("basic".to_owned());
            list.push(write_pair("username", username.as_str()));
            list.push(write_pair("password", password.as_str()));
        },
        Authentication::Bearer { token } => {
            list.push("bearer".to_owned());
            list.push(write_pair("token", token.as_str()));
        },
        Authentication::ApiKey { name, value, placement } => {
            list.push("api_key".to_owned());
            list.push(
                write_pair(
                    "placement",
                    match placement {
                        ApiKeyPlacement::Header => "header",
                        ApiKeyPlacement::Query => "query",
                    },
                ),
            );
            list.push(write_pair("name", name.as_str()));
            list.push(write_pair("value", value.as_str()));
        },
    }
    assert(texts(list@) =~= authentication_lines(authentication@));
    join_texts(list.as_slice(), "\n")
}

/// The lines that are not blank.
pub open spec fn written_lines(list: Seq<Seq<char>>) -> Seq<Seq<char>>
    decreases list.len(),
{
    if list.len() == 0 {
        seq![]
    } else if is_blank(list.last()) {
        written_lines(list.drop_last())
    } else {
        written_lines(list.drop_last()).push(list.last())
    }
}

/// What proves who sends a request, of a kind and with some settings.
pub open spec fn authentication_with(kind: Seq<char>, m: Settings) -> Result<
    AuthenticationView,
    Seq<char>,
> {
    let missing = "authentication is missing"@;
    if kind == "none"@ {
        Ok(AuthenticationView::Anonymous)
    } else if kind == "basic"@ {
        match demanded(m, "username"@, missing) {
            Err(e) => Err(e),
            Ok(username) => match demanded(m, "password"@, missing) {
                Err(e) => Err(e),
                Ok(password) => Ok(AuthenticationView::Basic { username, password }),
            },
        }
    } else if kind == "bearer"@ {
        match demanded(m, "token"@, missing) {
            Err(e) => Err(e),
            Ok(token) => Ok(AuthenticationView::Bearer { token }),
        }
    } else if kind == "api_key"@ {
        match demanded(m, "name"@, missing) {
            Err(e) => Err(e),
            Ok(name) => match demanded(m, "value"@, missing) {
                Err(e) => Err(e),
                Ok(value) => match demanded(m, "placement"@, missing) {
                    Err(e) => Err(e),
                    Ok(p) => if p == "header"@ {
                        Ok(
                            AuthenticationView::ApiKey {
                                name,
                                value,
                                placement: ApiKeyPlacement::Header,
                            },
                        )
                    } else if p == "query"@ {
                        Ok(
                            AuthenticationView::ApiKey {
                                name,
                                value,
                                placement: ApiKeyPlacement::Query,
                            },
                        )
                    } else {
                        Err("unknown API-key placement '"@ + p + "'"@)
                    },
                },
            },
        }
    } else {
        Err("unknown authentication kind '"@ + kind + "'"@)
    }
}

/// What proves who sends a request, as a text says it.
pub open spec fn authentication_of(text: Seq<char>) -> Result<AuthenticationView, Seq<char>> {
    let list = written_lines(lines(text));
    if list.len() == 0 {
        Ok(AuthenticationView::Anonymous)
    } else {
        match keyed(list.skip(1), false, "authentication field"@) {
            Err(e) => Err(e),
            Ok(m) => authentication_with(trim(list[0]), m),
        }
    }
}

fn find_written<'a>(list: &[&'a [char]]) -> (r: Vec<&'a [char]>)
    ensures
        slices(r@) == written_lines(slices(list@)),
{
    let ghost all = slices(list@);
    let mut r: Vec<&'a [char]> = Vec::new();
    assert(all.take(0) =~= seq![]);
    assert(slices(r@) =~= seq![]);
    for i in 0..list.len()
        invariant
            all == slices(list@),
            slices(r@) == written_lines(all.take(i as int)),
    {
        let line = list[i];
        let ghost before = slices(r@);
        proof {
            assert(all.take(i + 1).drop_last() =~= all.take(i as int));
            assert(all.take(i + 1).last() == line@);
        }
        if trim_chars(line).len() > 0 {
            r.push(line);
            assert(slices(r@) =~= before.push(line@));
        }
    }
    assert(all.take(list@.len() as int) =~= all);
    r
}

/// Reads what proves who sends a request from text.
pub fn parse_authentication(value: &str) -> (r: Result<Authentication, String>)
    ensures
        crate::error::outcome(r) == authentication_of(value@),
{
    let chars = chars_of(value);
    let all = split_lines(chars.as_slice());
    let list = find_written(all.as_slice());
    let ghost written = slices(list@);
    assert(written.len() == list@.len());
    if list.len() == 0 {
        return Ok(Authentication::Anonymous);
    }
    let rest = vstd::slice::slice_subrange(list.as_slice(), 1, list.len());
    assert(slices(rest@) =~= written.skip(1));
    let m = match read_keyed(rest, false, "authentication field") {
        Ok(m) => m,
        Err(e) => {
            return Err(e);
        },
    };
    assert(written[0] == list@[0]@);
    let kind = string_of(trim_chars(list[0]));
    make_authentication(kind.as_str(), &m)
}

fn make_authentication(kind: &str, m: &FieldMap) -> (r: Result<Authentication, String>)
    requires
        m.wf(),
    ensures
        crate::error::outcome(r) == authentication_with(kind@, m@),
{
    let missing = "authentication is missing";
    if same_text(kind, "none") {
        Ok(Authentication::Anonymous)
    } else if same_text(kind, "basic") {
        let username = match demand(m, "username", missing) {
            Ok(t) => t,
            Err(e) => {
                return Err(e);
            },
        };
        let password = match demand(m, "password", missing) {
            Ok(t) => t,
            Err(e) => {
                return Err(e);
            },
        };
        Ok(Authentication::Basic { username: username.to_owned(), password: password.to_owned() })
    } else if same_text(kind, "bearer") {
        match demand(m, "token", missing) {
            Ok(t) => Ok(Authentication::Bearer { token: t.to_owned() }),
            Err(e) => Err(e),
        }
    } else if same_text(kind, "api_key") {
        let name = match demand(m, "name", missing) {
            Ok(t) => t,
            Err(e) => {
                return Err(e);
            },
        };
        let value = match demand(m, "value", missing) {
            Ok(t) => t,
            Err(e) => {
                return Err(e);
            },
        };
        let p = match demand(m, "placement", missing) {
            Ok(t) => t,
            Err(e) => {
                return Err(e);
            },
        };
        let placement = if same_text(p, "header") {
            ApiKeyPlacement::Header
        } else if same_text(p, "query") {
            ApiKeyPlacement::Query
        } else {
            return Err(concat3("unknown API-key placement '", p, "'"));
        };
        Ok(Authentication::ApiKey { name: name.to_owned(), value: value.to_owned(), placement })
    } else {
        Err(concat3("unknown authentication kind '", kind, "'"))
    }
}

/// How a request is sent, as settings.
pub open spec fn settings_pairs(s: RequestSettings) -> Seq<(Seq<char>, Seq<char>)> {
    seq![
        ("timeout_seconds"@, decimal(s.timeout.seconds as nat)),
        ("connection_timeout_seconds"@, decimal(s.connection_timeout.seconds as nat)),
        ("idle_timeout_seconds"@, decimal(s.idle_timeout.seconds as nat)),
        ("maximum_response_bytes"@, decimal(s.maximum_response_bytes as nat)),
        ("maximum_wire_response_bytes"@, decimal(s.maximum_wire_response_bytes as nat)),
        ("redirect_limit"@, decimal(s.redirect_limit as nat)),
        ("follow_redirects"@, bool_text(s.follow_redirects)),
        ("verify_certificates"@, bool_text(s.verify_certificates)),
        ("cookie_jar"@, bool_text(s.cookie_jar)),
        ("decompress_response"@, bool_text(s.decompress_response)),
    ]
}

/// The text of how a request is sent.
pub open spec fn settings_text(s: RequestSettings) -> Seq<char> {
    join(pair_lines(settings_pairs(s)), "\n"@)
}

/// Writes how a request is sent as text.
pub fn format_request_settings(settings: &RequestSettings) -> (r: String)
    ensures
        r@ == settings_text(*settings),
{
    let mut list: Vec<String> = Vec::new();
    list.push(write_pair("timeout_seconds", decimal_text(settings.timeout.seconds).as_str()));
    list.push(
        write_pair(
            "connection_timeout_seconds",
            decimal_text(settings.connection_timeout.seconds).as_str(),
        ),
    );
    list.push(
        write_pair("idle_timeout_seconds", decimal_text(settings.idle_timeout.seconds).as_str()),
    );
    list.push(
        write_pair(
            "maximum_response_bytes",
            decimal_text(settings.maximum_response_bytes).as_str(),
        ),
    );
    list.push(
        write_pair(
            "maximum_wire_response_bytes",
            decimal_text(settings.maximum_wire_response_bytes).as_str(),
        ),
    );
    list.push(write_pair("redirect_limit", decimal_text(settings.redirect_limit as u64).as_str()));
    list.push(write_pair("follow_redirects", show_bool(settings.follow_redirects)));
    list.push(write_pair("verify_certificates", show_bool(settings.verify_certificates)));
    list.push(write_pair("cookie_jar", show_bool(settings.cookie_jar)));
    list.push(write_pair("decompress_response", show_bool(settings.decompress_response)));
    assert(texts(list@) =~= pair_lines(settings_pairs(*settings)));
    join_texts(list.as_slice(), "\n")
}

/// A span of whole seconds.
pub open spec fn whole_seconds(n: int) -> Interval {
    Interval { seconds: n as u64, nanoseconds: 0 }
}

/// The spans of time of some settings.
pub open spec fn demanded_spans(m: Settings, missing: Seq<char>) -> Result<
    (int, int, int),
    Seq<char>,
> {
    match demanded_number(m, "timeout_seconds"@, missing, u64::MAX as int) {
        Err(e) => Err(e),
        Ok(a) => match demanded_number(
            m,
            "connection_timeout_seconds"@,
            missing,
            u64::MAX as int,
        ) {
            Err(e) => Err(e),
            Ok(b) => match demanded_number(m, "idle_timeout_seconds"@, missing, u64::MAX as int) {
                Err(e) => Err(e),
                Ok(c) => Ok((a, b, c)),
            },
        },
    }
}

/// The limits of some settings.
pub open spec fn demanded_limits(m: Settings, missing: Seq<char>) -> Result<
    (int, int, int),
    Seq<char>,
> {
    match demanded_number(m, "maximum_response_bytes"@, missing, u64::MAX as int) {
        Err(e) => Err(e),
        Ok(a) => match demanded_number(
            m,
            "maximum_wire_response_bytes"@,
            missing,
            u64::MAX as int,
        ) {
            Err(e) => Err(e),
            Ok(b) => match demanded_number(m, "redirect_limit"@, missing, u16::MAX as int) {
                Err(e) => Err(e),
                Ok(c) => Ok((a, b, c)),
            },
        },
    }
}

/// The switches of some settings.
pub open spec fn demanded_switches(m: Settings, missing: Seq<char>) -> Result<
    (bool, bool, bool, bool),
    Seq<char>,
> {
    match demanded_truth(m, "follow_redirects"@, missing) {
        Err(e) => Err(e),
        Ok(a) => match demanded_truth(m, "verify_certificates"@, missing) {
            Err(e) => Err(e),
            Ok(b) => match demanded_truth(m, "cookie_jar"@, missing) {
                Err(e) => Err(e),
                Ok(c) => match demanded_truth(m, "decompress_response"@, missing) {
                    Err(e) => Err(e),
                    Ok(d) => Ok((a, b, c, d)),
                },
            },
        },
    }
}

/// How a request is sent, with some settings: all have to be there.
pub open spec fn settings_with(m: Settings) -> Result<RequestSettings, Seq<char>> {
    let missing = "request settings are missing"@;
    match demanded_spans(m, missing) {
        Err(e) => Err(e),
        Ok(spans) => match demanded_limits(m, missing) {
            Err(e) => Err(e),
            Ok(limits) => match demanded_switches(m, missing) {
                Err(e) => Err(e),
                Ok(switches) => Ok(
                    RequestSettings {
                        timeout: whole_seconds(spans.0),
                        connection_timeout: whole_seconds(spans.1),
                        idle_timeout: whole_seconds(spans.2),
                        maximum_response_bytes: limits.0 as u64,
                        maximum_wire_response_bytes: limits.1 as u64,
                        redirect_limit: limits.2 as u16,
                        follow_redirects: switches.0,
                        verify_certificates: switches.1,
                        cookie_jar: switches.2,
                        decompress_response: switches.3,
                    },
                ),
            },
        },
    }
}

/// How a request is sent, as a text says it.
pub open spec fn settings_of(text: Seq<char>) -> Result<RequestSettings, Seq<char>> {
    match keyed(lines(text), true, "setting"@) {
        Err(e) => Err(e),
        Ok(m) => settings_with(m),
    }
}

fn demand_spans(m: &FieldMap, missing: &str) -> (r: Result<(u64, u64, u64), String>)
    requires
        m.wf(),
    ensures
        match r {
            Ok((a, b, c)) => demanded_spans(m@, missing@) == Ok::<(int, int, int), Seq<char>>(
                (a as int, b as int, c as int),
            ),
            Err(e) => demanded_spans(m@, missing@) == Err::<(int, int, int), Seq<char>>(e@),
        },
{
    let a = match demand_number(m, "timeout_seconds", missing, u64::MAX) {
        Ok(n) => n,
        Err(e) => {
            return Err(e);
        },
    };
    let b = match demand_number(m, "connection_timeout_seconds", missing, u64::MAX) {
        Ok(n) => n,
        Err(e) => {
            return Err(e);
        },
    };
    match demand_number(m, "idle_timeout_seconds", missing, u64::MAX) {
        Ok(c) => Ok((a, b, c)),
        Err(e) => Err(e),
    }
}

fn demand_limits(m: &FieldMap, missing: &str) -> (r: Result<(u64, u64, u16), String>)
    requires
        m.wf(),
    ensures
        match r {
            Ok((a, b, c)) => demanded_limits(m@, missing@) == Ok::<(int, int, int), Seq<char>>(
                (a as int, b as int, c as int),
            ),
            Err(e) => demanded_limits(m@, missing@) == Err::<(int, int, int), Seq<char>>(e@),
        },
{
    let a = match demand_number(m, "maximum_response_bytes", missing, u64::MAX) {
        Ok(n) => n,
        Err(e) => {
            return Err(e);
        },
    };
    let b = match demand_number(m, "maximum_wire_response_bytes", missing, u64::MAX) {
        Ok(n) => n,
        Err(e) => {
            return Err(e);
        },
    };
    match demand_number(m, "redirect_limit", missing, 65_535) {
        Ok(c) => Ok((a, b, c as u16)),
        Err(e) => Err(e),
    }
}

fn demand_switches(m: &FieldMap, missing: &str) -> (r: Result<(bool, bool, bool, bool), String>)
    requires
        m.wf(),
    ensures
        said(r) == demanded_switches(m@, missing@),
{
    let a = match demand_truth(m, "follow_redirects", missing) {
        Ok(b) => b,
        Err(e) => {
            return Err(e);
        },
    };
    let b = match demand_truth(m, "verify_certificates", missing) {
        Ok(b) => b,
        Err(e) => {
            return Err(e);
        },
    };
    let c = match demand_truth(m, "cookie_jar", missing) {
        Ok(b) => b,
        Err(e) => {
            return Err(e);
        },
    };
    match demand_truth(m, "decompress_response", missing) {
        Ok(d) => Ok((a, b, c, d)),
        Err(e) => Err(e),
    }
}

/// Reads how a request is sent from text.
pub fn parse_request_settings(value: &str) -> (r: Result<RequestSettings, String>)
    ensures
        said(r) == settings_of(value@),
{
    let chars = chars_of(value);
    let list = split_lines(chars.as_slice());
    let m = match read_keyed(list.as_slice(), true, "setting") {
        Ok(m) => m,
        Err(e) => {
            return Err(e);
        },
    };
    let missing = "request settings are missing";
    let spans = match demand_spans(&m, missing) {
        Ok(t) => t,
        Err(e) => {
            return Err(e);
        },
    };
    let limits = match demand_limits(&m, missing) {
        Ok(t) => t,
        Err(e) => {
            return Err(e);
        },
    };
    let switches = match demand_switches(&m, missing) {
        Ok(t) => t,
        Err(e) => {
            return Err(e);
        },
    };
    Ok(
        RequestSettings {
            timeout: Interval { seconds: spans.0, nanoseconds: 0 },
            connection_timeout: Interval { seconds: spans.1, nanoseconds: 0 },
            idle_timeout: Interval { seconds: spans.2, nanoseconds: 0 },
            maximum_response_bytes: limits.0,
            maximum_wire_response_bytes: limits.1,
            redirect_limit: limits.2,
            follow_redirects: switches.0,
            verify_certificates: switches.1,
            cookie_jar: switches.2,
            decompress_response: switches.3,
        },
    )
}

/// Whether a text is a key that can stand in a line.
spec fn is_key(key: Seq<char>) -> bool {
    &&& key.len() > 0
    &&& trimmed(key)
    &&& !key.contains('=')
    &&& !key.contains('\n')
}

/// Whether a value can stand in a line.
spec fn is_plain_value(value: Seq<char>) -> bool {
    &&& value.len() > 0
    &&& trimmed(value)
    &&& is_line(value)
}

proof fn lemma_pair_is_line(p: (Seq<char>, Seq<char>))
    requires
        is_key(p.0),
        is_line(p.1),
    ensures
        is_line(pair_line(p)),
        pair_line(p).len() > 0,
{
    let line = pair_line(p);
    if line.contains('\n') {
        let i = choose|i: int| 0 <= i < line.len() && line[i] == '\n';
        if i < p.0.len() {
            assert(p.0.contains(p.0[i]));
        } else if i > p.0.len() {
            assert(p.1.contains(p.1[i - p.0.len() - 1]));
        }
    }
    if p.1.len() > 0 {
        assert(line.last() == p.1.last());
    } else {
        assert(line.last() == '=');
    }
}

proof fn lemma_decimal_is_plain(n: nat)
    ensures
        is_plain_value(decimal(n)),
{
    lemma_decimal(n);
    let d = decimal(n);
    assert(is_digit(d[0]));
    assert(is_digit(d[d.len() - 1]));
    if d.contains('\n') {
        let i = choose|i: int| 0 <= i < d.len() && d[i] == '\n';
        assert(is_digit(d[i]));
    }
}

proof fn lemma_span_keys()
    ensures
        is_key("timeout_seconds"@),
        "timeout_seconds"@.len() == 15,
        is_key("connection_timeout_seconds"@),
        "connection_timeout_seconds"@.len() == 26,
        is_key("idle_timeout_seconds"@),
        "idle_timeout_seconds"@.len() == 20,
{
    reveal_strlit("timeout_seconds");
    reveal_strlit("connection_timeout_seconds");
    reveal_strlit("idle_timeout_seconds");
    assert("timeout_seconds"@.len() == 15);
    assert("connection_timeout_seconds"@.len() == 26);
    assert("idle_timeout_seconds"@.len() == 20);
}

proof fn lemma_limit_keys()
    ensures
        is_key("maximum_response_bytes"@),
        "maximum_response_bytes"@.len() == 22,
        is_key("maximum_wire_response_bytes"@),
        "maximum_wire_response_bytes"@.len() == 27,
        is_key("redirect_limit"@),
        "redirect_limit"@.len() == 14,
{
    reveal_strlit("maximum_response_bytes");
    reveal_strlit("maximum_wire_response_bytes");
    reveal_strlit("redirect_limit");
    assert("maximum_response_bytes"@.len() == 22);
    assert("maximum_wire_response_bytes"@.len() == 27);
    assert("redirect_limit"@.len() == 14);
}

proof fn lemma_switch_keys()
    ensures
        is_key("follow_redirects"@),
        "follow_redirects"@.len() == 16,
        is_key("verify_certificates"@),
        "verify_certificates"@.len() == 19,
        is_key("cookie_jar"@),
        "cookie_jar"@.len() == 10,
        is_key("decompress_response"@),
        "decompress_response"@.len() == 19,
        "verify_certificates"@ != "decompress_response"@,
{
    reveal_strlit("follow_redirects");
    reveal_strlit("verify_certificates");
    reveal_strlit("cookie_jar");
    reveal_strlit("decompress_response");
    assert("follow_redirects"@.len() == 16);
    assert("verify_certificates"@.len() == 19);
    assert("cookie_jar"@.len() == 10);
    assert("decompress_response"@.len() == 19);
    assert("verify_certificates"@[0] == 'v' && "decompress_response"@[0] == 'd');
}

/// How a request is sent is the same when it is written as text and read again, so long as the
/// spans of time are whole seconds.
pub proof fn law_request_settings_round_trip(s: RequestSettings)
    requires
        s.timeout.nanoseconds == 0,
        s.connection_timeout.nanoseconds == 0,
        s.idle_timeout.nanoseconds == 0,
    ensures
        settings_of(settings_text(s)) == Ok::<RequestSettings, Seq<char>>(s),
{
    let pairs = settings_pairs(s);
    let list = pair_lines(pairs);
    lemma_span_keys();
    lemma_limit_keys();
    lemma_switch_keys();
    lemma_decimal_is_plain(s.timeout.seconds as nat);
    lemma_decimal_is_plain(s.connection_timeout.seconds as nat);
    lemma_decimal_is_plain(s.idle_timeout.seconds as nat);
    lemma_decimal_is_plain(s.maximum_response_bytes as nat);
    lemma_decimal_is_plain(s.maximum_wire_response_bytes as nat);
    lemma_decimal_is_plain(s.redirect_limit as nat);
    lemma_truth(s.follow_redirects);
    lemma_truth(s.verify_certificates);
    lemma_truth(s.cookie_jar);
    lemma_truth(s.decompress_response);
    assert forall|i: int| 0 <= i < pairs.len() implies is_key((#[trigger] pairs[i]).0)
        && is_plain_value(pairs[i].1) by {}
    assert forall|i: int| 0 <= i < list.len() implies is_line(#[trigger] list[i])
        && list[i].len() > 0 by {
        assert(is_key(pairs[i].0));
        lemma_pair_is_line(pairs[i]);
    }
    assert forall|i: int| 0 <= i < pairs.len() implies plain_pair(#[trigger] pairs[i], true) by {
        assert(is_key(pairs[i].0));
    }
    lemma_lines_of_join(list);
    lemma_keyed_pairs(pairs, true, "setting"@);
    assert(distinct_keys(pairs));
    lemma_map_of(pairs);
    let m = map_of(pairs);
    assert(m[pairs[0].0] == pairs[0].1 && m.dom().contains(pairs[0].0));
    assert(m[pairs[1].0] == pairs[1].1 && m.dom().contains(pairs[1].0));
    assert(m[pairs[2].0] == pairs[2].1 && m.dom().contains(pairs[2].0));
    assert(m[pairs[3].0] == pairs[3].1 && m.dom().contains(pairs[3].0));
    assert(m[pairs[4].0] == pairs[4].1 && m.dom().contains(pairs[4].0));
    assert(m[pairs[5].0] == pairs[5].1 && m.dom().contains(pairs[5].0));
    assert(m[pairs[6].0] == pairs[6].1 && m.dom().contains(pairs[6].0));
    assert(m[pairs[7].0] == pairs[7].1 && m.dom().contains(pairs[7].0));
    assert(m[pairs[8].0] == pairs[8].1 && m.dom().contains(pairs[8].0));
    assert(m[pairs[9].0] == pairs[9].1 && m.dom().contains(pairs[9].0));
    lemma_parse_decimal(s.timeout.seconds as nat, u64::MAX as int);
    lemma_parse_decimal(s.connection_timeout.seconds as nat, u64::MAX as int);
    lemma_parse_decimal(s.idle_timeout.seconds as nat, u64::MAX as int);
    lemma_parse_decimal(s.maximum_response_bytes as nat, u64::MAX as int);
    lemma_parse_decimal(s.maximum_wire_response_bytes as nat, u64::MAX as int);
    lemma_parse_decimal(s.redirect_limit as nat, u16::MAX as int);
}

/// Whether what proves who sends a request fits into lines.
pub open spec fn editable_authentication(a: AuthenticationView) -> bool {
    match a {
        AuthenticationView::Anonymous => true,
        AuthenticationView::Basic { username, password } => is_line(username) && is_line(password),
        AuthenticationView::Bearer { token } => is_line(token),
        AuthenticationView::ApiKey { name, value, .. } => is_line(name) && is_line(value),
    }
}

/// Lines none of which is blank are all kept.
proof fn lemma_written_lines(list: Seq<Seq<char>>)
    requires
        forall|i: int| 0 <= i < list.len() ==> !is_blank(#[trigger] list[i]),
    ensures
        written_lines(list) == list,
    decreases list.len(),
{
    if list.len() > 0 {
        let front = list.drop_last();
        assert forall|i: int| 0 <= i < front.len() implies !is_blank(#[trigger] front[i]) by {
            assert(front[i] == list[i]);
        }
        lemma_written_lines(front);
        assert(!is_blank(list[list.len() - 1]));
        assert(front.push(list.last()) =~= list);
    } else {
        assert(written_lines(list) =~= list);
    }
}

proof fn lemma_authentication_read(kind: Seq<char>, pairs: Seq<(Seq<char>, Seq<char>)>)
    requires
        is_plain_value(kind),
        forall|i: int|
            0 <= i < pairs.len() ==> is_key((#[trigger] pairs[i]).0) && is_line(pairs[i].1),
    ensures
        authentication_of(join(seq![kind] + pair_lines(pairs), "\n"@)) == authentication_with(
            kind,
            map_of(pairs),
        ),
{
    let list = seq![kind] + pair_lines(pairs);
    lemma_trim(kind);
    assert forall|i: int| 0 <= i < list.len() implies is_line(#[trigger] list[i])
        && list[i].len() > 0 && !is_blank(list[i]) by {
        if i > 0 {
            let p = pairs[i - 1];
            assert(is_key(p.0));
            assert(list[i] == pair_line(p));
            lemma_pair_is_line(p);
            assert(list[i][0] == p.0[0]);
            lemma_trim_first(list[i]);
        }
    }
    lemma_lines_of_join(list);
    lemma_written_lines(list);
    assert(list.skip(1) =~= pair_lines(pairs));
    assert forall|i: int| 0 <= i < pairs.len() implies plain_pair(#[trigger] pairs[i], false) by {
        assert(is_key(pairs[i].0));
    }
    lemma_keyed_pairs(pairs, false, "authentication field"@);
}

proof fn lemma_authentication_words()
    ensures
        is_plain_value("none"@),
        is_plain_value("basic"@),
        is_plain_value("bearer"@),
        is_plain_value("api_key"@),
        "none"@.len() == 4,
        "basic"@.len() == 5,
        "bearer"@.len() == 6,
        "api_key"@.len() == 7,
        is_key("username"@),
        is_key("password"@),
        is_key("token"@),
        "username"@ != "password"@,
{
    reveal_strlit("none");
    reveal_strlit("basic");
    reveal_strlit("bearer");
    reveal_strlit("api_key");
    reveal_strlit("username");
    reveal_strlit("password");
    reveal_strlit("token");
    assert("none"@.len() == 4 && "basic"@.len() == 5 && "bearer"@.len() == 6);
    assert("api_key"@.len() == 7 && "username"@.len() == 8 && "password"@.len() == 8);
    assert("token"@.len() == 5);
    assert("username"@[0] == 'u' && "password"@[0] == 'p');
}

proof fn lemma_key_words()
    ensures
        is_key("placement"@),
        is_key("name"@),
        is_key("value"@),
        "placement"@ != "name"@,
        "placement"@ != "value"@,
        "name"@ != "value"@,
        is_line("header"@),
        is_line("query"@),
        "header"@ != "query"@,
{
    reveal_strlit("placement");
    reveal_strlit("name");
    reveal_strlit("value");
    reveal_strlit("header");
    reveal_strlit("query");
    assert("placement"@.len() == 9 && "name"@.len() == 4 && "value"@.len() == 5);
    assert("header"@.len() == 6 && "query"@.len() == 5);
}

/// What proves who sends a request is the same when it is written as text and read again, so
/// long as none of it breaks a line.
pub proof fn law_authentication_round_trip(a: AuthenticationView)
    requires
        editable_authentication(a),
    ensures
        authentication_of(authentication_text(a)) == Ok::<AuthenticationView, Seq<char>>(a),
{
    lemma_authentication_words();
    lemma_key_words();
    match a {
        AuthenticationView::Anonymous => {
            let pairs = Seq::<(Seq<char>, Seq<char>)>::empty();
            lemma_authentication_read("none"@, pairs);
            assert(authentication_lines(a) =~= seq!["none"@] + pair_lines(pairs));
        },
        AuthenticationView::Basic { username, password } => {
            let pairs = seq![("username"@, username), ("password"@, password)];
            lemma_authentication_read("basic"@, pairs);
            assert(distinct_keys(pairs));
            lemma_map_of(pairs);
            let m = map_of(pairs);
            assert(m[pairs[0].0] == pairs[0].1 && m.dom().contains(pairs[0].0));
            assert(m[pairs[1].0] == pairs[1].1 && m.dom().contains(pairs[1].0));
        },
        AuthenticationView::Bearer { token } => {
            let pairs = seq![("token"@, token)];
            lemma_authentication_read("bearer"@, pairs);
            assert(distinct_keys(pairs));
            lemma_map_of(pairs);
            let m = map_of(pairs);
            assert(m[pairs[0].0] == pairs[0].1 && m.dom().contains(pairs[0].0));
        },
        AuthenticationView::ApiKey { name, value, placement } => {
            let pairs = seq![
                ("placement"@, placement_text(placement)),
                ("name"@, name),
                ("value"@, value),
            ];
            lemma_authentication_read("api_key"@, pairs);
            assert(distinct_keys(pairs));
            lemma_map_of(pairs);
            let m = map_of(pairs);
            assert(m[pairs[0].0] == pairs[0].1 && m.dom().contains(pairs[0].0));
            assert(m[pairs[1].0] == pairs[1].1 && m.dom().contains(pairs[1].0));
            assert(m[pairs[2].0] == pairs[2].1 && m.dom().contains(pairs[2].0));
        },
    }
}

} // verus!
