//! The notation that workspace documents share: lines that assign a value to a
//! key, and quoted texts.
use crate::error::{invalid_format, outcome, WorkspaceError, WorkspaceErrorView};
use crate::lines::{field_line, is_line};
use crate::message::concat2;
use crate::number::{decimal, decimal_text, parse_unsigned, read_unsigned};
use crate::order::FieldMap;
use crate::text::{
    ascii_alphanumeric, chars_of, is_ascii_alphanumeric, is_white_space, lemma_index_of_is,
    lemma_trim, same_text, split_at_char, split_once, string_of, trim, trim_chars, trim_end,
    trim_start, trimmed,
};
use vstd::prelude::*;
use vstd::slice::slice_subrange;
use vstd::string::*;

verus! {

/// The version of the documents that this library reads and writes.
pub const CURRENT_SCHEMA_VERSION: u32 = 1;

/// What stands for a character inside quotes.
pub open spec fn escaped_char(c: char) -> Seq<char> {
    if c == '\\' {
        seq!['\\', '\\']
    } else if c == '"' {
        seq!['\\', '"']
    } else if c == '\n' {
        seq!['\\', 'n']
    } else if c == '\r' {
        seq!['\\', 'r']
    } else if c == '\t' {
        seq!['\\', 't']
    } else {
        seq![c]
    }
}

/// What stands for a text inside quotes.
pub open spec fn escaped(s: Seq<char>) -> Seq<char>
    decreases s.len(),
{
    if s.len() == 0 {
        seq![]
    } else {
        escaped(s.drop_last()) + escaped_char(s.last())
    }
}

/// A text in quotes.
pub open spec fn quoted(s: Seq<char>) -> Seq<char> {
    seq!['"'] + escaped(s) + seq!['"']
}

/// Puts a text in quotes.
pub fn quote(value: &str) -> (r: String)
    ensures
        r@ == quoted(value@),
{
    let chars = chars_of(value);
    let mut r = String::new();
    r.push('"');
    assert(value@.take(0) =~= seq![]);
    assert(r@ =~= seq!['"'] + escaped(value@.take(0)));
    for i in 0..chars.len()
        invariant
            chars@ == value@,
            r@ == seq!['"'] + escaped(value@.take(i as int)),
    {
        let ghost before = r@;
        let c = chars[i];
        match c {
            '\\' => {
                r.push('\\');
                r.push('\\');
            },
            '"' => {
                r.push('\\');
                r.push('"');
            },
            '\n' => {
                r.push('\\');
                r.push('n');
            },
            '\r' => {
                r.push('\\');
                r.push('r');
            },
            '\t' => {
                r.push('\\');
                r.push('t');
            },
            other => {
                r.push(other);
            },
        }
        assert(value@.take(i + 1).drop_last() =~= value@.take(i as int));
        assert(r@ =~= before + escaped_char(c));
        assert(r@ =~= seq!['"'] + escaped(value@.take(i + 1)));
    }
    assert(value@.take(value@.len() as int) =~= value@);
    r.push('"');
    assert(r@ =~= quoted(value@));
    r
}

/// The character that an escape stands for.
pub open spec fn escape_meaning(c: char) -> Option<char> {
    if c == 'n' {
        Some('\n')
    } else if c == 'r' {
        Some('\r')
    } else if c == 't' {
        Some('\t')
    } else if c == '\\' {
        Some('\\')
    } else if c == '"' {
        Some('"')
    } else {
        None
    }
}

/// The text that stands inside quotes.
pub open spec fn unescaped(s: Seq<char>) -> Result<Seq<char>, WorkspaceErrorView>
    decreases s.len(),
{
    if s.len() == 0 {
        Ok(seq![])
    } else if s[0] != '\\' {
        match unescaped(s.drop_first()) {
            Ok(rest) => Ok(seq![s[0]] + rest),
            Err(e) => Err(e),
        }
    } else if s.len() == 1 {
        Err(WorkspaceErrorView::InvalidFormat("trailing string escape"@))
    } else {
        match escape_meaning(s[1]) {
            None => Err(
                WorkspaceErrorView::InvalidFormat("unsupported string escape: \\"@ + seq![s[1]]),
            ),
            Some(c) => match unescaped(s.skip(2)) {
                Ok(rest) => Ok(seq![c] + rest),
                Err(e) => Err(e),
            },
        }
    }
}

/// The text that a quoted value stands for.
pub open spec fn string_value(value: Seq<char>) -> Result<Seq<char>, WorkspaceErrorView> {
    let v = trim(value);
    if v.len() < 2 || v[0] != '"' || v.last() != '"' {
        Err(WorkspaceErrorView::InvalidFormat("expected quoted string: "@ + v))
    } else {
        unescaped(v.subrange(1, v.len() - 1))
    }
}

/// Reads a quoted text.
pub fn parse_string(value: &str) -> (r: Result<String, WorkspaceError>)
    ensures
        outcome(r) == string_value(value@),
{
    let chars = chars_of(value);
    let v = trim_chars(chars.as_slice());
    if v.len() < 2 || v[0] != '"' || v[v.len() - 1] != '"' {
        let shown = string_of(v);
        return Err(WorkspaceError::InvalidFormat(concat2("expected quoted string: ", shown.as_str())));
    }
    let body = slice_subrange(v, 1, v.len() - 1);
    let mut out = String::new();
    let mut i: usize = 0;
    assert(body@.skip(0) =~= body@);
    assert(prefixed(out@, unescaped(body@)) == unescaped(body@)) by {
        if let Ok(rest) = unescaped(body@) {
            assert(out@ + rest =~= rest);
        }
    }
    while i < body.len()
        invariant
            i <= body@.len(),
            string_value(value@) == unescaped(body@),
            unescaped(body@) == prefixed(out@, unescaped(body@.skip(i as int))),
        decreases body@.len() - i,
    {
        let c = body[i];
        let ghost rest = body@.skip(i as int);
        let ghost before = out@;
        assert(rest[0] == c);
        if c != '\\' {
            assert(rest.drop_first() =~= body@.skip(i + 1));
            out.push(c);
            proof {
                if let Ok(tail) = unescaped(body@.skip(i + 1)) {
                    assert(before + (seq![c] + tail) =~= out@ + tail);
                }
            }
            i += 1;
        } else if i + 1 >= body.len() {
            assert(rest.len() == 1);
            return Err(invalid_format("trailing string escape"));
        } else {
            let e = body[i + 1];
            assert(rest[1] == e);
            let meaning: Option<char> = match e {
                'n' => Some('\n'),
                'r' => Some('\r'),
                't' => Some('\t'),
                '\\' => Some('\\'),
                '"' => Some('"'),
                _ => None,
            };
            match meaning {
                None => {
                    let mut shown = String::new();
                    shown.push(e);
                    assert(shown@ =~= seq![e]);
                    return Err(
                        WorkspaceError::InvalidFormat(
                            concat2("unsupported string escape: \\", shown.as_str()),
                        ),
                    );
                },
                Some(m) => {
                    assert(rest.skip(2) =~= body@.skip(i + 2));
                    out.push(m);
                    proof {
                        if let Ok(tail) = unescaped(body@.skip(i + 2)) {
                            assert(before + (seq![m] + tail) =~= out@ + tail);
                        }
                    }
                    i += 2;
                },
            }
        }
    }
    assert(body@.skip(i as int) =~= seq![]);
    assert(out@ + Seq::<char>::empty() =~= out@);
    Ok(out)
}

/// A text put before one that was read.
pub open spec fn prefixed(
    front: Seq<char>,
    rest: Result<Seq<char>, WorkspaceErrorView>,
) -> Result<Seq<char>, WorkspaceErrorView> {
    match rest {
        Ok(tail) => Ok(front + tail),
        Err(e) => Err(e),
    }
}

proof fn lemma_unescaped_escaped(s: Seq<char>)
    ensures
        unescaped(escaped(s)) == Ok::<Seq<char>, WorkspaceErrorView>(s),
        forall|i: int|
            0 <= i < escaped(s).len() ==> (#[trigger] escaped(s)[i]) != '\n' && escaped(s)[i]
                != '\r',
    decreases s.len(),
{
    if s.len() > 0 {
        let front = s.drop_last();
        lemma_unescaped_escaped(front);
        lemma_unescaped_concat(escaped(front), escaped_char(s.last()), front);
        let last = escaped_char(s.last());
        assert(last.len() == 1 ==> last.drop_first() =~= seq![]);
        assert(last.len() == 2 ==> last.skip(2) =~= seq![]);
        assert(unescaped(Seq::<char>::empty()) == Ok::<Seq<char>, WorkspaceErrorView>(seq![]));
        assert(seq![s.last()] + Seq::<char>::empty() =~= seq![s.last()]);
        assert(unescaped(last) == Ok::<Seq<char>, WorkspaceErrorView>(seq![s.last()]));
        assert(front + seq![s.last()] =~= s);
    } else {
        assert(s =~= seq![]);
    }
}

proof fn lemma_unescaped_concat(a: Seq<char>, b: Seq<char>, value: Seq<char>)
    requires
        unescaped(a) == Ok::<Seq<char>, WorkspaceErrorView>(value),
    ensures
        unescaped(a + b) == prefixed(value, unescaped(b)),
    decreases a.len(),
{
    if a.len() == 0 {
        assert(a + b =~= b);
        if let Ok(tail) = unescaped(b) {
            assert(value + tail =~= tail);
        }
    } else if a[0] != '\\' {
        let rest = unescaped(a.drop_first());
        lemma_unescaped_concat(a.drop_first(), b, rest->Ok_0);
        assert((a + b).drop_first() =~= a.drop_first() + b);
        if let Ok(tail) = unescaped(b) {
            assert(seq![a[0]] + (rest->Ok_0 + tail) =~= value + tail);
        }
    } else {
        let rest = unescaped(a.skip(2));
        lemma_unescaped_concat(a.skip(2), b, rest->Ok_0);
        assert((a + b).skip(2) =~= a.skip(2) + b);
        let c = escape_meaning(a[1])->Some_0;
        if let Ok(tail) = unescaped(b) {
            assert(seq![c] + (rest->Ok_0 + tail) =~= value + tail);
        }
    }
}

/// Whether a text can stand as a value behind an equals sign and be read back.
pub open spec fn plain_value(v: Seq<char>) -> bool {
    trimmed(v) && !v.contains('\n')
}

/// A quoted text is read back, whatever it holds, and stands on one line.
pub proof fn law_quote_round_trip(s: Seq<char>)
    ensures
        string_value(quoted(s)) == Ok::<Seq<char>, WorkspaceErrorView>(s),
        plain_value(quoted(s)),
{
    lemma_unescaped_escaped(s);
    let q = quoted(s);
    lemma_trim(q);
    assert(q.last() == '"');
    assert(q.subrange(1, q.len() - 1) =~= escaped(s));
    assert forall|i: int| 0 <= i < q.len() implies q[i] != '\n' by {
        if 0 < i < q.len() - 1 {
            assert(q[i] == escaped(s)[i - 1]);
        }
    }
}

/// Whether a character may stand in a key.
pub open spec fn is_key_char(c: char) -> bool {
    is_ascii_alphanumeric(c) || c == '_' || c == '-' || c == '.'
}

/// Whether a text can be a key.
pub open spec fn is_key(k: Seq<char>) -> bool {
    k.len() > 0 && forall|i: int| 0 <= i < k.len() ==> is_key_char(#[trigger] k[i])
}

/// Tests whether a text can be a key.
pub fn valid_key(k: &[char]) -> (r: bool)
    ensures
        r == is_key(k@),
{
    if k.len() == 0 {
        return false;
    }
    for i in 0..k.len()
        invariant
            forall|j: int| 0 <= j < i ==> is_key_char(#[trigger] k@[j]),
    {
        let c = k[i];
        if !(ascii_alphanumeric(c) || c == '_' || c == '-' || c == '.') {
            assert(!is_key_char(k@[i as int]));
            return false;
        }
    }
    true
}

/// The key and the value of a line.
pub open spec fn assignment(line: Seq<char>, number: nat) -> Result<
    (Seq<char>, Seq<char>),
    WorkspaceErrorView,
> {
    match split_once(line, '=') {
        None => Err(
            WorkspaceErrorView::InvalidFormat("expected key/value on line "@ + decimal(number)),
        ),
        Some((key, value)) => if is_key(trim(key)) {
            Ok((trim(key), trim(value)))
        } else {
            Err(WorkspaceErrorView::InvalidFormat("invalid key on line "@ + decimal(number)))
        },
    }
}

/// Reads the key and the value of a line.
pub fn parse_assignment(line: &[char], number: usize) -> (r: Result<
    (String, String),
    WorkspaceError,
>)
    ensures
        match r {
            Ok((key, value)) => assignment(line@, number as nat) == Ok::<
                (Seq<char>, Seq<char>),
                WorkspaceErrorView,
            >((key@, value@)),
            Err(e) => assignment(line@, number as nat) == Err::<
                (Seq<char>, Seq<char>),
                WorkspaceErrorView,
            >(e@),
        },
{
    match split_at_char(line, '=') {
        None => Err(
            WorkspaceError::InvalidFormat(
                concat2("expected key/value on line ", decimal_text(number as u64).as_str()),
            ),
        ),
        Some((key, value)) => {
            let k = trim_chars(key);
            if !valid_key(k) {
                return Err(
                    WorkspaceError::InvalidFormat(
                        concat2("invalid key on line ", decimal_text(number as u64).as_str()),
                    ),
                );
            }
            let v = trim_chars(value);
            Ok((string_of(k), string_of(v)))
        },
    }
}

/// Whether a line, without white space at its ends, says nothing.
pub open spec fn is_ignored_line(line: Seq<char>) -> bool {
    line.len() == 0 || line[0] == '#'
}

/// A line that assigns a plain value to a key is read as that assignment, and is
/// taken for nothing else.
pub proof fn lemma_field_line(key: Seq<char>, value: Seq<char>, number: nat)
    requires
        is_key(key),
        plain_value(value),
    ensures
        assignment(trim(field_line(key, value)), number) == Ok::<
            (Seq<char>, Seq<char>),
            WorkspaceErrorView,
        >((key, value)),
        !is_ignored_line(trim(field_line(key, value))),
        trim(field_line(key, value))[0] != '[',
        trim(field_line(key, value)).len() > 0,
        is_line(field_line(key, value)),
{
    reveal_strlit(" = ");
    let line = field_line(key, value);
    let n = key.len() as int;
    assert(" = "@.len() == 3);
    assert(is_key_char(key[0]));
    assert(line[0] == key[0]);
    let t: Seq<char>;
    assert(line.len() == n + 3 + value.len());
    assert(line[n] == ' ' && line[n + 1] == '=' && line[n + 2] == ' ');
    assert(trim_start(line) == line);
    if value.len() > 0 {
        assert(line.last() == value.last());
        assert(trim_end(line) == line);
        t = line;
    } else {
        assert(line.last() == ' ');
        let shorter = line.drop_last();
        assert(shorter.last() == '=');
        assert(trim_end(shorter) == shorter);
        t = shorter;
    }
    assert(trim(line) == t);
    assert forall|i: int| 0 <= i < n + 1 implies t[i] != '=' by {
        if i < n {
            assert(t[i] == key[i]);
            assert(is_key_char(key[i]));
        }
    }
    assert(t[n + 1] == '=');
    lemma_index_of_is(t, '=', n + 1);
    let left = t.take(n + 1);
    assert(left =~= key.push(' '));
    assert(left.drop_last() =~= key);
    assert(is_key_char(key[n - 1]));
    assert(trim_start(left) == left);
    assert(trim_end(left) == trim_end(key));
    assert(trim_end(key) == key);
    let right = t.skip(n + 2);
    if value.len() > 0 {
        assert(right =~= seq![' '] + value);
        assert(right.drop_first() =~= value);
        assert(trim_start(right) == trim_start(value));
        lemma_trim(value);
        assert(trim_start(value) == value);
    } else {
        assert(right =~= value);
        lemma_trim(value);
    }
    assert forall|i: int| 0 <= i < line.len() implies line[i] != '\n' by {
        if i < n {
            assert(is_key_char(key[i]));
        } else if i >= n + 3 {
            assert(line[i] == value[i - n - 3]);
        }
    }
    if value.len() > 0 {
        assert(!is_white_space(value.last()));
    }
}

/// The digits of a number can stand as a value.
pub proof fn lemma_decimal_plain(n: nat)
    ensures
        plain_value(decimal(n)),
{
    crate::number::lemma_decimal(n);
    let d = decimal(n);
    assert forall|i: int| 0 <= i < d.len() implies d[i] != '\n' && !is_white_space(#[trigger] d[i]) by {
        assert(crate::number::is_digit(d[i]));
    }
}

/// The value of a key that has to be there.
pub open spec fn required_value(m: Map<Seq<char>, Seq<char>>, key: Seq<char>) -> Result<
    Seq<char>,
    WorkspaceErrorView,
> {
    if m.dom().contains(key) {
        Ok(m[key])
    } else {
        Err(WorkspaceErrorView::InvalidFormat("missing required field: "@ + key))
    }
}

/// Looks up a key that has to be there.
pub fn required<'a>(values: &'a FieldMap, key: &str) -> (r: Result<&'a String, WorkspaceError>)
    requires
        values.wf(),
    ensures
        match r {
            Ok(v) => required_value(values@, key@) == Ok::<Seq<char>, WorkspaceErrorView>(v@),
            Err(e) => required_value(values@, key@) == Err::<Seq<char>, WorkspaceErrorView>(e@),
        },
{
    match values.get(key) {
        Some(v) => Ok(v),
        None => Err(WorkspaceError::InvalidFormat(concat2("missing required field: ", key))),
    }
}

/// The quoted text under a key that has to be there.
pub open spec fn required_string(m: Map<Seq<char>, Seq<char>>, key: Seq<char>) -> Result<
    Seq<char>,
    WorkspaceErrorView,
> {
    match required_value(m, key) {
        Ok(v) => string_value(v),
        Err(e) => Err(e),
    }
}

/// Reads the quoted text under a key that has to be there.
pub fn parse_required_string(values: &FieldMap, key: &str) -> (r: Result<String, WorkspaceError>)
    requires
        values.wf(),
    ensures
        outcome(r) == required_string(values@, key@),
{
    match required(values, key) {
        Ok(v) => parse_string(v.as_str()),
        Err(e) => Err(e),
    }
}

/// The quoted text under a key that may be missing.
pub open spec fn optional_string(m: Map<Seq<char>, Seq<char>>, key: Seq<char>) -> Result<
    Option<Seq<char>>,
    WorkspaceErrorView,
> {
    if m.dom().contains(key) {
        match string_value(m[key]) {
            Ok(s) => Ok(Some(s)),
            Err(e) => Err(e),
        }
    } else {
        Ok(None)
    }
}

/// Reads the quoted text under a key that may be missing.
pub fn parse_optional_string(values: &FieldMap, key: &str) -> (r: Result<
    Option<String>,
    WorkspaceError,
>)
    requires
        values.wf(),
    ensures
        match r {
            Ok(v) => optional_string(values@, key@) == Ok::<Option<Seq<char>>, WorkspaceErrorView>(
                crate::text::optional_text(v),
            ),
            Err(e) => optional_string(values@, key@) == Err::<
                Option<Seq<char>>,
                WorkspaceErrorView,
            >(e@),
        },
{
    match values.get(key) {
        Some(v) => match parse_string(v.as_str()) {
            Ok(s) => Ok(Some(s)),
            Err(e) => Err(e),
        },
        None => Ok(None),
    }
}

/// The number that a value stands for.
pub open spec fn unsigned_value(value: Seq<char>, limit: int, key: Seq<char>) -> Result<
    int,
    WorkspaceErrorView,
> {
    match parse_unsigned(value, limit) {
        Some(n) => Ok(n),
        None => Err(WorkspaceErrorView::InvalidFormat(key + " must be an unsigned integer"@)),
    }
}

fn parse_limited(value: &str, limit: u64, key: &str) -> (r: Result<u64, WorkspaceError>)
    ensures
        match r {
            Ok(n) => n <= limit && unsigned_value(value@, limit as int, key@) == Ok::<
                int,
                WorkspaceErrorView,
            >(n as int),
            Err(e) => unsigned_value(value@, limit as int, key@) == Err::<int, WorkspaceErrorView>(
                e@,
            ),
        },
{
    let chars = chars_of(value);
    match read_unsigned(chars.as_slice(), limit) {
        Some(n) => Ok(n),
        None => Err(WorkspaceError::InvalidFormat(concat2(key, " must be an unsigned integer"))),
    }
}

/// Reads a number of 32 bits.
pub fn parse_u32(value: &str, key: &str) -> (r: Result<u32, WorkspaceError>)
    ensures
        match r {
            Ok(n) => unsigned_value(value@, u32::MAX as int, key@) == Ok::<int, WorkspaceErrorView>(
                n as int,
            ),
            Err(e) => unsigned_value(value@, u32::MAX as int, key@) == Err::<
                int,
                WorkspaceErrorView,
            >(e@),
        },
{
    match parse_limited(value, u32::MAX as u64, key) {
        Ok(n) => Ok(n as u32),
        Err(e) => Err(e),
    }
}

/// The number under a key that may be missing.
pub open spec fn optional_unsigned(
    m: Map<Seq<char>, Seq<char>>,
    key: Seq<char>,
    default: int,
    limit: int,
) -> Result<int, WorkspaceErrorView> {
    if m.dom().contains(key) {
        unsigned_value(m[key], limit, key)
    } else {
        Ok(default)
    }
}

/// Reads a number of 64 bits that may be missing.
pub fn parse_optional_u64(values: &FieldMap, key: &str, default: u64) -> (r: Result<
    u64,
    WorkspaceError,
>)
    requires
        values.wf(),
    ensures
        match r {
            Ok(n) => optional_unsigned(values@, key@, default as int, u64::MAX as int) == Ok::<
                int,
                WorkspaceErrorView,
            >(n as int),
            Err(e) => optional_unsigned(values@, key@, default as int, u64::MAX as int) == Err::<
                int,
                WorkspaceErrorView,
            >(e@),
        },
{
    match values.get(key) {
        Some(v) => parse_limited(v.as_str(), u64::MAX, key),
        None => Ok(default),
    }
}

/// Reads a number of 16 bits that may be missing.
pub fn parse_optional_u16(values: &FieldMap, key: &str, default: u16) -> (r: Result<
    u16,
    WorkspaceError,
>)
    requires
        values.wf(),
    ensures
        match r {
            Ok(n) => optional_unsigned(values@, key@, default as int, u16::MAX as int) == Ok::<
                int,
                WorkspaceErrorView,
            >(n as int),
            Err(e) => optional_unsigned(values@, key@, default as int, u16::MAX as int) == Err::<
                int,
                WorkspaceErrorView,
            >(e@),
        },
{
    match values.get(key) {
        Some(v) => match parse_limited(v.as_str(), u16::MAX as u64, key) {
            Ok(n) => Ok(n as u16),
            Err(e) => Err(e),
        },
        None => Ok(default),
    }
}

/// A truth value as text.
pub open spec fn bool_text(b: bool) -> Seq<char> {
    if b {
        "true"@
    } else {
        "false"@
    }
}

/// Writes a truth value.
pub fn show_bool(b: bool) -> (r: &'static str)
    ensures
        r@ == bool_text(b),
{
    if b {
        "true"
    } else {
        "false"
    }
}

/// The truth value that a value stands for.
pub open spec fn bool_value(value: Seq<char>, key: Seq<char>) -> Result<bool, WorkspaceErrorView> {
    if value == "true"@ {
        Ok(true)
    } else if value == "false"@ {
        Ok(false)
    } else {
        Err(WorkspaceErrorView::InvalidFormat(key + " must be true or false"@))
    }
}

/// Reads a truth value.
pub fn parse_bool(value: &str, key: &str) -> (r: Result<bool, WorkspaceError>)
    ensures
        match r {
            Ok(b) => bool_value(value@, key@) == Ok::<bool, WorkspaceErrorView>(b),
            Err(e) => bool_value(value@, key@) == Err::<bool, WorkspaceErrorView>(e@),
        },
{
    if same_text(value, "true") {
        Ok(true)
    } else if same_text(value, "false") {
        Ok(false)
    } else {
        Err(WorkspaceError::InvalidFormat(concat2(key, " must be true or false")))
    }
}

/// The truth value under a key that may be missing.
pub open spec fn optional_bool(
    m: Map<Seq<char>, Seq<char>>,
    key: Seq<char>,
    default: bool,
) -> Result<bool, WorkspaceErrorView> {
    if m.dom().contains(key) {
        bool_value(m[key], key)
    } else {
        Ok(default)
    }
}

/// Reads a truth value that may be missing.
pub fn parse_optional_bool(values: &FieldMap, key: &str, default: bool) -> (r: Result<
    bool,
    WorkspaceError,
>)
    requires
        values.wf(),
    ensures
        match r {
            Ok(b) => optional_bool(values@, key@, default) == Ok::<bool, WorkspaceErrorView>(b),
            Err(e) => optional_bool(values@, key@, default) == Err::<bool, WorkspaceErrorView>(e@),
        },
{
    match values.get(key) {
        Some(v) => parse_bool(v.as_str(), key),
        None => Ok(default),
    }
}

/// What is wrong with a schema version, if anything.
pub open spec fn version_check(version: u32) -> Result<(), WorkspaceErrorView> {
    if version == CURRENT_SCHEMA_VERSION {
        Ok(())
    } else {
        Err(
            WorkspaceErrorView::UnsupportedSchemaVersion {
                found: version,
                supported: CURRENT_SCHEMA_VERSION,
            },
        )
    }
}

/// Refuses every schema version but the current one.
pub fn require_supported_version(version: u32) -> (r: Result<(), WorkspaceError>)
    ensures
        match r {
            Ok(_) => version_check(version) is Ok,
            Err(e) => version_check(version) == Err::<(), WorkspaceErrorView>(e@),
        },
{
    if version == CURRENT_SCHEMA_VERSION {
        Ok(())
    } else {
        Err(
            WorkspaceError::UnsupportedSchemaVersion {
                found: version,
                supported: CURRENT_SCHEMA_VERSION,
            },
        )
    }
}

/// The schema version that a document states.
pub open spec fn schema_version_of(m: Map<Seq<char>, Seq<char>>) -> Result<u32, WorkspaceErrorView> {
    match required_value(m, "schema_version"@) {
        Err(e) => Err(e),
        Ok(v) => match unsigned_value(v, u32::MAX as int, "schema_version"@) {
            Err(e) => Err(e),
            Ok(n) => match version_check(n as u32) {
                Ok(_) => Ok(n as u32),
                Err(e) => Err(e),
            },
        },
    }
}

/// Reads the schema version of a document and refuses one that is not supported.
pub fn parse_schema_version(values: &FieldMap) -> (r: Result<u32, WorkspaceError>)
    requires
        values.wf(),
    ensures
        match r {
            Ok(n) => schema_version_of(values@) == Ok::<u32, WorkspaceErrorView>(n),
            Err(e) => schema_version_of(values@) == Err::<u32, WorkspaceErrorView>(e@),
        },
{
    let stated = match required(values, "schema_version") {
        Ok(v) => v,
        Err(e) => {
            return Err(e);
        },
    };
    let version = match parse_u32(stated.as_str(), "schema_version") {
        Ok(n) => n,
        Err(e) => {
            return Err(e);
        },
    };
    match require_supported_version(version) {
        Ok(_) => Ok(version),
        Err(e) => Err(e),
    }
}

} // verus!
