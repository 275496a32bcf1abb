//! Headers, form fields and parts as lines of text to be edited.
use crate::domain::{
    domain_message, form_views, header_check, header_views, lemma_sensitivity_named,
    multipart_views, named_sensitivity, sensitivity_name, sensitivity_named, sensitivity_text,
    FormField, FormFieldView, HeaderEntry, MultipartField, MultipartFieldView, MultipartValue,
    MultipartValueView, ValueSensitivity,
};
use crate::lines::{is_line, join, join_texts, lines, split_lines, strip_return};
use crate::message::{concat4, concat5};
use crate::number::{decimal, decimal_text};
use crate::text::{
    chars_of, index_of, is_blank, lemma_index_of, lemma_index_of_is, lemma_trim, same_text, slices,
    split_at_char, split_n, split_once, split_up_to, string_of, texts, trim, trim_chars, trimmed,
};
use vstd::prelude::*;

verus! {

/// How a message on a line begins.
pub open spec fn on_line(number: nat) -> Seq<char> {
    "line "@ + decimal(number) + ": "@
}

fn line_message(number: usize, text: &str) -> (r: String)
    ensures
        r@ == on_line(number as nat) + text@,
{
    let r = concat4("line ", decimal_text(number as u64).as_str(), ": ", text);
    assert(r@ =~= on_line(number as nat) + text@);
    r
}

fn line_message_quoting(number: usize, text: &str, quoted: &[char]) -> (r: String)
    ensures
        r@ == on_line(number as nat) + text@ + quoted@ + "'"@,
{
    let first = line_message(number, text);
    let r = crate::message::concat3(first.as_str(), string_of(quoted).as_str(), "'");
    assert(r@ =~= on_line(number as nat) + text@ + quoted@ + "'"@);
    r
}

/// The sensitivity that a column says.
pub open spec fn sensitivity_column(text: Seq<char>, line: nat) -> Result<
    ValueSensitivity,
    Seq<char>,
> {
    match named_sensitivity(trim(text)) {
        Some(s) => Ok(s),
        None => Err(on_line(line) + "unknown sensitivity '"@ + trim(text) + "'"@),
    }
}

/// Reads the column of a sensitivity.
pub fn parse_sensitivity(value: &[char], line: usize) -> (r: Result<ValueSensitivity, String>)
    ensures
        said(r) == sensitivity_column(value@, line as nat),
{
    let text = trim_chars(value);
    match sensitivity_named(string_of(text).as_str()) {
        Some(s) => Ok(s),
        None => Err(line_message_quoting(line, "unknown sensitivity '", text)),
    }
}

/// The contents of an outcome whose error is a text.
pub open spec fn said<T>(r: Result<T, String>) -> Result<T, Seq<char>> {
    match r {
        Ok(v) => Ok(v),
        Err(e) => Err(e@),
    }
}

/// Whether a word says that something is on, or off.
pub open spec fn switch_word(text: Seq<char>) -> Option<bool> {
    if text == "enabled"@ || text == "on"@ || text == "true"@ || text == "1"@ {
        Some(true)
    } else if text == "disabled"@ || text == "off"@ || text == "false"@ || text == "0"@ {
        Some(false)
    } else {
        None
    }
}

/// What a column says of whether something is on.
pub open spec fn switch_column(text: Seq<char>, line: nat) -> Result<bool, Seq<char>> {
    match switch_word(trim(text)) {
        Some(b) => Ok(b),
        None => Err(
            on_line(line) + "expected enabled or disabled, found '"@ + trim(text) + "'"@,
        ),
    }
}

/// Reads the column of whether something is on.
pub fn parse_enabled(value: &[char], line: usize) -> (r: Result<bool, String>)
    ensures
        said(r) == switch_column(value@, line as nat),
{
    let chars = trim_chars(value);
    let owned = string_of(chars);
    let text = owned.as_str();
    if same_text(text, "enabled") || same_text(text, "on") || same_text(text, "true") || same_text(
        text,
        "1",
    ) {
        Ok(true)
    } else if same_text(text, "disabled") || same_text(text, "off") || same_text(text, "false")
        || same_text(text, "0") {
        Ok(false)
    } else {
        Err(line_message_quoting(line, "expected enabled or disabled, found '", chars))
    }
}

/// The word for whether something is on.
pub open spec fn enabled_word(enabled: bool) -> Seq<char> {
    if enabled {
        "enabled"@
    } else {
        "disabled"@
    }
}

fn enabled_label(enabled: bool) -> (r: &'static str)
    ensures
        r@ == enabled_word(enabled),
{
    if enabled {
        "enabled"
    } else {
        "disabled"
    }
}

/// The line of a named value.
pub open spec fn field_line(f: FormFieldView) -> Seq<char> {
    enabled_word(f.enabled) + seq![';'] + sensitivity_text(f.sensitivity) + seq![';'] + (f.name
        + seq!['='] + f.value)
}

/// The text of named values.
pub open spec fn fields_text(list: Seq<FormFieldView>) -> Seq<char> {
    join(list.map_values(|f: FormFieldView| field_line(f)), "\n"@)
}

fn write_field(enabled: bool, sensitivity: ValueSensitivity, name: &str, value: &str) -> (r: String)
    ensures
        r@ == field_line(FormFieldView { name: name@, value: value@, enabled, sensitivity }),
{
    let first = concat4(enabled_label(enabled), ";", sensitivity_name(sensitivity), ";");
    let r = concat4(first.as_str(), name, "=", value);
    proof {
        reveal_strlit(";");
        reveal_strlit("=");
        assert(";"@ =~= seq![';']);
        assert("="@ =~= seq!['=']);
        assert(r@ =~= field_line(FormFieldView { name: name@, value: value@, enabled, sensitivity }));
    }
    r
}

/// Writes form fields as text.
pub fn format_form_fields(fields: &[FormField]) -> (r: String)
    ensures
        r@ == fields_text(form_views(fields@)),
{
    let ghost all = form_views(fields@);
    let mut list: Vec<String> = Vec::new();
    for i in 0..fields.len()
        invariant
            all == form_views(fields@),
            list@.len() == i,
            forall|k: int| 0 <= k < i ==> (#[trigger] list@[k])@ == field_line(all[k]),
    {
        let f = &fields[i];
        assert(all[i as int] =~= FormFieldView {
            name: f.name@,
            value: f.value@,
            enabled: f.enabled,
            sensitivity: f.sensitivity,
        });
        list.push(write_field(f.enabled, f.sensitivity, f.name.as_str(), f.value.as_str()));
    }
    assert(texts(list@) =~= all.map_values(|f: FormFieldView| field_line(f)));
    join_texts(list.as_slice(), "\n")
}

/// Writes headers as text.
pub fn format_headers(headers: &[HeaderEntry]) -> (r: String)
    ensures
        r@ == fields_text(header_views(headers@)),
{
    let ghost all = header_views(headers@);
    let mut list: Vec<String> = Vec::new();
    for i in 0..headers.len()
        invariant
            all == header_views(headers@),
            list@.len() == i,
            forall|k: int| 0 <= k < i ==> (#[trigger] list@[k])@ == field_line(all[k]),
    {
        let f = &headers[i];
        assert(all[i as int] =~= FormFieldView {
            name: f.name@,
            value: f.value@,
            enabled: f.enabled,
            sensitivity: f.sensitivity,
        });
        list.push(write_field(f.enabled, f.sensitivity, f.name.as_str(), f.value.as_str()));
    }
    assert(texts(list@) =~= all.map_values(|f: FormFieldView| field_line(f)));
    join_texts(list.as_slice(), "\n")
}

/// What a line of a named value says: the name is as it stands in the line.
pub open spec fn field_row(line: Seq<char>, number: nat) -> Result<FormFieldView, Seq<char>> {
    let pieces = split_n(line, ';', 3);
    match switch_column(pieces[0], number) {
        Err(e) => Err(e),
        Ok(enabled) => if pieces.len() < 2 {
            Err(on_line(number) + "missing sensitivity"@)
        } else {
            match sensitivity_column(pieces[1], number) {
                Err(e) => Err(e),
                Ok(sensitivity) => if pieces.len() < 3 {
                    Err(on_line(number) + "missing name=value pair"@)
                } else {
                    match split_once(pieces[2], '=') {
                        None => Err(on_line(number) + "expected name=value"@),
                        Some((name, value)) => Ok(
                            FormFieldView { name, value, enabled, sensitivity },
                        ),
                    }
                },
            }
        },
    }
}

/// The form field of a line.
pub open spec fn form_row(line: Seq<char>, number: nat) -> Result<FormFieldView, Seq<char>> {
    match field_row(line, number) {
        Err(e) => Err(e),
        Ok(f) => if is_blank(f.name) {
            Err(on_line(number) + "name cannot be empty"@)
        } else {
            Ok(FormFieldView { name: trim(f.name), ..f })
        },
    }
}

/// The header of a line.
pub open spec fn header_row(line: Seq<char>, number: nat) -> Result<FormFieldView, Seq<char>> {
    match field_row(line, number) {
        Err(e) => Err(e),
        Ok(f) => match header_check(trim(f.name), f.value) {
            Some(e) => Err(on_line(number) + domain_message(e)),
            None => Ok(FormFieldView { name: trim(f.name), ..f }),
        },
    }
}

/// What lines say, each by itself; blank lines say nothing.
pub open spec fn rows<T>(
    list: Seq<Seq<char>>,
    row: spec_fn(Seq<char>, nat) -> Result<T, Seq<char>>,
) -> Result<Seq<T>, Seq<char>>
    decreases list.len(),
{
    if list.len() == 0 {
        Ok(seq![])
    } else {
        match rows(list.drop_last(), row) {
            Err(e) => Err(e),
            Ok(front) => if is_blank(list.last()) {
                Ok(front)
            } else {
                match row(list.last(), list.len()) {
                    Err(e) => Err(e),
                    Ok(v) => Ok(front.push(v)),
                }
            },
        }
    }
}

proof fn lemma_rows_error<T>(
    list: Seq<Seq<char>>,
    row: spec_fn(Seq<char>, nat) -> Result<T, Seq<char>>,
    k: int,
)
    requires
        0 <= k <= list.len(),
        rows(list.take(k), row) is Err,
    ensures
        rows(list, row) == rows(list.take(k), row),
    decreases list.len() - k,
{
    if k < list.len() {
        assert(list.take(k + 1).drop_last() =~= list.take(k));
        lemma_rows_error(list, row, k + 1);
    } else {
        assert(list.take(k) =~= list);
    }
}

/// The form fields that a text says.
pub open spec fn form_fields_of(text: Seq<char>) -> Result<Seq<FormFieldView>, Seq<char>> {
    rows(lines(text), |line: Seq<char>, number: nat| form_row(line, number))
}

/// The headers that a text says.
pub open spec fn headers_of(text: Seq<char>) -> Result<Seq<FormFieldView>, Seq<char>> {
    rows(lines(text), |line: Seq<char>, number: nat| header_row(line, number))
}

/// What a line of a named value says.
struct FieldRow {
    enabled: bool,
    sensitivity: ValueSensitivity,
    name: String,
    value: String,
}

fn read_row(line: &[char], number: usize) -> (r: Result<FieldRow, String>)
    ensures
        match r {
            Ok(f) => field_row(line@, number as nat) == Ok::<FormFieldView, Seq<char>>(
                FormFieldView {
                    name: f.name@,
                    value: f.value@,
                    enabled: f.enabled,
                    sensitivity: f.sensitivity,
                },
            ),
            Err(e) => field_row(line@, number as nat) == Err::<FormFieldView, Seq<char>>(e@),
        },
{
    let pieces = split_up_to(line, ';', 3);
    let ghost all = slices(pieces@);
    assert(all[0] == pieces@[0]@);
    let enabled = match parse_enabled(pieces[0], number) {
        Ok(b) => b,
        Err(e) => {
            return Err(e);
        },
    };
    if pieces.len() < 2 {
        return Err(line_message(number, "missing sensitivity"));
    }
    assert(all[1] == pieces@[1]@);
    let sensitivity = match parse_sensitivity(pieces[1], number) {
        Ok(s) => s,
        Err(e) => {
            return Err(e);
        },
    };
    if pieces.len() < 3 {
        return Err(line_message(number, "missing name=value pair"));
    }
    assert(all[2] == pieces@[2]@);
    match split_at_char(pieces[2], '=') {
        None => Err(line_message(number, "expected name=value")),
        Some((name, value)) => Ok(
            FieldRow { enabled, sensitivity, name: string_of(name), value: string_of(value) },
        ),
    }
}

/// Reads form fields from text.
pub fn parse_form_fields(value: &str) -> (r: Result<Vec<FormField>, String>)
    ensures
        match r {
            Ok(list) => form_fields_of(value@) == Ok::<Seq<FormFieldView>, Seq<char>>(
                form_views(list@),
            ),
            Err(e) => form_fields_of(value@) == Err::<Seq<FormFieldView>, Seq<char>>(e@),
        },
{
    let chars = chars_of(value);
    let list = split_lines(chars.as_slice());
    let ghost all = slices(list@);
    let ghost row = |line: Seq<char>, number: nat| form_row(line, number);
    let mut fields: Vec<FormField> = Vec::new();
    assert(all.take(0) =~= seq![]);
    assert(form_views(fields@) =~= seq![]);
    for i in 0..list.len()
        invariant
            all == slices(list@),
            all == lines(value@),
            list@.len() <= chars@.len(),
            row == (|line: Seq<char>, number: nat| form_row(line, number)),
            rows(all.take(i as int), row) == Ok::<Seq<FormFieldView>, Seq<char>>(
                form_views(fields@),
            ),
    {
        let line = list[i];
        let ghost before = form_views(fields@);
        proof {
            assert(all.take(i + 1).drop_last() =~= all.take(i as int));
            assert(all.take(i + 1).last() == line@);
        }
        if trim_chars(line).len() > 0 {
            let f = match read_row(line, i + 1) {
                Ok(f) => f,
                Err(e) => {
                    proof {
                        lemma_rows_error(all, row, i + 1);
                    }
                    return Err(e);
                },
            };
            let name = crate::text::trim_text(f.name.as_str());
            if name.as_str().unicode_len() == 0 {
                proof {
                    assert(row(line@, (i + 1) as nat) == form_row(line@, (i + 1) as nat));
                    lemma_rows_error(all, row, i + 1);
                }
                return Err(line_message(i + 1, "name cannot be empty"));
            }
            let field = FormField {
                name,
                value: f.value,
                enabled: f.enabled,
                sensitivity: f.sensitivity,
            };
            let ghost v = field@;
            fields.push(field);
            proof {
                assert(form_views(fields@) =~= before.push(v));
                assert(row(line@, (i + 1) as nat) == form_row(line@, (i + 1) as nat));
            }
        }
    }
    assert(all.take(list@.len() as int) =~= all);
    Ok(fields)
}

/// Reads headers from text.
pub fn parse_headers(value: &str) -> (r: Result<Vec<HeaderEntry>, String>)
    ensures
        match r {
            Ok(list) => headers_of(value@) == Ok::<Seq<FormFieldView>, Seq<char>>(
                header_views(list@),
            ),
            Err(e) => headers_of(value@) == Err::<Seq<FormFieldView>, Seq<char>>(e@),
        },
{
    let chars = chars_of(value);
    let list = split_lines(chars.as_slice());
    let ghost all = slices(list@);
    let ghost row = |line: Seq<char>, number: nat| header_row(line, number);
    let mut headers: Vec<HeaderEntry> = Vec::new();
    assert(all.take(0) =~= seq![]);
    assert(header_views(headers@) =~= seq![]);
    for i in 0..list.len()
        invariant
            all == slices(list@),
            all == lines(value@),
            list@.len() <= chars@.len(),
            row == (|line: Seq<char>, number: nat| header_row(line, number)),
            rows(all.take(i as int), row) == Ok::<Seq<FormFieldView>, Seq<char>>(
                header_views(headers@),
            ),
    {
        let line = list[i];
        let ghost before = header_views(headers@);
        proof {
            assert(all.take(i + 1).drop_last() =~= all.take(i as int));
            assert(all.take(i + 1).last() == line@);
        }
        if trim_chars(line).len() > 0 {
            let f = match read_row(line, i + 1) {
                Ok(f) => f,
                Err(e) => {
                    proof {
                        lemma_rows_error(all, row, i + 1);
                    }
                    return Err(e);
                },
            };
            let name = crate::text::trim_text(f.name.as_str());
            let mut header = match HeaderEntry::new(name.as_str(), f.value.as_str()) {
                Ok(h) => h,
                Err(e) => {
                    proof {
                        assert(row(line@, (i + 1) as nat) == header_row(line@, (i + 1) as nat));
                        lemma_rows_error(all, row, i + 1);
                    }
                    return Err(line_message(i + 1, e.message().as_str()));
                },
            };
            header.enabled = f.enabled;
            header.sensitivity = f.sensitivity;
            let ghost v = header@;
            headers.push(header);
            proof {
                assert(header_views(headers@) =~= before.push(v));
                assert(row(line@, (i + 1) as nat) == header_row(line@, (i + 1) as nat));
            }
        }
    }
    assert(all.take(list@.len() as int) =~= all);
    Ok(headers)
}

/// The line of a part.
pub open spec fn part_line(p: MultipartFieldView) -> Seq<char> {
    enabled_word(p.enabled) + seq![';'] + (sensitivity_text(p.sensitivity) + seq![';'] + (
    part_kind(p.value) + seq![';'] + ((match p.content_type {
        Some(t) => t,
        None => seq![],
    }) + seq![';'] + (p.name + seq!['='] + part_value(p.value)))))
}

/// The name of what a part holds.
pub open spec fn part_kind(value: MultipartValueView) -> Seq<char> {
    match value {
        MultipartValueView::Text(_) => "text"@,
        MultipartValueView::File { .. } => "file"@,
    }
}

/// What a part holds.
pub open spec fn part_value(value: MultipartValueView) -> Seq<char> {
    match value {
        MultipartValueView::Text(t) => t,
        MultipartValueView::File { relative_path } => relative_path,
    }
}

/// The text of parts.
pub open spec fn parts_text(list: Seq<MultipartFieldView>) -> Seq<char> {
    join(list.map_values(|p: MultipartFieldView| part_line(p)), "\n"@)
}

/// Writes parts as text.
pub fn format_multipart_fields(fields: &[MultipartField]) -> (r: String)
    ensures
        r@ == parts_text(multipart_views(fields@)),
{
    let ghost all = multipart_views(fields@);
    let mut list: Vec<String> = Vec::new();
    for i in 0..fields.len()
        invariant
            all == multipart_views(fields@),
            list@.len() == i,
            forall|k: int| 0 <= k < i ==> (#[trigger] list@[k])@ == part_line(all[k]),
    {
        let p = &fields[i];
        assert(all[i as int] == p@);
        let (kind, value) = match &p.value {
            MultipartValue::Text(t) => ("text", t.as_str()),
            MultipartValue::File { relative_path } => ("file", relative_path.as_str()),
        };
        let empty = String::new();
        assert(empty@ =~= seq![]);
        let content_type = match &p.content_type {
            Some(t) => t.as_str(),
            None => empty.as_str(),
        };
        let first = concat4(enabled_label(p.enabled), ";", sensitivity_name(p.sensitivity), ";");
        let second = concat5(first.as_str(), kind, ";", content_type, ";");
        let line = concat4(second.as_str(), p.name.as_str(), "=", value);
        proof {
            reveal_strlit(";");
            reveal_strlit("=");
            assert(";"@ =~= seq![';']);
            assert("="@ =~= seq!['=']);
            assert(line@ =~= part_line(p@));
        }
        list.push(line);
    }
    assert(texts(list@) =~= all.map_values(|p: MultipartFieldView| part_line(p)));
    join_texts(list.as_slice(), "\n")
}

/// The part of a line.
pub open spec fn part_row(line: Seq<char>, number: nat) -> Result<MultipartFieldView, Seq<char>> {
    let pieces = split_n(line, ';', 5);
    match switch_column(pieces[0], number) {
        Err(e) => Err(e),
        Ok(enabled) => match sensitivity_column(
            if pieces.len() > 1 {
                pieces[1]
            } else {
                seq![]
            },
            number,
        ) {
            Err(e) => Err(e),
            Ok(sensitivity) => if pieces.len() < 3 {
                Err(on_line(number) + "missing multipart kind"@)
            } else if pieces.len() < 4 {
                Err(on_line(number) + "missing content type column"@)
            } else if pieces.len() < 5 {
                Err(on_line(number) + "missing name=value pair"@)
            } else {
                match split_once(pieces[4], '=') {
                    None => Err(on_line(number) + "expected name=value"@),
                    Some((name, value)) => if pieces[2] == "text"@ || pieces[2] == "file"@ {
                        Ok(
                            MultipartFieldView {
                                name: trim(name),
                                value: if pieces[2] == "text"@ {
                                    MultipartValueView::Text(value)
                                } else {
                                    MultipartValueView::File { relative_path: value }
                                },
                                content_type: if is_blank(pieces[3]) {
                                    None
                                } else {
                                    Some(trim(pieces[3]))
                                },
                                enabled,
                                sensitivity,
                            },
                        )
                    } else {
                        Err(on_line(number) + "unknown multipart kind '"@ + pieces[2] + "'"@)
                    },
                }
            },
        },
    }
}

/// The parts that a text says.
pub open spec fn parts_of(text: Seq<char>) -> Result<Seq<MultipartFieldView>, Seq<char>> {
    rows(lines(text), |line: Seq<char>, number: nat| part_row(line, number))
}

fn read_part(line: &[char], number: usize) -> (r: Result<MultipartField, String>)
    ensures
        match r {
            Ok(p) => part_row(line@, number as nat) == Ok::<MultipartFieldView, Seq<char>>(p@),
            Err(e) => part_row(line@, number as nat) == Err::<MultipartFieldView, Seq<char>>(e@),
        },
{
    let pieces = split_up_to(line, ';', 5);
    let ghost all = slices(pieces@);
    assert forall|k: int| 0 <= k < pieces@.len() implies all[k] == (#[trigger] pieces@[k])@ by {}
    let enabled = match parse_enabled(pieces[0], number) {
        Ok(b) => b,
        Err(e) => {
            return Err(e);
        },
    };
    let nothing: Vec<char> = Vec::new();
    assert(nothing@ =~= seq![]);
    let second: &[char] = if pieces.len() > 1 {
        pieces[1]
    } else {
        nothing.as_slice()
    };
    let sensitivity = match parse_sensitivity(second, number) {
        Ok(s) => s,
        Err(e) => {
            return Err(e);
        },
    };
    if pieces.len() < 3 {
        return Err(line_message(number, "missing multipart kind"));
    }
    if pieces.len() < 4 {
        return Err(line_message(number, "missing content type column"));
    }
    if pieces.len() < 5 {
        return Err(line_message(number, "missing name=value pair"));
    }
    let (name, value) = match split_at_char(pieces[4], '=') {
        None => {
            return Err(line_message(number, "expected name=value"));
        },
        Some(pair) => pair,
    };
    let kind = string_of(pieces[2]);
    let held = if same_text(kind.as_str(), "text") {
        MultipartValue::Text(string_of(value))
    } else if same_text(kind.as_str(), "file") {
        MultipartValue::File { relative_path: string_of(value) }
    } else {
        return Err(line_message_quoting(number, "unknown multipart kind '", pieces[2]));
    };
    proof {
        reveal_strlit("text");
        reveal_strlit("file");
        assert("text"@[0] != "file"@[0]);
    }
    let content_type = trim_chars(pieces[3]);
    Ok(
        MultipartField {
            name: string_of(trim_chars(name)),
            value: held,
            content_type: if content_type.len() > 0 {
                Some(string_of(content_type))
            } else {
                None
            },
            enabled,
            sensitivity,
        },
    )
}

/// Reads parts from text.
pub fn parse_multipart_fields(value: &str) -> (r: Result<Vec<MultipartField>, String>)
    ensures
        match r {
            Ok(list) => parts_of(value@) == Ok::<Seq<MultipartFieldView>, Seq<char>>(
                multipart_views(list@),
            ),
            Err(e) => parts_of(value@) == Err::<Seq<MultipartFieldView>, Seq<char>>(e@),
        },
{
    let chars = chars_of(value);
    let list = split_lines(chars.as_slice());
    let ghost all = slices(list@);
    let ghost row = |line: Seq<char>, number: nat| part_row(line, number);
    let mut fields: Vec<MultipartField> = Vec::new();
    assert(all.take(0) =~= seq![]);
    assert(multipart_views(fields@) =~= seq![]);
    for i in 0..list.len()
        invariant
            all == slices(list@),
            all == lines(value@),
            list@.len() <= chars@.len(),
            row == (|line: Seq<char>, number: nat| part_row(line, number)),
            rows(all.take(i as int), row) == Ok::<Seq<MultipartFieldView>, Seq<char>>(
                multipart_views(fields@),
            ),
    {
        let line = list[i];
        let ghost before = multipart_views(fields@);
        proof {
            assert(all.take(i + 1).drop_last() =~= all.take(i as int));
            assert(all.take(i + 1).last() == line@);
        }
        if trim_chars(line).len() > 0 {
            let field = match read_part(line, i + 1) {
                Ok(f) => f,
                Err(e) => {
                    proof {
                        assert(row(line@, (i + 1) as nat) == part_row(line@, (i + 1) as nat));
                        lemma_rows_error(all, row, i + 1);
                    }
                    return Err(e);
                },
            };
            let ghost v = field@;
            fields.push(field);
            proof {
                assert(multipart_views(fields@) =~= before.push(v));
                assert(row(line@, (i + 1) as nat) == part_row(line@, (i + 1) as nat));
            }
        }
    }
    assert(all.take(list@.len() as int) =~= all);
    Ok(fields)
}

/// A text is split at the first of a character where what comes before has none.
pub proof fn lemma_split_at(a: Seq<char>, c: char, b: Seq<char>)
    requires
        !a.contains(c),
    ensures
        split_once(a + seq![c] + b, c) == Some((a, b)),
{
    let s = a + seq![c] + b;
    assert forall|i: int| 0 <= i < a.len() implies s[i] != c by {
        assert(a.contains(a[i]));
    }
    lemma_index_of_is(s, c, a.len() as int);
    assert(s.take(a.len() as int) =~= a);
    assert(s.skip(a.len() as int + 1) =~= b);
}

/// Texts with a separator: the first comes first.
pub proof fn lemma_join_front(first: Seq<char>, rest: Seq<Seq<char>>, separator: Seq<char>)
    requires
        rest.len() > 0,
    ensures
        join(seq![first] + rest, separator) == first + separator + join(rest, separator),
    decreases rest.len(),
{
    let all = seq![first] + rest;
    let shorter = rest.drop_last();
    assert(all.drop_last() =~= seq![first] + shorter);
    assert(all.last() == rest.last());
    if shorter.len() == 0 {
        assert(all.drop_last() =~= seq![first]);
        assert(join(all.drop_last(), separator) == first);
        assert(join(rest, separator) == rest.last());
    } else {
        lemma_join_front(first, shorter, separator);
        assert(join(rest, separator) == join(shorter, separator) + separator + rest.last());
    }
    assert(join(all, separator) == join(all.drop_last(), separator) + separator + all.last());
    assert(join(all, separator) =~= first + separator + join(rest, separator));
}

/// The lines of a text that was put together from lines are those lines.
pub proof fn lemma_lines_of_join(list: Seq<Seq<char>>)
    requires
        forall|i: int|
            0 <= i < list.len() ==> is_line(#[trigger] list[i]) && list[i].len() > 0,
    ensures
        lines(join(list, "\n"@)) == list,
    decreases list.len(),
{
    reveal_strlit("\n");
    assert("\n"@ =~= seq!['\n']);
    if list.len() == 0 {
        assert(lines(join(list, "\n"@)) =~= list);
    } else {
        let first = list[0];
        let rest = list.skip(1);
        assert(is_line(list[0]));
        assert(list =~= seq![first] + rest);
        if rest.len() == 0 {
            lemma_index_of(first, '\n');
            assert(index_of(first, '\n') == first.len()) by {
                if index_of(first, '\n') < first.len() {
                    assert(first.contains(first[index_of(first, '\n')]));
                }
            }
            assert(lines(first) =~= seq![first]);
            assert(list =~= seq![first]);
        } else {
            lemma_join_front(first, rest, "\n"@);
            assert forall|i: int| 0 <= i < rest.len() implies is_line(#[trigger] rest[i])
                && rest[i].len() > 0 by {
                assert(rest[i] == list[i + 1]);
            }
            lemma_lines_of_join(rest);
            let tail = join(rest, "\n"@);
            let text = first + seq!['\n'] + tail;
            assert(join(list, "\n"@) =~= text);
            assert forall|i: int| 0 <= i < first.len() implies text[i] != '\n' by {
                assert(first.contains(first[i]));
            }
            lemma_index_of_is(text, '\n', first.len() as int);
            assert(text.take(first.len() as int) =~= first);
            assert(text.skip(first.len() as int + 1) =~= tail);
            assert(strip_return(first) == first);
            assert(lines(text) =~= seq![first] + rest);
        }
    }
}

/// Lines that say what they were written from say all of it.
proof fn lemma_rows_read<T>(
    list: Seq<Seq<char>>,
    values: Seq<T>,
    row: spec_fn(Seq<char>, nat) -> Result<T, Seq<char>>,
)
    requires
        list.len() == values.len(),
        forall|i: int|
            0 <= i < list.len() ==> !is_blank(#[trigger] list[i]) && row(list[i], (i + 1) as nat)
                == Ok::<T, Seq<char>>(values[i]),
    ensures
        rows(list, row) == Ok::<Seq<T>, Seq<char>>(values),
    decreases list.len(),
{
    if list.len() > 0 {
        let front = list.drop_last();
        let rest = values.drop_last();
        assert forall|i: int| 0 <= i < front.len() implies !is_blank(#[trigger] front[i])
            && row(front[i], (i + 1) as nat) == Ok::<T, Seq<char>>(rest[i]) by {
            assert(front[i] == list[i]);
        }
        lemma_rows_read(front, rest, row);
        assert(!is_blank(list[list.len() - 1]));
        assert(rest.push(values.last()) =~= values);
    } else {
        assert(values =~= seq![]);
    }
}

proof fn lemma_words(enabled: bool, sensitivity: ValueSensitivity, line: nat)
    ensures
        !enabled_word(enabled).contains(';'),
        !sensitivity_text(sensitivity).contains(';'),
        switch_column(enabled_word(enabled), line) == Ok::<bool, Seq<char>>(enabled),
        sensitivity_column(sensitivity_text(sensitivity), line) == Ok::<
            ValueSensitivity,
            Seq<char>,
        >(sensitivity),
        enabled_word(enabled).len() > 0,
        enabled_word(enabled)[0] == 'e' || enabled_word(enabled)[0] == 'd',
{
    reveal_strlit("enabled");
    reveal_strlit("disabled");
    reveal_strlit("on");
    reveal_strlit("true");
    reveal_strlit("1");
    reveal_strlit("public");
    reveal_strlit("sensitive");
    reveal_strlit("secret");
    assert("enabled"@.len() == 7 && "disabled"@.len() == 8 && "on"@.len() == 2 && "true"@.len() == 4);
    assert("1"@.len() == 1 && "public"@.len() == 6 && "sensitive"@.len() == 9 && "secret"@.len()
        == 6);
    assert("public"@[0] == 'p' && "secret"@[0] == 's');
    lemma_sensitivity_named(sensitivity);
    lemma_trim(enabled_word(enabled));
    lemma_trim(sensitivity_text(sensitivity));
}

/// Whether a named value can be written as a line and read back.
pub open spec fn editable_field(f: FormFieldView) -> bool {
    &&& f.name.len() > 0
    &&& trimmed(f.name)
    &&& !f.name.contains('=')
    &&& is_line(field_line(f))
}

proof fn lemma_field_row(f: FormFieldView, number: nat)
    requires
        editable_field(f),
    ensures
        field_row(field_line(f), number) == Ok::<FormFieldView, Seq<char>>(f),
        !is_blank(field_line(f)),
        field_line(f).len() > 0,
{
    let a = enabled_word(f.enabled);
    let b = sensitivity_text(f.sensitivity);
    let pair = f.name + seq!['='] + f.value;
    lemma_words(f.enabled, f.sensitivity, number);
    let rest = b + seq![';'] + pair;
    let line = field_line(f);
    assert(line =~= a + seq![';'] + rest);
    lemma_split_at(a, ';', rest);
    lemma_split_at(b, ';', pair);
    lemma_split_at(f.name, '=', f.value);
    reveal_with_fuel(split_n, 4);
    let pieces = split_n(line, ';', 3);
    assert(pieces =~= seq![a, b, pair]);
    assert(line[0] == a[0]);
    crate::text::lemma_trim_first(line);
}

/// Form fields that are written as text and read again are the same, so long as each fits into
/// a line: its name has no space around it and no equals sign, and neither the name nor the
/// value breaks the line.
pub proof fn law_form_fields_round_trip(list: Seq<FormFieldView>)
    requires
        forall|i: int| 0 <= i < list.len() ==> editable_field(#[trigger] list[i]),
    ensures
        form_fields_of(fields_text(list)) == Ok::<Seq<FormFieldView>, Seq<char>>(list),
{
    let row = |line: Seq<char>, number: nat| form_row(line, number);
    let written = list.map_values(|f: FormFieldView| field_line(f));
    assert forall|i: int| 0 <= i < written.len() implies is_line(#[trigger] written[i])
        && written[i].len() > 0 && !is_blank(written[i]) && row(written[i], (i + 1) as nat)
        == Ok::<FormFieldView, Seq<char>>(list[i]) by {
        assert(editable_field(list[i]));
        lemma_field_row(list[i], (i + 1) as nat);
        lemma_trim(list[i].name);
    }
    lemma_lines_of_join(written);
    lemma_rows_read(written, list, row);
}

/// Headers that are written as text and read again are the same, so long as each is a header
/// and its name has no equals sign.
pub proof fn law_headers_round_trip(list: Seq<FormFieldView>)
    requires
        forall|i: int|
            0 <= i < list.len() ==> editable_field(#[trigger] list[i]) && header_check(
                list[i].name,
                list[i].value,
            ) is None,
    ensures
        headers_of(fields_text(list)) == Ok::<Seq<FormFieldView>, Seq<char>>(list),
{
    let row = |line: Seq<char>, number: nat| header_row(line, number);
    let written = list.map_values(|f: FormFieldView| field_line(f));
    assert forall|i: int| 0 <= i < written.len() implies is_line(#[trigger] written[i])
        && written[i].len() > 0 && !is_blank(written[i]) && row(written[i], (i + 1) as nat)
        == Ok::<FormFieldView, Seq<char>>(list[i]) by {
        assert(editable_field(list[i]));
        lemma_field_row(list[i], (i + 1) as nat);
        lemma_trim(list[i].name);
    }
    lemma_lines_of_join(written);
    lemma_rows_read(written, list, row);
}

/// Whether a part can be written as a line and read back.
pub open spec fn editable_part(p: MultipartFieldView) -> bool {
    &&& trimmed(p.name)
    &&& !p.name.contains('=')
    &&& match p.content_type {
        Some(t) => t.len() > 0 && trimmed(t) && !t.contains(';'),
        None => true,
    }
    &&& is_line(part_line(p))
}

proof fn lemma_part_row(p: MultipartFieldView, number: nat)
    requires
        editable_part(p),
    ensures
        part_row(part_line(p), number) == Ok::<MultipartFieldView, Seq<char>>(p),
        !is_blank(part_line(p)),
        part_line(p).len() > 0,
{
    let a = enabled_word(p.enabled);
    let b = sensitivity_text(p.sensitivity);
    let kind = part_kind(p.value);
    let t = match p.content_type {
        Some(t) => t,
        None => seq![],
    };
    let pair = p.name + seq!['='] + part_value(p.value);
    lemma_words(p.enabled, p.sensitivity, number);
    reveal_strlit("text");
    reveal_strlit("file");
    assert("text"@.len() == 4 && "file"@.len() == 4);
    assert("text"@[0] == 't' && "file"@[0] == 'f');
    assert(!kind.contains(';'));
    lemma_trim(t);
    lemma_trim(p.name);
    let fourth = t + seq![';'] + pair;
    let third = kind + seq![';'] + fourth;
    let second = b + seq![';'] + third;
    let line = part_line(p);
    assert(line =~= a + seq![';'] + second);
    lemma_split_at(a, ';', second);
    lemma_split_at(b, ';', third);
    lemma_split_at(kind, ';', fourth);
    lemma_split_at(t, ';', pair);
    lemma_split_at(p.name, '=', part_value(p.value));
    reveal_with_fuel(split_n, 6);
    let pieces = split_n(line, ';', 5);
    assert(pieces =~= seq![a, b, kind, t, pair]);
    assert(line[0] == a[0]);
    crate::text::lemma_trim_first(line);
}

/// Parts that are written as text and read again are the same, so long as each fits into a
/// line.
pub proof fn law_parts_round_trip(list: Seq<MultipartFieldView>)
    requires
        forall|i: int| 0 <= i < list.len() ==> editable_part(#[trigger] list[i]),
    ensures
        parts_of(parts_text(list)) == Ok::<Seq<MultipartFieldView>, Seq<char>>(list),
{
    let row = |line: Seq<char>, number: nat| part_row(line, number);
    let written = list.map_values(|p: MultipartFieldView| part_line(p));
    assert forall|i: int| 0 <= i < written.len() implies is_line(#[trigger] written[i])
        && written[i].len() > 0 && !is_blank(written[i]) && row(written[i], (i + 1) as nat)
        == Ok::<MultipartFieldView, Seq<char>>(list[i]) by {
        assert(editable_part(list[i]));
        lemma_part_row(list[i], (i + 1) as nat);
    }
    lemma_lines_of_join(written);
    lemma_rows_read(written, list, row);
}

} // verus!
