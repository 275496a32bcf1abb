//! Documents that are one list of assignments, and the fields that a document
//! keeps for a later version of its reader.
use crate::document::{
    assignment, is_ignored_line, is_key, lemma_field_line, parse_assignment, plain_value,
};
use crate::error::{WorkspaceError, WorkspaceErrorView};
use crate::lines::{field_line, is_line, lines, split_lines, LineWriter};
use crate::message::concat2;
use crate::number::{decimal, decimal_text};
use crate::order::{
    ascending, in_order, lemma_ascending_distinct, lemma_in_order, lemma_map_of, map_of, FieldMap,
};
use crate::text::{chars_of, index_of, lemma_index_of, lemma_trim, slices, split_once, trim, trim_chars};
use vstd::prelude::*;

verus! {

/// The fields of a document: each key with its value.
pub type Fields = Map<Seq<char>, Seq<char>>;

/// Keys with their values, in the order of a document.
pub type Assignments = Seq<(Seq<char>, Seq<char>)>;

/// The fields that the lines of a flat document assign.
pub open spec fn flat_fields(list: Seq<Seq<char>>) -> Result<Fields, WorkspaceErrorView>
    decreases list.len(),
{
    if list.len() == 0 {
        Ok(Map::empty())
    } else {
        match flat_fields(list.drop_last()) {
            Err(e) => Err(e),
            Ok(m) => {
                let line = trim(list.last());
                if is_ignored_line(line) {
                    Ok(m)
                } else if line[0] == '[' {
                    Err(
                        WorkspaceErrorView::InvalidFormat(
                            "unexpected section on line "@ + decimal(list.len()),
                        ),
                    )
                } else {
                    match assignment(line, list.len()) {
                        Ok((key, value)) => Ok(m.insert(key, value)),
                        Err(e) => Err(e),
                    }
                }
            },
        }
    }
}

proof fn lemma_flat_error(list: Seq<Seq<char>>, k: int)
    requires
        0 <= k <= list.len(),
        flat_fields(list.take(k)) is Err,
    ensures
        flat_fields(list) == flat_fields(list.take(k)),
    decreases list.len() - k,
{
    if k < list.len() {
        assert(list.take(k + 1).drop_last() =~= list.take(k));
        lemma_flat_error(list, k + 1);
    } else {
        assert(list.take(k) =~= list);
    }
}

/// Reads a flat document.
pub fn parse_flat_document(input: &str) -> (r: Result<FieldMap, WorkspaceError>)
    ensures
        match r {
            Ok(m) => m.wf() && flat_fields(lines(input@)) == Ok::<Fields, WorkspaceErrorView>(m@),
            Err(e) => flat_fields(lines(input@)) == Err::<Fields, WorkspaceErrorView>(e@),
        },
{
    let chars = chars_of(input);
    let list = split_lines(chars.as_slice());
    let ghost all = slices(list@);
    let mut values: FieldMap = FieldMap::new();
    assert(flat_fields(all.take(0)) == Ok::<Fields, WorkspaceErrorView>(values@));
    for i in 0..list.len()
        invariant
            all == slices(list@),
            all == lines(input@),
            values.wf(),
            flat_fields(all.take(i as int)) == Ok::<Fields, WorkspaceErrorView>(values@),
    {
        let number: usize = i + 1;
        let line = trim_chars(list[i]);
        assert(all.take(i + 1).drop_last() =~= all.take(i as int));
        assert(all.take(i + 1).last() == list@[i as int]@);
        if line.len() > 0 && line[0] != '#' {
            if line[0] == '[' {
                proof {
                    lemma_flat_error(all, i + 1);
                }
                return Err(
                    WorkspaceError::InvalidFormat(
                        concat2("unexpected section on line ", decimal_text(number as u64).as_str()),
                    ),
                );
            }
            match parse_assignment(line, number) {
                Ok((key, value)) => {
                    values.insert(key, value);
                },
                Err(e) => {
                    proof {
                        lemma_flat_error(all, i + 1);
                    }
                    return Err(e);
                },
            }
        }
    }
    assert(all.take(all.len() as int) =~= all);
    Ok(values)
}

/// The lines of some assignments.
pub open spec fn field_lines(list: Assignments) -> Seq<Seq<char>> {
    list.map_values(|kv: (Seq<char>, Seq<char>)| field_line(kv.0, kv.1))
}

/// Whether assignments can be written and read back.
pub open spec fn writable(list: Assignments) -> bool {
    forall|i: int|
        0 <= i < list.len() ==> is_key((#[trigger] list[i]).0) && plain_value(list[i].1)
}

/// The line before the fields that are kept for a later version.
pub open spec fn preserved_comment() -> Seq<char> {
    "# Forward-compatible fields preserved by ApexAPI."@
}

/// The lines of the fields that are kept for a later version.
pub open spec fn unknown_lines(m: Fields) -> Seq<Seq<char>> {
    if m == Fields::empty() {
        seq![]
    } else {
        seq![seq![], preserved_comment()] + field_lines(in_order(m))
    }
}

/// Whether fields can be kept beside the given keys: every key can be written and
/// is none of the others, and every value can be read back.
pub open spec fn preservable(m: Fields, known: Seq<Seq<char>>) -> bool {
    forall|k: Seq<char>| #[trigger]
        m.dom().contains(k) ==> is_key(k) && plain_value(m[k]) && !known.contains(k)
}

/// Writes the fields that are kept for a later version.
pub fn append_unknown_fields(out: &mut LineWriter, fields: &FieldMap)
    requires
        old(out).wf(),
        fields.wf(),
    ensures
        final(out).wf(),
        final(out).written@ == old(out).written@ + unknown_lines(fields@),
{
    let ghost before = out.written@;
    if fields.entries.len() == 0 {
        proof {
            assert(fields@ =~= Fields::empty());
            assert(before + unknown_lines(fields@) =~= before);
        }
        return ;
    }
    proof {
        fields.lemma_entries();
        assert(fields@.dom().contains(fields.entries@[0].0@));
        assert(fields@ != Fields::empty());
        lemma_in_order(fields.pairs());
    }
    out.line("");
    out.line("# Forward-compatible fields preserved by ApexAPI.");
    proof {
        reveal_strlit("");
    }
    let ghost head = seq![Seq::<char>::empty(), preserved_comment()];
    assert(""@ =~= Seq::<char>::empty());
    assert(field_lines(fields.pairs().take(0)) =~= seq![]);
    assert(out.written@ =~= before + head + field_lines(fields.pairs().take(0)));
    for i in 0..fields.entries.len()
        invariant
            out.wf(),
            out.written@ == before + head + field_lines(fields.pairs().take(i as int)),
    {
        let ghost partial = fields.pairs().take(i as int);
        out.field(fields.entries[i].0.as_str(), fields.entries[i].1.as_str());
        assert(fields.pairs().take(i + 1) =~= partial.push(fields.pairs()[i as int]));
        assert(field_lines(fields.pairs().take(i + 1)) =~= field_lines(partial).push(
            field_line(fields.pairs()[i as int].0, fields.pairs()[i as int].1),
        ));
        assert(out.written@ =~= before + head + field_lines(fields.pairs().take(i + 1)));
    }
    assert(fields.pairs().take(fields.pairs().len() as int) =~= fields.pairs());
    assert(out.written@ =~= before + unknown_lines(fields@));
}

/// Fields without some of their keys.
pub open spec fn without(m: Fields, keys: Seq<Seq<char>>) -> Fields {
    Map::new(|k: Seq<char>| m.dom().contains(k) && !keys.contains(k), |k: Seq<char>| m[k])
}

/// The texts that a list of names holds.
pub open spec fn names(list: Seq<&str>) -> Seq<Seq<char>> {
    list.map_values(|k: &str| k@)
}

/// Takes keys out of a map.
pub fn remove_keys(m: &mut FieldMap, keys: &[&str])
    requires
        old(m).wf(),
    ensures
        final(m).wf(),
        final(m)@ == without(old(m)@, names(keys@)),
{
    let ghost start = m@;
    let ghost all = names(keys@);
    assert(m@ =~= without(start, all.take(0)));
    for i in 0..keys.len()
        invariant
            all == names(keys@),
            m.wf(),
            m@ == without(start, all.take(i as int)),
    {
        let ghost before = m@;
        m.remove(keys[i]);
        proof {
            let key = keys@[i as int]@;
            assert(all[i as int] == key);
            assert(all.take(i + 1) =~= all.take(i as int).push(key));
            assert forall|k: Seq<char>| all.take(i + 1).contains(k) <==> (all.take(
                i as int,
            ).contains(k) || k == key) by {
                let a = all.take(i as int);
                let b = all.take(i + 1);
                if b.contains(k) {
                    let j = choose|j: int| 0 <= j < b.len() && b[j] == k;
                    if j < i {
                        assert(a[j] == k);
                    }
                }
                if a.contains(k) {
                    let j = choose|j: int| 0 <= j < a.len() && a[j] == k;
                    assert(b[j] == k);
                }
                if k == key {
                    assert(b[i as int] == k);
                }
            }
            assert(m@ =~= without(start, all.take(i + 1)));
        }
    }
    assert(all.take(all.len() as int) =~= all);
}

/// Reading lines and then the lines of some assignments adds the assignments.
pub proof fn lemma_flat_fields_block(front: Seq<Seq<char>>, list: Assignments)
    requires
        flat_fields(front) is Ok,
        writable(list),
    ensures
        flat_fields(front + field_lines(list)) == Ok::<Fields, WorkspaceErrorView>(
            flat_fields(front)->Ok_0.union_prefer_right(map_of(list)),
        ),
    decreases list.len(),
{
    let m = flat_fields(front)->Ok_0;
    if list.len() == 0 {
        assert(front + field_lines(list) =~= front);
        assert(m.union_prefer_right(map_of(list)) =~= m);
    } else {
        let shorter = list.drop_last();
        assert forall|i: int| 0 <= i < shorter.len() implies is_key((#[trigger] shorter[i]).0)
            && plain_value(shorter[i].1) by {
            assert(shorter[i] == list[i]);
        }
        lemma_flat_fields_block(front, shorter);
        let whole = front + field_lines(list);
        let kv = list.last();
        assert(whole.drop_last() =~= front + field_lines(shorter));
        assert(whole.last() == field_line(kv.0, kv.1));
        assert(is_key(list[list.len() - 1].0));
        lemma_field_line(kv.0, kv.1, whole.len());
        assert(m.union_prefer_right(map_of(list)) =~= m.union_prefer_right(map_of(shorter)).insert(
            kv.0,
            kv.1,
        ));
    }
}

/// Reading a line that says nothing changes nothing.
pub proof fn lemma_flat_fields_ignored(front: Seq<Seq<char>>, line: Seq<char>)
    requires
        flat_fields(front) is Ok,
        is_ignored_line(trim(line)),
    ensures
        flat_fields(front.push(line)) == flat_fields(front),
{
    assert(front.push(line).drop_last() =~= front);
}

/// An empty line and the comment before preserved fields say nothing.
pub proof fn lemma_ignored_lines()
    ensures
        is_ignored_line(trim(Seq::<char>::empty())),
        is_ignored_line(trim(preserved_comment())),
        trim(Seq::<char>::empty()).len() == 0,
        trim(preserved_comment()).len() > 0,
        trim(preserved_comment())[0] == '#',
        is_line(Seq::<char>::empty()),
        is_line(preserved_comment()),
{
    reveal_strlit("# Forward-compatible fields preserved by ApexAPI.");
    let c = preserved_comment();
    assert(c.len() == 49);
    assert(c[0] == '#' && c[48] == '.');
    lemma_trim(c);
    lemma_trim(Seq::<char>::empty());
}

/// What the lines of preserved fields hold in order.
pub proof fn lemma_in_order_writable(m: Fields, known: Seq<Seq<char>>, list: Assignments)
    requires
        preservable(m, known),
        ascending(list),
        map_of(list) == m,
    ensures
        in_order(m) == list,
        writable(list),
{
    lemma_in_order(list);
    lemma_ascending_distinct(list);
    lemma_map_of(list);
    assert forall|i: int| 0 <= i < list.len() implies is_key((#[trigger] list[i]).0) && plain_value(
        list[i].1,
    ) by {
        assert(m.dom().contains(list[i].0));
    }
}

/// The lines of assignments, each followed by what a later version needs, are read
/// as the assignments and the preserved fields.
pub proof fn lemma_flat_document(list: Assignments, m: Fields, known: Seq<Seq<char>>, pairs: Assignments)
    requires
        writable(list),
        preservable(m, known),
        ascending(pairs),
        map_of(pairs) == m,
    ensures
        flat_fields(field_lines(list) + unknown_lines(m)) == Ok::<Fields, WorkspaceErrorView>(
            map_of(list).union_prefer_right(m),
        ),
        forall|i: int|
            0 <= i < (field_lines(list) + unknown_lines(m)).len() ==> is_line(
                #[trigger] (field_lines(list) + unknown_lines(m))[i],
            ),
{
    lemma_flat_fields_block(seq![], list);
    assert(Seq::<Seq<char>>::empty() + field_lines(list) =~= field_lines(list));
    assert(Fields::empty().union_prefer_right(map_of(list)) =~= map_of(list));
    lemma_field_lines_are_lines(list);
    lemma_ignored_lines();
    let whole = field_lines(list) + unknown_lines(m);
    if m == Fields::empty() {
        assert(whole =~= field_lines(list));
        assert(map_of(list).union_prefer_right(m) =~= map_of(list));
    } else {
        lemma_in_order_writable(m, known, pairs);
        lemma_field_lines_are_lines(pairs);
        let a = field_lines(list).push(seq![]);
        let b = a.push(preserved_comment());
        lemma_flat_fields_ignored(field_lines(list), seq![]);
        lemma_flat_fields_ignored(a, preserved_comment());
        lemma_flat_fields_block(b, pairs);
        assert(whole =~= b + field_lines(pairs));
        assert forall|i: int| 0 <= i < whole.len() implies is_line(#[trigger] whole[i]) by {
            if i < list.len() {
                assert(whole[i] == field_lines(list)[i]);
            } else if i >= list.len() + 2 {
                assert(whole[i] == field_lines(pairs)[i - list.len() - 2]);
            }
        }
    }
}

/// The lines of assignments that can be read back are lines.
pub proof fn lemma_field_lines_are_lines(list: Assignments)
    requires
        writable(list),
    ensures
        forall|i: int| 0 <= i < list.len() ==> is_line(#[trigger] field_lines(list)[i]),
{
    assert forall|i: int| 0 <= i < list.len() implies is_line(#[trigger] field_lines(list)[i]) by {
        assert(is_key(list[i].0));
        lemma_field_line(list[i].0, list[i].1, 0);
    }
}

/// A line of a text holds no line feed.
pub proof fn lemma_lines_hold_no_feed(s: Seq<char>)
    ensures
        forall|i: int| 0 <= i < lines(s).len() ==> !(#[trigger] lines(s)[i]).contains('\n'),
    decreases s.len(),
{
    if s.len() > 0 {
        let k = index_of(s, '\n');
        lemma_index_of(s, '\n');
        if k < s.len() {
            let rest = s.skip(k + 1);
            lemma_lines_hold_no_feed(rest);
            assert forall|i: int| 0 <= i < lines(s).len() implies !(
            #[trigger] lines(s)[i]).contains('\n') by {
                if i > 0 {
                    assert(lines(s)[i] == lines(rest)[i - 1]);
                } else {
                    let line = lines(s)[0];
                    if line.contains('\n') {
                        let j = choose|j: int| 0 <= j < line.len() && line[j] == '\n';
                        assert(s[j] == '\n');
                    }
                }
            }
        } else {
            assert forall|i: int| 0 <= i < lines(s).len() implies !(
            #[trigger] lines(s)[i]).contains('\n') by {
                if s.contains('\n') {
                    let j = choose|j: int| 0 <= j < s.len() && s[j] == '\n';
                }
            }
        }
    }
}

/// What a line assigns can be written again.
pub proof fn lemma_assignment_writable(line: Seq<char>, number: nat)
    requires
        assignment(trim(line), number) is Ok,
        !line.contains('\n'),
    ensures
        is_key((assignment(trim(line), number)->Ok_0).0),
        plain_value((assignment(trim(line), number)->Ok_0).1),
{
    let t = trim(line);
    let (key, value) = split_once(t, '=')->Some_0;
    lemma_index_of(t, '=');
    lemma_trim(value);
    lemma_trim_keeps(line, '\n');
    lemma_trim_keeps(value, '\n');
    if value.contains('\n') {
        let j = choose|j: int| 0 <= j < value.len() && value[j] == '\n';
        assert(t[j + index_of(t, '=') + 1] == '\n');
    }
}

/// Trimming brings no character in.
pub proof fn lemma_trim_keeps(s: Seq<char>, c: char)
    ensures
        trim(s).contains(c) ==> s.contains(c),
{
    lemma_trim_start_keeps(s, c);
    lemma_trim_end_keeps(crate::text::trim_start(s), c);
}

proof fn lemma_trim_start_keeps(s: Seq<char>, c: char)
    ensures
        crate::text::trim_start(s).contains(c) ==> s.contains(c),
    decreases s.len(),
{
    if s.len() > 0 && crate::text::is_white_space(s[0]) {
        lemma_trim_start_keeps(s.drop_first(), c);
        if s.drop_first().contains(c) {
            let j = choose|j: int| 0 <= j < s.drop_first().len() && s.drop_first()[j] == c;
            assert(s[j + 1] == c);
        }
    }
}

proof fn lemma_trim_end_keeps(s: Seq<char>, c: char)
    ensures
        crate::text::trim_end(s).contains(c) ==> s.contains(c),
    decreases s.len(),
{
    if s.len() > 0 && crate::text::is_white_space(s.last()) {
        lemma_trim_end_keeps(s.drop_last(), c);
        if s.drop_last().contains(c) {
            let j = choose|j: int| 0 <= j < s.drop_last().len() && s.drop_last()[j] == c;
            assert(s[j] == c);
        }
    }
}

/// Every field of a flat document that was read can be written again.
pub proof fn lemma_flat_fields_writable(list: Seq<Seq<char>>)
    requires
        flat_fields(list) is Ok,
        forall|i: int| 0 <= i < list.len() ==> !(#[trigger] list[i]).contains('\n'),
    ensures
        forall|k: Seq<char>| #[trigger]
            (flat_fields(list)->Ok_0).dom().contains(k) ==> is_key(k) && plain_value(
                (flat_fields(list)->Ok_0)[k],
            ),
        (flat_fields(list)->Ok_0).dom().finite(),
    decreases list.len(),
{
    if list.len() > 0 {
        let front = list.drop_last();
        assert forall|i: int| 0 <= i < front.len() implies !(#[trigger] front[i]).contains('\n') by {
            assert(front[i] == list[i]);
        }
        lemma_flat_fields_writable(front);
        let line = trim(list.last());
        if !is_ignored_line(line) {
            assert(!list[list.len() - 1].contains('\n'));
            lemma_assignment_writable(list.last(), list.len());
        }
    }
}

} // verus!
