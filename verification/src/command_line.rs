//! Commands that are typed in one line, their parts set off by bars.
use crate::message::concat3;
use crate::text::{
    chars_of, is_blank, slices, split_all, split_every, string_of, texts, trim, trim_chars,
};
use vstd::prelude::*;

verus! {

/// The parts of a command.
pub open spec fn command_parts(command: Seq<char>) -> Seq<Seq<char>> {
    split_all(command, '|').map_values(|p: Seq<char>| trim(p))
}

/// Splits a command into its parts.
pub fn split_command(command: &str) -> (r: Vec<String>)
    ensures
        texts(r@) == command_parts(command@),
        r@.len() > 0,
{
    let chars = chars_of(command);
    let pieces = split_every(chars.as_slice(), '|');
    let ghost all = slices(pieces@);
    let mut r: Vec<String> = Vec::new();
    for i in 0..pieces.len()
        invariant
            all == slices(pieces@),
            r@.len() == i,
            forall|k: int| 0 <= k < i ==> (#[trigger] r@[k])@ == trim(all[k]),
    {
        assert(all[i as int] == pieces@[i as int]@);
        r.push(string_of(trim_chars(pieces[i])));
    }
    proof {
        assert(texts(r@) =~= command_parts(command@));
        assert(split_all(command@, '|').len() > 0);
    }
    r
}

/// A part of a command that has to be there.
pub open spec fn part(parts: Seq<Seq<char>>, index: int, name: Seq<char>) -> Result<
    Seq<char>,
    Seq<char>,
> {
    if 0 <= index < parts.len() && parts[index].len() > 0 {
        Ok(parts[index])
    } else {
        Err(parts[0] + " is missing "@ + name)
    }
}

/// Finds a part of a command that has to be there.
pub fn find_part<'a>(parts: &'a [String], index: usize, name: &str) -> (r: Result<&'a str, String>)
    requires
        parts@.len() > 0,
    ensures
        match r {
            Ok(t) => part(texts(parts@), index as int, name@) == Ok::<Seq<char>, Seq<char>>(t@),
            Err(e) => part(texts(parts@), index as int, name@) == Err::<Seq<char>, Seq<char>>(e@),
        },
{
    let ghost all = texts(parts@);
    assert(all[0] == parts@[0]@);
    if index < parts.len() {
        assert(all[index as int] == parts@[index as int]@);
        let text = parts[index].as_str();
        if text.unicode_len() > 0 {
            return Ok(text);
        }
    }
    Err(concat3(parts[0].as_str(), " is missing ", name))
}

/// The pieces of a list that are not blank, without the space around them.
pub open spec fn filled(pieces: Seq<Seq<char>>) -> Seq<Seq<char>>
    decreases pieces.len(),
{
    if pieces.len() == 0 {
        seq![]
    } else {
        let front = filled(pieces.drop_last());
        if is_blank(pieces.last()) {
            front
        } else {
            front.push(trim(pieces.last()))
        }
    }
}

/// The items of a text, which are set off by a character.
pub open spec fn items_in(text: Seq<char>, separator: char) -> Seq<Seq<char>> {
    filled(split_all(text, separator))
}

/// Finds the items of a text.
pub fn find_items(text: &str, separator: char) -> (r: Vec<String>)
    ensures
        texts(r@) == items_in(text@, separator),
{
    let chars = chars_of(text);
    let pieces = split_every(chars.as_slice(), separator);
    let ghost all = slices(pieces@);
    let mut r: Vec<String> = Vec::new();
    assert(all.take(0) =~= seq![]);
    assert(texts(r@) =~= seq![]);
    for i in 0..pieces.len()
        invariant
            all == slices(pieces@),
            texts(r@) == filled(all.take(i as int)),
    {
        let ghost before = texts(r@);
        proof {
            assert(all.take(i + 1).drop_last() =~= all.take(i as int));
            assert(all.take(i + 1).last() == pieces@[i as int]@);
        }
        let item = trim_chars(pieces[i]);
        if item.len() > 0 {
            r.push(string_of(item));
            assert(texts(r@) =~= before.push(item@));
        }
    }
    assert(all.take(pieces@.len() as int) =~= all);
    r
}

/// The names of a path: what stands between slashes.
pub open spec fn segments(text: Seq<char>) -> Seq<Seq<char>> {
    items_in(text, '/')
}

/// Finds the names of a path.
pub fn workspace_segments(value: &str) -> (r: Vec<String>)
    ensures
        texts(r@) == segments(value@),
{
    find_items(value, '/')
}

} // verus!
