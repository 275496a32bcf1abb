//! Lines of text: cutting a text into lines, putting lines together, and
//! searching for a piece of text.
use crate::text::{index_of, lemma_index_of_is, same_chars, slices};
use vstd::prelude::*;
use vstd::slice::slice_subrange;
use vstd::string::*;

verus! {

/// A line without a carriage return at its end.
pub open spec fn strip_return(s: Seq<char>) -> Seq<char> {
    if s.len() > 0 && s.last() == '\r' {
        s.drop_last()
    } else {
        s
    }
}

/// The lines of a text: each ends at a line feed, before which one carriage
/// return is dropped; the last line may lack its line feed.
pub open spec fn lines(s: Seq<char>) -> Seq<Seq<char>>
    decreases s.len(),
{
    if s.len() == 0 {
        seq![]
    } else {
        let k = index_of(s, '\n');
        if 0 <= k < s.len() {
            seq![strip_return(s.take(k))] + lines(s.skip(k + 1))
        } else {
            seq![s]
        }
    }
}

/// Cuts a text into its lines.
pub fn split_lines<'a>(s: &'a [char]) -> (r: Vec<&'a [char]>)
    ensures
        slices(r@) == lines(s@),
        r@.len() <= s@.len(),
{
    let mut r: Vec<&'a [char]> = Vec::new();
    let mut start: usize = 0;
    assert(s@.skip(0) =~= s@);
    assert(slices(r@) + lines(s@) =~= lines(s@));
    while start < s.len()
        invariant
            start <= s@.len(),
            r@.len() <= start,
            lines(s@) == slices(r@) + lines(s@.skip(start as int)),
        decreases s@.len() - start,
    {
        let ghost rest = s@.skip(start as int);
        let mut end: usize = start;
        while end < s.len() && s[end] != '\n'
            invariant
                start <= end <= s@.len(),
                rest == s@.skip(start as int),
                forall|i: int| 0 <= i < end - start ==> rest[i] != '\n',
            decreases s@.len() - end,
        {
            end += 1;
        }
        proof {
            lemma_index_of_is(rest, '\n', end - start);
        }
        let ghost before = r@;
        if end < s.len() {
            let line = if end > start && s[end - 1] == '\r' {
                slice_subrange(s, start, end - 1)
            } else {
                slice_subrange(s, start, end)
            };
            assert(rest.take(end - start) =~= s@.subrange(start as int, end as int));
            assert(line@ =~= strip_return(rest.take(end - start)));
            r.push(line);
            assert(slices(r@) =~= slices(before) + seq![line@]);
            assert(rest.skip(end - start + 1) =~= s@.skip(end + 1));
            assert(lines(rest) == seq![line@] + lines(s@.skip(end + 1)));
            assert(slices(before) + (seq![line@] + lines(s@.skip(end + 1))) =~= slices(r@) + lines(
                s@.skip(end + 1),
            ));
            start = end + 1;
        } else {
            let line = slice_subrange(s, start, end);
            assert(line@ =~= rest);
            r.push(line);
            assert(slices(r@) =~= slices(before) + seq![line@]);
            assert(lines(rest) == seq![line@]);
            assert(lines(s@.skip(end as int)) =~= seq![]);
            assert(slices(r@) + lines(s@.skip(end as int)) =~= slices(r@));
            start = end;
        }
    }
    assert(lines(s@.skip(start as int)) =~= seq![]);
    assert(slices(r@) + lines(s@.skip(start as int)) =~= slices(r@));
    r
}

/// The text of the given lines, each followed by a line feed.
pub open spec fn unlines(list: Seq<Seq<char>>) -> Seq<char>
    decreases list.len(),
{
    if list.len() == 0 {
        seq![]
    } else {
        unlines(list.drop_last()) + list.last() + seq!['\n']
    }
}

/// Whether a text is one line that reading gives back as it stands.
pub open spec fn is_line(s: Seq<char>) -> bool {
    &&& !s.contains('\n')
    &&& s.len() > 0 ==> s.last() != '\r'
}

/// Text of several parts is the text of the parts, one after the other.
pub proof fn lemma_unlines_concat(a: Seq<Seq<char>>, b: Seq<Seq<char>>)
    ensures
        unlines(a + b) == unlines(a) + unlines(b),
    decreases b.len(),
{
    if b.len() == 0 {
        assert(a + b =~= a);
        assert(unlines(a) + unlines(b) =~= unlines(a));
    } else {
        lemma_unlines_concat(a, b.drop_last());
        assert((a + b).drop_last() =~= a + b.drop_last());
        assert((a + b).last() == b.last());
        assert(unlines(a + b) =~= unlines(a) + unlines(b));
    }
}

/// Reading the lines of a text that was written from lines gives those lines.
pub proof fn lemma_lines_of_unlines(list: Seq<Seq<char>>)
    requires
        forall|i: int| 0 <= i < list.len() ==> is_line(#[trigger] list[i]),
    ensures
        lines(unlines(list)) == list,
    decreases list.len(),
{
    if list.len() > 0 {
        let first = list[0];
        let rest = list.drop_first();
        assert(list =~= seq![first] + rest);
        lemma_unlines_concat(seq![first], rest);
        assert(seq![first].drop_last() =~= seq![]);
        assert(unlines(seq![first].drop_last()) =~= seq![]);
        assert(unlines(seq![first]) =~= first + seq!['\n']);
        let text = unlines(list);
        assert(text =~= first + seq!['\n'] + unlines(rest));
        assert forall|i: int| 0 <= i < rest.len() implies is_line(#[trigger] rest[i]) by {
            assert(rest[i] == list[i + 1]);
        }
        lemma_lines_of_unlines(rest);
        assert forall|i: int| 0 <= i < first.len() implies text[i] != '\n' by {
            assert(text[i] == first[i]);
            assert(is_line(list[0]));
        }
        assert(text[first.len() as int] == '\n');
        lemma_index_of_is(text, '\n', first.len() as int);
        assert(text.take(first.len() as int) =~= first);
        assert(is_line(list[0]));
        assert(strip_return(first) == first);
        assert(text.skip(first.len() as int + 1) =~= unlines(rest));
        assert(seq![first] + rest =~= list);
    } else {
        assert(lines(unlines(list)) =~= list);
    }
}

/// The given texts with a separator between each two of them.
pub open spec fn join(list: Seq<Seq<char>>, separator: Seq<char>) -> Seq<char>
    decreases list.len(),
{
    if list.len() == 0 {
        seq![]
    } else if list.len() == 1 {
        list[0]
    } else {
        join(list.drop_last(), separator) + separator + list.last()
    }
}

/// Puts texts together with a separator between each two.
pub fn join_texts(list: &[String], separator: &str) -> (text: String)
    ensures
        text@ == join(crate::text::texts(list@), separator@),
{
    let mut text = String::new();
    let ghost all = crate::text::texts(list@);
    for i in 0..list.len()
        invariant
            all == crate::text::texts(list@),
            text@ == join(all.take(i as int), separator@),
    {
        let ghost head = all.take(i as int);
        let ghost next = all.take(i + 1);
        assert(next.drop_last() =~= head);
        assert(next.last() == list@[i as int]@);
        if i > 0 {
            text.append(separator);
            text.append(list[i].as_str());
        } else {
            text.append(list[i].as_str());
            assert(text@ =~= list@[0]@);
        }
    }
    assert(all.take(all.len() as int) =~= all);
    text
}

/// The position of the first occurrence of a non-empty piece of text.
pub open spec fn find(s: Seq<char>, piece: Seq<char>) -> Option<int>
    decreases s.len(),
{
    if s.len() < piece.len() {
        None
    } else if s.take(piece.len() as int) == piece {
        Some(0)
    } else if s.len() == 0 {
        None
    } else {
        match find(s.drop_first(), piece) {
            Some(k) => Some(k + 1),
            None => None,
        }
    }
}

/// Whether a text holds a piece of text.
pub open spec fn contains_piece(s: Seq<char>, piece: Seq<char>) -> bool {
    find(s, piece) is Some
}

/// The position found is that of an occurrence, and none stands before it.
pub proof fn lemma_find(s: Seq<char>, piece: Seq<char>)
    ensures
        match find(s, piece) {
            Some(k) => {
                &&& 0 <= k
                &&& k + piece.len() <= s.len()
                &&& s.subrange(k, k + piece.len()) == piece
                &&& forall|j: int|
                    0 <= j < k ==> #[trigger] s.subrange(j, j + piece.len()) != piece
            },
            None => forall|j: int|
                0 <= j && j + piece.len() <= s.len() ==> #[trigger] s.subrange(j, j + piece.len())
                    != piece,
        },
    decreases s.len(),
{
    if s.len() < piece.len() {
    } else if s.take(piece.len() as int) == piece {
        assert(s.subrange(0, piece.len() as int) =~= s.take(piece.len() as int));
    } else if s.len() == 0 {
        assert(s.take(piece.len() as int) =~= piece);
    } else {
        let rest = s.drop_first();
        lemma_find(rest, piece);
        assert forall|j: int| 1 <= j && j + piece.len() <= s.len() implies s.subrange(
            j,
            j + piece.len(),
        ) == #[trigger] rest.subrange(j - 1, j - 1 + piece.len()) by {
            assert(s.subrange(j, j + piece.len()) =~= rest.subrange(j - 1, j - 1 + piece.len()));
        }
        assert(s.subrange(0, piece.len() as int) =~= s.take(piece.len() as int));
        match find(rest, piece) {
            Some(k) => {
                assert(s.subrange(k + 1, k + 1 + piece.len()) =~= rest.subrange(
                    k,
                    k + piece.len(),
                ));
                assert forall|j: int| 0 <= j < k + 1 implies #[trigger] s.subrange(
                    j,
                    j + piece.len(),
                ) != piece by {
                    if j > 0 {
                        assert(rest.subrange(j - 1, j - 1 + piece.len()) != piece);
                    }
                }
            },
            None => {
                assert forall|j: int| 0 <= j && j + piece.len() <= s.len() implies #[trigger] s.subrange(
                j, j + piece.len()) != piece by {
                    if j > 0 {
                        assert(rest.subrange(j - 1, j - 1 + piece.len()) != piece);
                    }
                }
            },
        }
    }
}

/// Finds the first occurrence of a piece of text at or after `from`.
pub fn find_piece(s: &[char], from: usize, piece: &[char]) -> (r: Option<usize>)
    requires
        from <= s@.len(),
        piece@.len() > 0,
    ensures
        match r {
            Some(k) => from <= k && k + piece@.len() <= s@.len() && find(
                s@.skip(from as int),
                piece@,
            ) == Some(k - from),
            None => find(s@.skip(from as int), piece@) is None,
        },
{
    let mut k: usize = from;
    let ghost whole = s@.skip(from as int);
    while piece.len() <= s.len() - k
        invariant
            from <= k <= s@.len(),
            piece@.len() > 0,
            whole == s@.skip(from as int),
            match find(s@.skip(k as int), piece@) {
                Some(j) => find(whole, piece@) == Some(j + k - from),
                None => find(whole, piece@) is None,
            },
        decreases s@.len() - k,
    {
        let window = slice_subrange(s, k, k + piece.len());
        assert(s@.skip(k as int).take(piece@.len() as int) =~= window@);
        if same_chars(window, piece) {
            return Some(k);
        }
        assert(s@.skip(k as int).drop_first() =~= s@.skip(k + 1));
        k += 1;
    }
    None
}

/// Whether a text holds a piece of text.
pub fn has_piece(s: &[char], piece: &[char]) -> (r: bool)
    requires
        piece@.len() > 0,
    ensures
        r == contains_piece(s@, piece@),
{
    assert(s@.skip(0) =~= s@);
    find_piece(s, 0, piece).is_some()
}

/// Whether a text begins with another.
pub open spec fn starts_with(s: Seq<char>, prefix: Seq<char>) -> bool {
    prefix.len() <= s.len() && s.take(prefix.len() as int) == prefix
}

/// Tests whether a text begins with another.
pub fn has_prefix(s: &[char], prefix: &[char]) -> (r: bool)
    ensures
        r == starts_with(s@, prefix@),
{
    if prefix.len() > s.len() {
        false
    } else {
        let window = slice_subrange(s, 0, prefix.len());
        assert(window@ =~= s@.take(prefix@.len() as int));
        same_chars(window, prefix)
    }
}

/// Whether a text ends with another.
pub open spec fn ends_with(s: Seq<char>, suffix: Seq<char>) -> bool {
    suffix.len() <= s.len() && s.skip(s.len() - suffix.len()) == suffix
}

/// Tests whether a text ends with another.
pub fn has_suffix(s: &[char], suffix: &[char]) -> (r: bool)
    ensures
        r == ends_with(s@, suffix@),
{
    if suffix.len() > s.len() {
        false
    } else {
        let window = slice_subrange(s, s.len() - suffix.len(), s.len());
        assert(window@ =~= s@.skip(s@.len() - suffix@.len()));
        same_chars(window, suffix)
    }
}

/// A text under construction, line by line.
pub struct LineWriter {
    pub text: String,
    pub written: Ghost<Seq<Seq<char>>>,
}

impl LineWriter {
    /// Whether the text is that of the lines written so far.
    pub open spec fn wf(self) -> bool {
        self.text@ == unlines(self.written@)
    }

    pub fn new() -> (w: LineWriter)
        ensures
            w.wf(),
            w.written@ == Seq::<Seq<char>>::empty(),
    {
        LineWriter { text: String::new(), written: Ghost(Seq::empty()) }
    }

    /// Writes one line.
    pub fn line(&mut self, line: &str)
        requires
            old(self).wf(),
        ensures
            final(self).wf(),
            final(self).written@ == old(self).written@.push(line@),
    {
        self.text.append(line);
        self.text.push('\n');
        proof {
            let next = self.written@.push(line@);
            assert(next.drop_last() =~= self.written@);
            assert(unlines(next) =~= self.text@);
            self.written@ = next;
        }
    }

    /// Writes the line that assigns a value to a key.
    pub fn field(&mut self, key: &str, value: &str)
        requires
            old(self).wf(),
        ensures
            final(self).wf(),
            final(self).written@ == old(self).written@.push(field_line(key@, value@)),
    {
        let mut line = String::new();
        line.append(key);
        line.append(" = ");
        line.append(value);
        assert(line@ =~= field_line(key@, value@));
        self.line(line.as_str());
    }
}

/// The line that assigns a value to a key.
pub open spec fn field_line(key: Seq<char>, value: Seq<char>) -> Seq<char> {
    key + " = "@ + value
}

} // verus!
