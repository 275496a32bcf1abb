//! Names that are made up: identifiers of copies, names of temporary files, and texts that
//! look random.
use crate::domain::{is_slug, is_slug_char, StableId};
use crate::files::{entry_path, parent_of, parent_place, path_in};
use crate::lines::{join, join_texts};
use crate::message::{concat3, concat5};
use crate::number::{decimal, hex, hex_digit, push_hex, wide_decimal_text};
use crate::text::{chars_of, is_ascii_alphanumeric, slices, split_all, split_every, string_of, texts};
use vstd::prelude::*;
use vstd::slice::slice_subrange;
use vstd::string::*;

verus! {

/// The hexadecimal digits of a number, without leading zeros.
pub open spec fn plain_hex(n: nat) -> Seq<char>
    decreases n,
{
    if n < 16 {
        seq![hex_digit(n as int)]
    } else {
        plain_hex(n / 16).push(hex_digit((n % 16) as int))
    }
}

fn hex_char(d: u8) -> (c: char)
    requires
        d < 16,
    ensures
        c == hex_digit(d as int),
{
    if d < 10 {
        (48 + d) as char
    } else {
        (87 + d) as char
    }
}

/// Appends the hexadecimal digits of a number, without leading zeros.
pub fn push_plain_hex(out: &mut String, n: u128)
    ensures
        final(out)@ == old(out)@ + plain_hex(n as nat),
    decreases n,
{
    let ghost start = out@;
    let d: u8 = (n % 16) as u8;
    if n >= 16 {
        push_plain_hex(out, n / 16);
    }
    out.push(hex_char(d));
    assert(out@ =~= start + plain_hex(n as nat));
}

/// Where identifiers of copies come from: the time, and a count.
#[derive(Clone, Copy, Debug, PartialEq, Eq, Structural)]
pub struct IdSource {
    pub timestamp: u128,
    pub sequence: u64,
}

/// The identifier that comes next.
pub open spec fn generated_text(prefix: Seq<char>, source: IdSource) -> Seq<char> {
    prefix + "-"@ + plain_hex(source.timestamp as nat) + "-"@ + plain_hex(source.sequence as nat)
}

/// The source once an identifier was taken.
pub open spec fn next_source(source: IdSource) -> IdSource {
    IdSource {
        timestamp: source.timestamp,
        sequence: if source.sequence == u64::MAX {
            0
        } else {
            (source.sequence + 1) as u64
        },
    }
}

proof fn lemma_hex_digit(d: int)
    requires
        0 <= d < 16,
    ensures
        is_slug_char(hex_digit(d)),
        is_ascii_alphanumeric(hex_digit(d)),
{
}

/// Hexadecimal digits can stand in an identifier.
pub proof fn lemma_plain_hex(n: nat)
    ensures
        plain_hex(n).len() > 0,
        forall|i: int| 0 <= i < plain_hex(n).len() ==> is_slug_char(#[trigger] plain_hex(n)[i]),
    decreases n,
{
    lemma_hex_digit((n % 16) as int);
    if n >= 16 {
        lemma_plain_hex(n / 16);
    }
}

/// A made-up identifier is one that can be read.
pub proof fn law_generated_ids_are_valid(prefix: Seq<char>, source: IdSource)
    requires
        is_slug(prefix),
    ensures
        is_slug(generated_text(prefix, source)),
{
    reveal_strlit("-");
    lemma_plain_hex(source.timestamp as nat);
    lemma_plain_hex(source.sequence as nat);
    let a = plain_hex(source.timestamp as nat);
    let b = plain_hex(source.sequence as nat);
    let t = generated_text(prefix, source);
    assert(t.len() == prefix.len() + 1 + a.len() + 1 + b.len());
    assert forall|i: int| 0 <= i < t.len() implies is_slug_char(#[trigger] t[i]) by {
        let p = prefix.len();
        if i < p {
            assert(t[i] == prefix[i]);
        } else if i == p {
            assert(t[i] == '-');
        } else if i < p + 1 + a.len() {
            assert(t[i] == a[i - p - 1]);
        } else if i == p + 1 + a.len() {
            assert(t[i] == '-');
        } else {
            assert(t[i] == b[i - p - 2 - a.len()]);
        }
    }
}

proof fn lemma_plain_hex_tells_apart(a: nat, b: nat)
    requires
        plain_hex(a) == plain_hex(b),
    ensures
        a == b,
    decreases a,
{
    let s = plain_hex(a);
    let t = plain_hex(b);
    lemma_plain_hex(a / 16);
    lemma_plain_hex(b / 16);
    assert(s.last() == hex_digit((a % 16) as int));
    assert(t.last() == hex_digit((b % 16) as int));
    assert(a % 16 == b % 16);
    if a >= 16 && b >= 16 {
        assert(s.drop_last() =~= plain_hex(a / 16));
        assert(t.drop_last() =~= plain_hex(b / 16));
        lemma_plain_hex_tells_apart(a / 16, b / 16);
    } else {
        assert(s.len() == t.len());
    }
}

/// Identifiers that are made up one after the other for the same kind of thing differ.
pub proof fn law_generated_ids_differ(prefix: Seq<char>, a: IdSource, b: IdSource)
    requires
        a.timestamp == b.timestamp,
        a.sequence != b.sequence,
    ensures
        generated_text(prefix, a) != generated_text(prefix, b),
{
    let front = prefix + "-"@ + plain_hex(a.timestamp as nat) + "-"@;
    let s = generated_text(prefix, a);
    let t = generated_text(prefix, b);
    if s == t {
        assert(s.skip(front.len() as int) =~= plain_hex(a.sequence as nat));
        assert(t.skip(front.len() as int) =~= plain_hex(b.sequence as nat));
        lemma_plain_hex_tells_apart(a.sequence as nat, b.sequence as nat);
    }
}

impl IdSource {
    /// Takes the next identifier.
    pub fn generated_id(&mut self, prefix: &str) -> (r: StableId)
        requires
            is_slug(prefix@),
        ensures
            r@ == generated_text(prefix@, *old(self)),
            *final(self) == next_source(*old(self)),
    {
        let mut time = String::new();
        push_plain_hex(&mut time, self.timestamp);
        let mut count = String::new();
        push_plain_hex(&mut count, self.sequence as u128);
        let text = concat5(prefix, "-", time.as_str(), "-", count.as_str());
        proof {
            assert(time@ =~= plain_hex(self.timestamp as nat));
            assert(count@ =~= plain_hex(self.sequence as nat));
            law_generated_ids_are_valid(prefix@, *self);
        }
        self.sequence = self.sequence.wrapping_add(1);
        StableId { text }
    }
}

/// A letter in upper case, if it is one of ASCII.
pub open spec fn ascii_upper(c: char) -> char {
    if 'a' <= c <= 'z' {
        (c as int - 32) as char
    } else {
        c
    }
}

fn to_upper(c: char) -> (r: char)
    ensures
        r == ascii_upper(c),
{
    let n: u32 = c as u32;
    if 97 <= n && n <= 122 {
        let m: u8 = (n - 32) as u8;
        m as char
    } else {
        c
    }
}

/// A word with its first letter in upper case.
pub open spec fn capitalized(word: Seq<char>) -> Seq<char> {
    if word.len() == 0 {
        word
    } else {
        seq![ascii_upper(word[0])] + word.drop_first()
    }
}

/// The words of a slug, which stand between hyphens and underscores.
pub open spec fn slug_words(slug: Seq<char>) -> Seq<Seq<char>> {
    split_all(
        slug.map_values(
            |c: char|
                if c == '_' {
                    '-'
                } else {
                    c
                },
        ),
        '-',
    )
}

/// The words that are not empty, each with its first letter in upper case.
pub open spec fn shown_words(words: Seq<Seq<char>>) -> Seq<Seq<char>>
    decreases words.len(),
{
    if words.len() == 0 {
        seq![]
    } else if words.last().len() == 0 {
        shown_words(words.drop_last())
    } else {
        shown_words(words.drop_last()).push(capitalized(words.last()))
    }
}

/// A slug as a person would write it.
pub open spec fn humanized(slug: Seq<char>) -> Seq<char> {
    join(shown_words(slug_words(slug)), " "@)
}

/// Writes a slug as a person would.
pub fn humanize_slug(slug: &str) -> (r: String)
    requires
        is_slug(slug@),
    ensures
        r@ == humanized(slug@),
{
    let given = chars_of(slug);
    let mut chars: Vec<char> = Vec::new();
    for i in 0..given.len()
        invariant
            given@ == slug@,
            chars@.len() == i,
            forall|k: int|
                0 <= k < i ==> chars@[k] == (if slug@[k] == '_' {
                    '-'
                } else {
                    slug@[k]
                }),
    {
        if given[i] == '_' {
            chars.push('-');
        } else {
            chars.push(given[i]);
        }
    }
    proof {
        assert(chars@ =~= slug@.map_values(
            |c: char|
                if c == '_' {
                    '-'
                } else {
                    c
                },
        ));
    }
    let words = split_every(chars.as_slice(), '-');
    let ghost all = slices(words@);
    let mut shown: Vec<String> = Vec::new();
    assert(all.take(0) =~= seq![]);
    assert(texts(shown@) =~= seq![]);
    for i in 0..words.len()
        invariant
            all == slices(words@),
            texts(shown@) == shown_words(all.take(i as int)),
    {
        let word = words[i];
        proof {
            assert(all.take(i + 1).drop_last() =~= all.take(i as int));
            assert(all.take(i + 1).last() == word@);
        }
        if word.len() > 0 {
            let mut text = String::new();
            text.push(to_upper(word[0]));
            let rest = string_of(slice_subrange(word, 1, word.len()));
            text.append(rest.as_str());
            assert(rest@ =~= word@.drop_first());
            assert(text@ =~= capitalized(word@));
            let ghost before = shown@;
            shown.push(text);
            assert(texts(shown@) =~= texts(before).push(capitalized(word@)));
        }
    }
    assert(all.take(all.len() as int) =~= all);
    join_texts(shown.as_slice(), " ")
}

/// The last name of a place.
pub open spec fn place_name(place: Seq<char>) -> Seq<char> {
    let parent = parent_place(place);
    if parent.len() == 0 && !(place.len() > 0 && place[0] == '/') {
        place
    } else {
        place.skip(parent.len() as int + 1)
    }
}

/// Finds the last name of a place.
pub fn name_of_place(place: &str) -> (r: String)
    ensures
        r@ == place_name(place@),
{
    let parent = chars_of(parent_of(place).as_str());
    let chars = chars_of(place);
    proof {
        crate::files::lemma_parent_is_shorter(place@);
    }
    if parent.len() == 0 && !(chars.len() > 0 && chars[0] == '/') {
        return place.to_owned();
    }
    let total: usize = chars.len();
    let skipped: usize = parent.len();
    let name = slice_subrange(chars.as_slice(), skipped + 1, total);
    assert(name@ =~= place@.skip(skipped as int + 1));
    string_of(name)
}

/// A place beside another, for something that is not there for long.
pub open spec fn temporary_place(place: Seq<char>, operation: Seq<char>, nonce: u128) -> Seq<char> {
    entry_path(
        parent_place(place),
        "."@ + place_name(place) + "."@ + operation + "."@ + decimal(nonce as nat) + ".tmp"@,
    )
}

/// Finds a place beside another, for something that is not there for long.
pub fn temporary_sibling(place: &str, operation: &str, nonce: u128) -> (r: String)
    ensures
        r@ == temporary_place(place@, operation@, nonce),
{
    let name = name_of_place(place);
    let head = concat5(".", name.as_str(), ".", operation, ".");
    let whole = concat3(head.as_str(), wide_decimal_text(nonce).as_str(), ".tmp");
    path_in(parent_of(place).as_str(), whole.as_str())
}

/// Sixteen bytes as those of a random identifier: the version and the variant are set.
pub open spec fn uuid_bytes(bytes: Seq<u8>) -> Seq<u8> {
    bytes.update(6, (bytes[6] & 0x0f) | 0x40).update(8, (bytes[8] & 0x3f) | 0x80)
}

/// Two hexadecimal digits for each of some bytes.
pub open spec fn hex_pairs(bytes: Seq<u8>) -> Seq<char>
    decreases bytes.len(),
{
    if bytes.len() == 0 {
        seq![]
    } else {
        hex_pairs(bytes.drop_last()) + hex(bytes.last() as int, 2)
    }
}

/// The text of a random identifier: groups of digits with hyphens between them.
pub open spec fn uuid_text(bytes: Seq<u8>) -> Seq<char> {
    let b = uuid_bytes(bytes);
    hex_pairs(b.subrange(0, 4)) + "-"@ + hex_pairs(b.subrange(4, 6)) + "-"@ + hex_pairs(
        b.subrange(6, 8),
    ) + "-"@ + hex_pairs(b.subrange(8, 10)) + "-"@ + hex_pairs(b.subrange(10, 16))
}

fn hex_group(bytes: &[u8], from: usize, to: usize) -> (r: String)
    requires
        from <= to <= bytes@.len(),
    ensures
        r@ == hex_pairs(bytes@.subrange(from as int, to as int)),
{
    let mut r = String::new();
    let ghost all = bytes@.subrange(from as int, to as int);
    assert(all.take(0) =~= seq![]);
    assert(r@ =~= seq![]);
    for i in from..to
        invariant
            from <= to <= bytes@.len(),
            all == bytes@.subrange(from as int, to as int),
            r@ == hex_pairs(all.take(i - from)),
    {
        proof {
            let next = all.take(i - from + 1);
            assert(next.drop_last() =~= all.take(i - from));
            assert(next.last() == bytes@[i as int]);
        }
        push_hex(&mut r, bytes[i] as u64, 2);
    }
    assert(all.take(to - from) =~= all);
    r
}

/// Writes sixteen bytes as a random identifier.
pub fn format_uuid(bytes: &[u8]) -> (r: String)
    requires
        bytes@.len() == 16,
    ensures
        r@ == uuid_text(bytes@),
{
    let mut b = crate::files::copy_bytes(bytes);
    b.set(6, (bytes[6] & 0x0f) | 0x40);
    b.set(8, (bytes[8] & 0x3f) | 0x80);
    assert(b@ =~= uuid_bytes(bytes@));
    let s = b.as_slice();
    let first = concat5(
        hex_group(s, 0, 4).as_str(),
        "-",
        hex_group(s, 4, 6).as_str(),
        "-",
        hex_group(s, 6, 8).as_str(),
    );
    concat5(
        first.as_str(),
        "-",
        hex_group(s, 8, 10).as_str(),
        "-",
        hex_group(s, 10, 16).as_str(),
    )
}

proof fn lemma_hex_pair(n: int)
    ensures
        hex(n, 2).len() == 2,
        hex(n, 2)[0] == hex_digit((n / 16) % 16),
{
    reveal_with_fuel(hex, 3);
}

proof fn lemma_hex_pairs(bytes: Seq<u8>)
    ensures
        hex_pairs(bytes).len() == 2 * bytes.len(),
        bytes.len() > 0 ==> hex_pairs(bytes)[0] == hex_digit((bytes[0] as int / 16) % 16),
    decreases bytes.len(),
{
    if bytes.len() > 0 {
        let front = bytes.drop_last();
        lemma_hex_pairs(front);
        lemma_hex_pair(bytes.last() as int);
    }
}

/// The text of a random identifier has thirty-six characters, and the hyphens stand where
/// they belong; the digit of the version is a four, and that of the variant is one of `8`,
/// `9`, `a` and `b`.
pub proof fn law_uuid_has_its_shape(bytes: Seq<u8>)
    requires
        bytes.len() == 16,
    ensures
        uuid_text(bytes).len() == 36,
        uuid_text(bytes)[8] == '-',
        uuid_text(bytes)[13] == '-',
        uuid_text(bytes)[14] == '4',
        uuid_text(bytes)[18] == '-',
        uuid_text(bytes)[19] == '8' || uuid_text(bytes)[19] == '9' || uuid_text(bytes)[19] == 'a'
            || uuid_text(bytes)[19] == 'b',
        uuid_text(bytes)[23] == '-',
{
    reveal_strlit("-");
    let b = uuid_bytes(bytes);
    lemma_hex_pairs(b.subrange(0, 4));
    lemma_hex_pairs(b.subrange(4, 6));
    lemma_hex_pairs(b.subrange(6, 8));
    lemma_hex_pairs(b.subrange(8, 10));
    lemma_hex_pairs(b.subrange(10, 16));
    let x = bytes[6];
    let y = bytes[8];
    let v = (x & 0x0f) | 0x40;
    let w = (y & 0x3f) | 0x80;
    assert(v / 16 == 4u8) by (bit_vector)
        requires
            v == (x & 0x0f) | 0x40,
    ;
    assert(8u8 <= w / 16 && w / 16 <= 11u8) by (bit_vector)
        requires
            w == (y & 0x3f) | 0x80,
    ;
    let third = hex_pairs(b.subrange(6, 8));
    let fourth = hex_pairs(b.subrange(8, 10));
    assert(third[0] == hex_digit((v as int / 16) % 16));
    assert(fourth[0] == hex_digit((w as int / 16) % 16));
    assert(third[0] == '4');
    let t = uuid_text(bytes);
    assert(t[14] == third[0]);
    assert(t[19] == fourth[0]);
}

} // verus!
