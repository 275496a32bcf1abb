//! How the windows of the application are set up.
use crate::document::{bool_text, show_bool};
use crate::editor_fields::{lemma_lines_of_join, lemma_split_at, said};
use crate::editor_settings::{lemma_truth, pair_line, read_truth, truth};
use crate::lines::{is_line, join, join_texts, lines, split_lines};
use crate::message::concat3;
use crate::number::{
    decimal, decimal_text, is_digit, lemma_decimal, lemma_parse_decimal, parse_unsigned,
    read_unsigned,
};
use crate::text::{
    chars_of, lemma_trim, same_text, slices, split_at_char, split_once, string_of, texts, trim,
    trim_chars, trimmed,
};
use vstd::prelude::*;

verus! {

/// How many tabs are shown where nothing else is said.
pub const DEFAULT_MAXIMUM_VISIBLE_REQUEST_TABS: usize = 6;

/// How many tabs are shown at most.
pub const MAXIMUM_VISIBLE_REQUEST_TABS: usize = 20;

/// What the user prefers.
#[derive(Clone, Copy, Debug, PartialEq, Eq, Structural)]
pub struct UiPreferences {
    pub maximum_visible_tabs: usize,
    pub reduced_motion: bool,
    pub high_contrast: bool,
}

/// What is preferred where nothing is said.
pub open spec fn default_preferences() -> UiPreferences {
    UiPreferences {
        maximum_visible_tabs: DEFAULT_MAXIMUM_VISIBLE_REQUEST_TABS,
        reduced_motion: false,
        high_contrast: false,
    }
}

impl Default for UiPreferences {
    fn default() -> (r: UiPreferences)
        ensures
            r == default_preferences(),
    {
        UiPreferences {
            maximum_visible_tabs: DEFAULT_MAXIMUM_VISIBLE_REQUEST_TABS,
            reduced_motion: false,
            high_contrast: false,
        }
    }
}

/// A number of tabs within what can be shown.
pub open spec fn shown_tabs(n: int) -> int {
    if n < 1 {
        1
    } else if n > MAXIMUM_VISIBLE_REQUEST_TABS {
        MAXIMUM_VISIBLE_REQUEST_TABS as int
    } else {
        n
    }
}

fn clamp_tabs(n: usize) -> (r: usize)
    ensures
        r as int == shown_tabs(n as int),
{
    if n < 1 {
        1
    } else if n > MAXIMUM_VISIBLE_REQUEST_TABS {
        MAXIMUM_VISIBLE_REQUEST_TABS
    } else {
        n
    }
}

/// What is preferred after one more setting.
pub open spec fn with_setting(p: UiPreferences, key: Seq<char>, value: Seq<char>) -> Result<
    UiPreferences,
    Seq<char>,
> {
    if key == "maximum_visible_tabs"@ {
        match parse_unsigned(value, usize::MAX as int) {
            Some(n) => Ok(UiPreferences { maximum_visible_tabs: shown_tabs(n) as usize, ..p }),
            None => Err("maximum_visible_tabs must be an integer"@),
        }
    } else if key == "reduced_motion"@ {
        match truth(value) {
            Some(b) => Ok(UiPreferences { reduced_motion: b, ..p }),
            None => Err("reduced_motion must be true or false"@),
        }
    } else if key == "high_contrast"@ {
        match truth(value) {
            Some(b) => Ok(UiPreferences { high_contrast: b, ..p }),
            None => Err("high_contrast must be true or false"@),
        }
    } else {
        Err("unknown UI preference '"@ + key + "'"@)
    }
}

/// What lines say is preferred.
pub open spec fn preferences_in(list: Seq<Seq<char>>) -> Result<UiPreferences, Seq<char>>
    decreases list.len(),
{
    if list.len() == 0 {
        Ok(default_preferences())
    } else {
        match preferences_in(list.drop_last()) {
            Err(e) => Err(e),
            Ok(p) => {
                let line = trim(list.last());
                if line.len() == 0 {
                    Ok(p)
                } else {
                    match split_once(line, '=') {
                        None => Err(
                            "preference line "@ + decimal(list.len()) + " must use key=value"@,
                        ),
                        Some((key, value)) => with_setting(p, trim(key), trim(value)),
                    }
                }
            },
        }
    }
}

/// What a text says is preferred.
pub open spec fn preferences_of(text: Seq<char>) -> Result<UiPreferences, Seq<char>> {
    preferences_in(lines(text))
}

/// The lines of what is preferred.
pub open spec fn preference_lines(p: UiPreferences) -> Seq<Seq<char>> {
    seq![
        pair_line(("maximum_visible_tabs"@, decimal(p.maximum_visible_tabs as nat))),
        pair_line(("reduced_motion"@, bool_text(p.reduced_motion))),
        pair_line(("high_contrast"@, bool_text(p.high_contrast))),
    ]
}

/// The text of what is preferred.
pub open spec fn preferences_text(p: UiPreferences) -> Seq<char> {
    join(preference_lines(p), "\n"@)
}

proof fn lemma_preferences_error(list: Seq<Seq<char>>, k: int)
    requires
        0 <= k <= list.len(),
        preferences_in(list.take(k)) is Err,
    ensures
        preferences_in(list) == preferences_in(list.take(k)),
    decreases list.len() - k,
{
    if k < list.len() {
        assert(list.take(k + 1).drop_last() =~= list.take(k));
        lemma_preferences_error(list, k + 1);
    } else {
        assert(list.take(k) =~= list);
    }
}

impl UiPreferences {
    fn with(self, key: &str, value: &[char]) -> (r: Result<UiPreferences, String>)
        ensures
            said(r) == with_setting(self, key@, value@),
    {
        if same_text(key, "maximum_visible_tabs") {
            match read_unsigned(value, usize::MAX as u64) {
                Some(n) => Ok(
                    UiPreferences { maximum_visible_tabs: clamp_tabs(n as usize), ..self },
                ),
                None => Err("maximum_visible_tabs must be an integer".to_owned()),
            }
        } else if same_text(key, "reduced_motion") {
            match read_truth(string_of(value).as_str()) {
                Some(b) => Ok(UiPreferences { reduced_motion: b, ..self }),
                None => Err("reduced_motion must be true or false".to_owned()),
            }
        } else if same_text(key, "high_contrast") {
            match read_truth(string_of(value).as_str()) {
                Some(b) => Ok(UiPreferences { high_contrast: b, ..self }),
                None => Err("high_contrast must be true or false".to_owned()),
            }
        } else {
            Err(concat3("unknown UI preference '", key, "'"))
        }
    }

    /// Reads what is preferred from text.
    pub fn parse(value: &str) -> (r: Result<UiPreferences, String>)
        ensures
            said(r) == preferences_of(value@),
    {
        let chars = chars_of(value);
        let list = split_lines(chars.as_slice());
        let ghost all = slices(list@);
        let mut preferences = UiPreferences {
            maximum_visible_tabs: DEFAULT_MAXIMUM_VISIBLE_REQUEST_TABS,
            reduced_motion: false,
            high_contrast: false,
        };
        assert(all.take(0) =~= seq![]);
        for i in 0..list.len()
            invariant
                all == slices(list@),
                all == lines(value@),
                list@.len() <= chars@.len(),
                preferences_in(all.take(i as int)) == Ok::<UiPreferences, Seq<char>>(preferences),
        {
            proof {
                assert(all.take(i + 1).drop_last() =~= all.take(i as int));
                assert(all.take(i + 1).last() == list@[i as int]@);
            }
            let line = trim_chars(list[i]);
            if line.len() > 0 {
                let number: usize = i + 1;
                match split_at_char(line, '=') {
                    None => {
                        proof {
                            lemma_preferences_error(all, i + 1);
                        }
                        return Err(
                            concat3(
                                "preference line ",
                                decimal_text(number as u64).as_str(),
                                " must use key=value",
                            ),
                        );
                    },
                    Some((key, held)) => {
                        let name = string_of(trim_chars(key));
                        match preferences.with(name.as_str(), trim_chars(held)) {
                            Ok(p) => {
                                preferences = p;
                            },
                            Err(e) => {
                                proof {
                                    lemma_preferences_error(all, i + 1);
                                }
                                return Err(e);
                            },
                        }
                    },
                }
            }
        }
        assert(all.take(list@.len() as int) =~= all);
        Ok(preferences)
    }

    /// Writes what is preferred as text.
    pub fn format(&self) -> (r: String)
        ensures
            r@ == preferences_text(*self),
    {
        let mut list: Vec<String> = Vec::new();
        list.push(
            concat3(
                "maximum_visible_tabs",
                "=",
                decimal_text(self.maximum_visible_tabs as u64).as_str(),
            ),
        );
        list.push(concat3("reduced_motion", "=", show_bool(self.reduced_motion)));
        list.push(concat3("high_contrast", "=", show_bool(self.high_contrast)));
        proof {
            reveal_strlit("=");
            assert("="@ =~= seq!['=']);
            assert(texts(list@) =~= preference_lines(*self));
        }
        join_texts(list.as_slice(), "\n")
    }
}

proof fn lemma_preference_line(p: UiPreferences, list: Seq<Seq<char>>, key: Seq<char>, value: Seq<char>)
    requires
        list.len() > 0,
        list.last() == pair_line((key, value)),
        preferences_in(list.drop_last()) == Ok::<UiPreferences, Seq<char>>(p),
        key.len() > 0,
        trimmed(key),
        !key.contains('='),
        value.len() > 0,
        trimmed(value),
    ensures
        preferences_in(list) == with_setting(p, key, value),
{
    let line = list.last();
    assert(line[0] == key[0]);
    assert(line.last() == value.last());
    lemma_trim(line);
    lemma_trim(key);
    lemma_trim(value);
    lemma_split_at(key, '=', value);
}

proof fn lemma_preference_keys()
    ensures
        trimmed("maximum_visible_tabs"@),
        !"maximum_visible_tabs"@.contains('='),
        !"maximum_visible_tabs"@.contains('\n'),
        "maximum_visible_tabs"@.len() == 20,
        trimmed("reduced_motion"@),
        !"reduced_motion"@.contains('='),
        !"reduced_motion"@.contains('\n'),
        "reduced_motion"@.len() == 14,
        trimmed("high_contrast"@),
        !"high_contrast"@.contains('='),
        !"high_contrast"@.contains('\n'),
        "high_contrast"@.len() == 13,
{
    reveal_strlit("maximum_visible_tabs");
    reveal_strlit("reduced_motion");
    reveal_strlit("high_contrast");
    assert("maximum_visible_tabs"@.len() == 20 && "reduced_motion"@.len() == 14);
    assert("high_contrast"@.len() == 13);
}

proof fn lemma_short_line(key: Seq<char>, value: Seq<char>)
    requires
        !key.contains('\n'),
        is_line(value),
        value.len() > 0,
    ensures
        is_line(pair_line((key, value))),
{
    let line = pair_line((key, value));
    if line.contains('\n') {
        let i = choose|i: int| 0 <= i < line.len() && line[i] == '\n';
        if i < key.len() {
            assert(key.contains(key[i]));
        } else if i > key.len() {
            assert(value.contains(value[i - key.len() - 1]));
        }
    }
    assert(line.last() == value.last());
}

/// What is preferred is the same when it is written as text and read again, so long as the
/// number of tabs can be shown.
pub proof fn law_preferences_round_trip(p: UiPreferences)
    requires
        1 <= p.maximum_visible_tabs <= MAXIMUM_VISIBLE_REQUEST_TABS,
    ensures
        preferences_of(preferences_text(p)) == Ok::<UiPreferences, Seq<char>>(p),
{
    let list = preference_lines(p);
    let n = decimal(p.maximum_visible_tabs as nat);
    lemma_preference_keys();
    lemma_decimal(p.maximum_visible_tabs as nat);
    lemma_parse_decimal(p.maximum_visible_tabs as nat, usize::MAX as int);
    assert(is_digit(n[0]) && is_digit(n[n.len() - 1]));
    if n.contains('\n') {
        let i = choose|i: int| 0 <= i < n.len() && n[i] == '\n';
        assert(is_digit(n[i]));
    }
    lemma_truth(p.reduced_motion);
    lemma_truth(p.high_contrast);
    lemma_short_line("maximum_visible_tabs"@, n);
    lemma_short_line("reduced_motion"@, bool_text(p.reduced_motion));
    lemma_short_line("high_contrast"@, bool_text(p.high_contrast));
    lemma_lines_of_join(list);
    let one = list.take(1);
    let two = list.take(2);
    assert(one.drop_last() =~= seq![]);
    assert(preferences_in(one.drop_last()) == Ok::<UiPreferences, Seq<char>>(default_preferences()));
    let a = UiPreferences { maximum_visible_tabs: p.maximum_visible_tabs, ..default_preferences() };
    lemma_preference_line(default_preferences(), one, "maximum_visible_tabs"@, n);
    assert(two.drop_last() =~= one);
    let b = UiPreferences { reduced_motion: p.reduced_motion, ..a };
    lemma_preference_line(a, two, "reduced_motion"@, bool_text(p.reduced_motion));
    assert(list.drop_last() =~= two);
    lemma_preference_line(b, list, "high_contrast"@, bool_text(p.high_contrast));
}

/// The least of two numbers.
pub open spec fn least(a: int, b: int) -> int {
    if a < b {
        a
    } else {
        b
    }
}

/// The first tab that is shown: the active one stands in the middle, but for the ends.
pub open spec fn window_start(count: int, active: Option<usize>, maximum: int) -> int {
    let visible = least(count, shown_tabs(maximum));
    let wanted = match active {
        Some(a) => a as int,
        None => 0,
    };
    let last = if count > 0 {
        count - 1
    } else {
        0
    };
    let half = (if visible > 0 {
        visible - 1
    } else {
        0
    }) / 2;
    let middle = least(wanted, last);
    let start = if middle > half {
        middle - half
    } else {
        0
    };
    if start + visible > count {
        count - visible
    } else {
        start
    }
}

/// Finds which tabs are shown.
pub fn request_tab_window(
    tab_count: usize,
    active_index: Option<usize>,
    maximum_visible_tabs: usize,
) -> (r: std::ops::Range<usize>)
    ensures
        r.start as int == window_start(tab_count as int, active_index, maximum_visible_tabs as int),
        r.end as int == r.start + least(
            tab_count as int,
            shown_tabs(maximum_visible_tabs as int),
        ),
        r.start <= r.end <= tab_count,
{
    let limit: usize = clamp_tabs(maximum_visible_tabs);
    let visible: usize = if tab_count < limit {
        tab_count
    } else {
        limit
    };
    let wanted: usize = match active_index {
        Some(a) => a,
        None => 0,
    };
    let last: usize = if tab_count > 0 {
        tab_count - 1
    } else {
        0
    };
    let middle: usize = if wanted < last {
        wanted
    } else {
        last
    };
    let half: usize = (if visible > 0 {
        visible - 1
    } else {
        0
    }) / 2;
    let mut start: usize = if middle > half {
        middle - half
    } else {
        0
    };
    if start > tab_count - visible {
        start = tab_count - visible;
    }
    start..start + visible
}

/// The active tab is always shown, and no more tabs are shown than there are or may be.
pub proof fn law_window_shows_the_active_tab(count: usize, active: usize, maximum: usize)
    requires
        active < count,
    ensures
        ({
            let start = window_start(count as int, Some(active), maximum as int);
            let visible = least(count as int, shown_tabs(maximum as int));
            &&& 0 <= start <= active < start + visible <= count
            &&& 1 <= visible <= MAXIMUM_VISIBLE_REQUEST_TABS
        }),
{
}

} // verus!
