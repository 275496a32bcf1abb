//! Merge-conflict markers left in a text by a version-control merge.
use crate::error::{WorkspaceError, WorkspaceErrorView};
use crate::lines::{has_prefix, lines, split_lines, starts_with};
use crate::paths::ResourcePath;
use crate::text::{chars_of, same_chars, slices};
use vstd::prelude::*;

verus! {

/// A conflict in a text: the lines, counted from one, of its markers.
#[derive(Clone, Copy, Debug, PartialEq, Eq)]
pub struct ConflictMarker {
    pub start_line: usize,
    pub separator_line: Option<usize>,
    pub end_line: Option<usize>,
}

/// What a line is to a reader of conflict markers.
pub enum MarkerLine {
    Start,
    Separator,
    End,
    Other,
}

/// What a line is to a reader of conflict markers.
pub open spec fn marker_line(line: Seq<char>) -> MarkerLine {
    if starts_with(line, "<<<<<<< "@) {
        MarkerLine::Start
    } else if line == "======="@ {
        MarkerLine::Separator
    } else if starts_with(line, ">>>>>>> "@) {
        MarkerLine::End
    } else {
        MarkerLine::Other
    }
}

/// The conflicts that are complete, and the one that a further line may add to.
pub struct ConflictScan {
    pub closed: Seq<ConflictMarker>,
    pub open: Option<ConflictMarker>,
}

/// The conflicts in the first lines of a text.
pub open spec fn scan(list: Seq<Seq<char>>) -> ConflictScan
    decreases list.len(),
{
    if list.len() == 0 {
        ConflictScan { closed: seq![], open: None }
    } else {
        let before = scan(list.drop_last());
        let number = list.len() as usize;
        match marker_line(list.last()) {
            MarkerLine::Start => ConflictScan {
                closed: match before.open {
                    Some(marker) => before.closed.push(marker),
                    None => before.closed,
                },
                open: Some(
                    ConflictMarker { start_line: number, separator_line: None, end_line: None },
                ),
            },
            MarkerLine::Separator => ConflictScan {
                closed: before.closed,
                open: match before.open {
                    Some(marker) => Some(
                        ConflictMarker {
                            start_line: marker.start_line,
                            separator_line: Some(number),
                            end_line: marker.end_line,
                        },
                    ),
                    None => None,
                },
            },
            MarkerLine::End => match before.open {
                Some(marker) => ConflictScan {
                    closed: before.closed.push(
                        ConflictMarker {
                            start_line: marker.start_line,
                            separator_line: marker.separator_line,
                            end_line: Some(number),
                        },
                    ),
                    open: None,
                },
                None => before,
            },
            MarkerLine::Other => before,
        }
    }
}

/// The conflicts in a text, in order; one that never ends counts too.
pub open spec fn conflicts(content: Seq<char>) -> Seq<ConflictMarker> {
    let s = scan(lines(content));
    match s.open {
        Some(marker) => s.closed.push(marker),
        None => s.closed,
    }
}

/// Finds the merge-conflict markers in a text.
pub fn detect_conflict_markers(content: &str) -> (markers: Vec<ConflictMarker>)
    ensures
        markers@ == conflicts(content@),
{
    let chars = chars_of(content);
    let list = split_lines(chars.as_slice());
    let ghost all = slices(list@);
    let start = chars_of("<<<<<<< ");
    let separator = chars_of("=======");
    let end = chars_of(">>>>>>> ");
    let mut markers: Vec<ConflictMarker> = Vec::new();
    let mut current: Option<ConflictMarker> = None;
    for i in 0..list.len()
        invariant
            all == slices(list@),
            start@ == "<<<<<<< "@,
            separator@ == "======="@,
            end@ == ">>>>>>> "@,
            scan(all.take(i as int)) == (ConflictScan { closed: markers@, open: current }),
    {
        let line = list[i];
        let number: usize = i + 1;
        assert(all.take(i + 1).drop_last() =~= all.take(i as int));
        assert(all.take(i + 1).last() == line@);
        if has_prefix(line, start.as_slice()) {
            if let Some(marker) = current {
                markers.push(marker);
            }
            current =
            Some(ConflictMarker { start_line: number, separator_line: None, end_line: None });
        } else if same_chars(line, separator.as_slice()) {
            if let Some(marker) = current {
                current =
                Some(
                    ConflictMarker {
                        start_line: marker.start_line,
                        separator_line: Some(number),
                        end_line: marker.end_line,
                    },
                );
            }
        } else if has_prefix(line, end.as_slice()) {
            if let Some(marker) = current {
                markers.push(
                    ConflictMarker {
                        start_line: marker.start_line,
                        separator_line: marker.separator_line,
                        end_line: Some(number),
                    },
                );
                current = None;
            }
        }
    }
    assert(all.take(all.len() as int) =~= all);
    if let Some(marker) = current {
        markers.push(marker);
    }
    markers
}

/// Refuses a text with merge-conflict markers.
pub fn detect_conflict_error(path: &ResourcePath, content: &str) -> (r: Result<(), WorkspaceError>)
    ensures
        match r {
            Ok(_) => conflicts(content@).len() == 0,
            Err(e) => conflicts(content@).len() > 0 && e@ == (WorkspaceErrorView::MergeConflict {
                path: path@,
                markers: conflicts(content@),
            }),
        },
{
    let markers = detect_conflict_markers(content);
    if markers.len() == 0 {
        Ok(())
    } else {
        Err(WorkspaceError::MergeConflict { path: path.copy(), markers })
    }
}

/// Whether a marker's lines stand in order within a text of `count` lines.
pub open spec fn well_placed(marker: ConflictMarker, count: int) -> bool {
    &&& 1 <= marker.start_line <= count
    &&& marker.separator_line matches Some(s) ==> marker.start_line < s <= count
    &&& marker.end_line matches Some(e) ==> marker.start_line < e <= count && (
    marker.separator_line matches Some(s) ==> s < e)
}

/// Conflicts stand in order: each begins on a line of the text, its separator
/// and end come after its start, and the next conflict begins after it.
pub proof fn law_conflicts_are_ordered(content: Seq<char>)
    requires
        lines(content).len() <= usize::MAX,
    ensures
        forall|i: int|
            0 <= i < conflicts(content).len() ==> well_placed(
                #[trigger] conflicts(content)[i],
                lines(content).len() as int,
            ),
        forall|i: int, j: int|
            0 <= i < j < conflicts(content).len() ==> (#[trigger] conflicts(content)[i]).start_line
                < (#[trigger] conflicts(content)[j]).start_line,
{
    lemma_scan_ordered(lines(content));
}

proof fn lemma_scan_ordered(list: Seq<Seq<char>>)
    requires
        list.len() <= usize::MAX,
    ensures
        forall|i: int|
            0 <= i < scan(list).closed.len() ==> well_placed(
                #[trigger] scan(list).closed[i],
                list.len() as int,
            ),
        forall|i: int, j: int|
            0 <= i < j < scan(list).closed.len() ==> (#[trigger] scan(list).closed[i]).start_line
                < (#[trigger] scan(list).closed[j]).start_line,
        scan(list).open matches Some(m) ==> well_placed(m, list.len() as int) && m.end_line is None
            && forall|i: int|
            0 <= i < scan(list).closed.len() ==> (#[trigger] scan(list).closed[i]).start_line
                < m.start_line,
    decreases list.len(),
{
    if list.len() > 0 {
        lemma_scan_ordered(list.drop_last());
        let before = scan(list.drop_last());
        let after = scan(list);
        assert forall|i: int| 0 <= i < after.closed.len() implies well_placed(
            #[trigger] after.closed[i],
            list.len() as int,
        ) by {
            if i < before.closed.len() {
                assert(after.closed[i] == before.closed[i]);
            }
        }
        assert forall|i: int, j: int| 0 <= i < j < after.closed.len() implies (
        #[trigger] after.closed[i]).start_line < (#[trigger] after.closed[j]).start_line by {
            assert(after.closed[i] == before.closed[i]);
            if j < before.closed.len() {
                assert(after.closed[j] == before.closed[j]);
            }
        }
    }
}

} // verus!
