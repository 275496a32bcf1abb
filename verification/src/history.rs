//! How requests that were carried out are listed and compared.
use crate::message::{concat2, concat3, concat4, concat5};
use crate::number::{decimal, decimal_text};
use vstd::prelude::*;

verus! {

/// A request that was carried out.
#[derive(Clone, Debug, PartialEq, Eq)]
pub struct HistoryRecord {
    pub execution_id: String,
    pub request_name: String,
    pub status: Option<u16>,
    pub duration_ms: u64,
    /// Whether the request was kept as text.
    pub has_request_snapshot: bool,
    /// Whether the body of the response was kept.
    pub has_response_snapshot: bool,
}

/// How a request that was carried out is listed.
pub open spec fn record_label(record: HistoryRecord) -> Seq<char> {
    (match record.status {
        Some(n) => decimal(n as nat),
        None => "ERR"@,
    }) + " "@ + record.request_name@ + " · "@ + (decimal(record.duration_ms as nat) + "ms"@ + (if record.has_request_snapshot
        || record.has_response_snapshot {
        " · snapshot"@
    } else {
        Seq::empty()
    }))
}

/// Writes how a request that was carried out is listed.
pub fn show_record(record: &HistoryRecord) -> (r: String)
    ensures
        r@ == record_label(*record),
{
    let status = match record.status {
        Some(n) => decimal_text(n as u64),
        None => "ERR".to_owned(),
    };
    let nothing = String::new();
    assert(nothing@ =~= Seq::empty());
    let tail = concat3(
        decimal_text(record.duration_ms).as_str(),
        "ms",
        if record.has_request_snapshot || record.has_response_snapshot {
            " · snapshot"
        } else {
            nothing.as_str()
        },
    );
    let head = concat4(status.as_str(), " ", record.request_name.as_str(), " · ");
    concat2(head.as_str(), tail.as_str())
}

/// The items that are listed, each with its identifier: where there are none, that is said.
pub open spec fn history_items(list: Seq<HistoryRecord>) -> Seq<(Seq<char>, Seq<char>)> {
    if list.len() == 0 {
        seq![("__history-empty"@, "No history entries"@)]
    } else {
        list.map_values(|h: HistoryRecord| (h.execution_id@, record_label(h)))
    }
}

/// Lists the requests that were carried out.
pub fn list_history(list: &[HistoryRecord]) -> (r: Vec<(String, String)>)
    ensures
        r@.map_values(|p: (String, String)| (p.0@, p.1@)) == history_items(list@),
{
    let mut r: Vec<(String, String)> = Vec::new();
    if list.len() == 0 {
        r.push(("__history-empty".to_owned(), "No history entries".to_owned()));
        assert(r@.map_values(|p: (String, String)| (p.0@, p.1@)) =~= history_items(list@));
        return r;
    }
    for i in 0..list.len()
        invariant
            r@.len() == i,
            forall|k: int|
                0 <= k < i ==> (#[trigger] r@[k]).0@ == list@[k].execution_id@ && r@[k].1@
                    == record_label(list@[k]),
    {
        r.push((list[i].execution_id.clone(), show_record(&list[i])));
    }
    assert(r@.map_values(|p: (String, String)| (p.0@, p.1@)) =~= history_items(list@));
    r
}

/// How the bodies of two responses differ.
#[derive(Clone, Copy, Debug, PartialEq, Eq, Structural)]
pub enum BodyDifference {
    Unavailable,
    Unchanged,
    Json,
    Text,
    Binary,
}

/// What is said of how the bodies of two responses differ.
pub open spec fn body_difference_text(body: BodyDifference) -> Seq<char> {
    match body {
        BodyDifference::Unavailable => "body unavailable"@,
        BodyDifference::Unchanged => "body unchanged"@,
        BodyDifference::Json => "JSON changed"@,
        BodyDifference::Text => "text changed"@,
        BodyDifference::Binary => "binary changed"@,
    }
}

/// Says how the bodies of two responses differ.
pub fn history_body_diff_label(body: BodyDifference) -> (r: &'static str)
    ensures
        r@ == body_difference_text(body),
{
    match body {
        BodyDifference::Unavailable => "body unavailable",
        BodyDifference::Unchanged => "body unchanged",
        BodyDifference::Json => "JSON changed",
        BodyDifference::Text => "text changed",
        BodyDifference::Binary => "binary changed",
    }
}

/// How two responses differ.
#[derive(Clone, Copy, Debug, PartialEq, Eq, Structural)]
pub struct ResponseDifference {
    pub status_changed: bool,
    pub header_changes: u64,
    pub cookie_changes: u64,
    pub body: BodyDifference,
}

/// What is said of how the last two responses differ, where there are two and both are known.
pub open spec fn comparison_text(count: nat, difference: Option<ResponseDifference>) -> Seq<char> {
    if count < 2 {
        "At least two history entries are required."@
    } else {
        match difference {
            None => "History entries changed; refresh and try again."@,
            Some(d) => ("Latest vs previous: status "@ + (if d.status_changed {
                "changed"@
            } else {
                "same"@
            }) + " · "@ + decimal(d.header_changes as nat) + " header change(s) · "@) + (decimal(
                d.cookie_changes as nat,
            ) + " cookie change(s) · "@ + body_difference_text(d.body)),
        }
    }
}

/// Says how the last two responses differ.
pub fn compare_latest(count: usize, difference: Option<ResponseDifference>) -> (r: String)
    ensures
        r@ == comparison_text(count as nat, difference),
{
    if count < 2 {
        return "At least two history entries are required.".to_owned();
    }
    match difference {
        None => "History entries changed; refresh and try again.".to_owned(),
        Some(d) => {
            let head = concat5(
                "Latest vs previous: status ",
                if d.status_changed {
                    "changed"
                } else {
                    "same"
                },
                " · ",
                decimal_text(d.header_changes).as_str(),
                " header change(s) · ",
            );
            let tail = concat3(
                decimal_text(d.cookie_changes).as_str(),
                " cookie change(s) · ",
                history_body_diff_label(d.body),
            );
            concat2(head.as_str(), tail.as_str())
        },
    }
}

} // verus!
