//! The response to a request, as it is shown while and after the request is carried out.
use crate::files::{lossy_text, text_lossy};
use crate::lines::{join, join_texts};
use crate::message::{concat2, concat3, concat4, concat5};
use crate::number::{decimal, decimal_text};
use crate::paths::ResourcePath;
use crate::sections::ResponseTab;
use crate::text::{optional_text, texts};
use vstd::prelude::*;

verus! {

/// What happened while a request is carried out.
#[derive(Clone, Debug, PartialEq, Eq)]
pub enum ExecutionEvent {
    Started { execution_id: String },
    /// A phase, by its name.
    PhaseStarted(String),
    UploadProgress { sent_bytes: u64, total_bytes: Option<u64> },
    ResponseHeaders { status: u16, http_version: String },
    DownloadProgress { received_bytes: u64, total_bytes: Option<u64> },
    StreamItem { sequence: u64, kind: String, preview: String },
    Completed,
    Cancelled,
    /// A failure, by the name of its category and what is told of it.
    Failed { category: String, redacted_summary: String },
}

/// How a number that may not be known is shown.
pub open spec fn known_or_not(n: Option<u64>) -> Seq<char> {
    match n {
        Some(n) => decimal(n as nat),
        None => "?"@,
    }
}

/// What is told of an event.
pub open spec fn event_text(event: ExecutionEvent) -> Seq<char> {
    match event {
        ExecutionEvent::Started { execution_id } => "Started "@ + execution_id@,
        ExecutionEvent::PhaseStarted(phase) => "Phase: "@ + phase@,
        ExecutionEvent::UploadProgress { sent_bytes, total_bytes } => "Upload: "@ + decimal(
            sent_bytes as nat,
        ) + "/"@ + known_or_not(total_bytes),
        ExecutionEvent::ResponseHeaders { status, http_version } => "Response: "@ + decimal(
            status as nat,
        ) + " "@ + http_version@,
        ExecutionEvent::DownloadProgress { received_bytes, total_bytes } => "Download: "@ + decimal(
            received_bytes as nat,
        ) + "/"@ + known_or_not(total_bytes),
        ExecutionEvent::StreamItem { sequence, kind, preview } => ("Stream "@ + decimal(
            sequence as nat,
        ) + " ["@ + kind@ + "]: "@) + preview@,
        ExecutionEvent::Completed => "Completed"@,
        ExecutionEvent::Cancelled => "Cancelled"@,
        ExecutionEvent::Failed { category, redacted_summary } => "Failed ["@ + category@ + "]: "@
            + redacted_summary@,
    }
}

fn show_known(n: Option<u64>) -> (r: String)
    ensures
        r@ == known_or_not(n),
{
    match n {
        Some(n) => decimal_text(n),
        None => "?".to_owned(),
    }
}

/// Writes what is told of an event.
pub fn format_event(event: &ExecutionEvent) -> (r: String)
    ensures
        r@ == event_text(*event),
{
    match event {
        ExecutionEvent::Started { execution_id } => concat2("Started ", execution_id.as_str()),
        ExecutionEvent::PhaseStarted(phase) => concat2("Phase: ", phase.as_str()),
        ExecutionEvent::UploadProgress { sent_bytes, total_bytes } => concat4(
            "Upload: ",
            decimal_text(*sent_bytes).as_str(),
            "/",
            show_known(*total_bytes).as_str(),
        ),
        ExecutionEvent::ResponseHeaders { status, http_version } => concat4(
            "Response: ",
            decimal_text(*status as u64).as_str(),
            " ",
            http_version.as_str(),
        ),
        ExecutionEvent::DownloadProgress { received_bytes, total_bytes } => concat4(
            "Download: ",
            decimal_text(*received_bytes).as_str(),
            "/",
            show_known(*total_bytes).as_str(),
        ),
        ExecutionEvent::StreamItem { sequence, kind, preview } => {
            let head = concat5(
                "Stream ",
                decimal_text(*sequence).as_str(),
                " [",
                kind.as_str(),
                "]: ",
            );
            concat2(head.as_str(), preview.as_str())
        },
        ExecutionEvent::Completed => "Completed".to_owned(),
        ExecutionEvent::Cancelled => "Cancelled".to_owned(),
        ExecutionEvent::Failed { category, redacted_summary } => concat4(
            "Failed [",
            category.as_str(),
            "]: ",
            redacted_summary.as_str(),
        ),
    }
}

/// Where the body of a response is.
#[derive(Clone, Debug, PartialEq, Eq)]
pub enum StoredBody {
    Empty,
    InMemory(Vec<u8>),
    File(ResourcePath),
    StreamLog(ResourcePath),
}

/// A response that was received.
#[derive(Clone, Debug, PartialEq, Eq)]
pub struct CompletedResponse {
    pub status: Option<u16>,
    pub status_text: Option<String>,
    pub received_bytes: u64,
    pub protocol_version: String,
    pub headers: Vec<(String, String)>,
    /// The phases, each with how it is shown.
    pub timing: Vec<(String, String)>,
    pub stored_body: StoredBody,
}

/// What became of a request.
#[derive(Clone, Debug, PartialEq, Eq)]
pub enum ResponseState {
    Idle,
    Running,
    Completed(CompletedResponse),
    Cancelled,
    /// A failure, by the name of its category and what is told of it.
    Failed { category: String, message: String },
}

/// What is heard of a request that is carried out.
#[derive(Clone, Debug, PartialEq, Eq)]
pub enum NetworkMessage {
    Event(ExecutionEvent),
    Completed(CompletedResponse),
    Cancelled,
    Failed { category: String, message: String },
}

/// Pairs, each in one line.
pub open spec fn pair_lines(list: Seq<(String, String)>) -> Seq<Seq<char>> {
    list.map_values(|p: (String, String)| p.0@ + ": "@ + p.1@)
}

fn show_pairs(list: &[(String, String)]) -> (r: String)
    ensures
        r@ == join(pair_lines(list@), "\n"@),
{
    let mut lines: Vec<String> = Vec::new();
    for i in 0..list.len()
        invariant
            lines@.len() == i,
            forall|k: int| 0 <= k < i ==> (#[trigger] lines@[k])@ == list@[k].0@ + ": "@ + list@[k].1@,
    {
        lines.push(concat3(list[i].0.as_str(), ": ", list[i].1.as_str()));
    }
    assert(texts(lines@) =~= pair_lines(list@));
    join_texts(lines.as_slice(), "\n")
}

/// What is said of what became of a request.
pub open spec fn state_summary(state: ResponseState) -> Seq<char> {
    match state {
        ResponseState::Idle => "No response yet"@,
        ResponseState::Running => "Waiting for response…"@,
        ResponseState::Cancelled => "Cancelled"@,
        ResponseState::Failed { category, message } => category@ + ": "@ + message@,
        ResponseState::Completed(r) => (decimal(
            match r.status {
                Some(n) => n as nat,
                None => 0,
            },
        ) + " "@ + (match optional_text(r.status_text) {
            Some(t) => t,
            None => seq![],
        })) + (" · "@ + decimal(r.received_bytes as nat) + " bytes · "@ + r.protocol_version@),
    }
}

/// How the body of a response is shown.
pub open spec fn body_shown(state: ResponseState) -> Seq<char> {
    match state {
        ResponseState::Completed(r) => match r.stored_body {
            StoredBody::Empty => "<empty response body>"@,
            StoredBody::InMemory(bytes) => lossy_text(bytes@),
            StoredBody::File(path) => "Response streamed to "@ + path@,
            StoredBody::StreamLog(path) => "Stream log: "@ + path@,
        },
        _ => state_summary(state),
    }
}

/// What a view of a response shows.
pub open spec fn view_shown(tab: ResponseTab, state: ResponseState, console: Seq<Seq<char>>) -> Seq<
    char,
> {
    match tab {
        ResponseTab::Pretty => body_shown(state),
        ResponseTab::Raw => body_shown(state),
        ResponseTab::Headers => match state {
            ResponseState::Completed(r) => join(pair_lines(r.headers@), "\n"@),
            _ => state_summary(state),
        },
        ResponseTab::Timeline => match state {
            ResponseState::Completed(r) => join(pair_lines(r.timing@), "\n"@),
            _ => state_summary(state),
        },
        ResponseTab::Tests => "Assertions have not run for this request."@,
        ResponseTab::Console => join(console, "\n"@),
    }
}

/// The response to a request, as it is shown.
#[derive(Debug, PartialEq, Eq)]
pub struct ResponsePanel {
    pub selected_tab: ResponseTab,
    pub state: ResponseState,
    pub console: Vec<String>,
}

/// The response to a request, by its contents.
#[verifier::ext_equal]
pub struct ResponseView {
    pub selected_tab: ResponseTab,
    pub state: ResponseState,
    pub console: Seq<Seq<char>>,
}

impl View for ResponsePanel {
    type V = ResponseView;

    open spec fn view(&self) -> ResponseView {
        ResponseView {
            selected_tab: self.selected_tab,
            state: self.state,
            console: texts(self.console@),
        }
    }
}

/// What is shown before a request is carried out.
pub open spec fn no_response() -> ResponseView {
    ResponseView { selected_tab: ResponseTab::Pretty, state: ResponseState::Idle, console: seq![] }
}

/// What is shown when a request begins to be carried out.
pub open spec fn begun(v: ResponseView) -> ResponseView {
    ResponseView { state: ResponseState::Running, console: seq![], ..v }
}

/// What is shown once something is heard of the request.
pub open spec fn heard(v: ResponseView, message: NetworkMessage) -> ResponseView {
    match message {
        NetworkMessage::Event(event) => ResponseView {
            console: v.console.push(event_text(event)),
            ..v
        },
        NetworkMessage::Completed(r) => ResponseView { state: ResponseState::Completed(r), ..v },
        NetworkMessage::Cancelled => ResponseView { state: ResponseState::Cancelled, ..v },
        NetworkMessage::Failed { category, message } => ResponseView {
            state: ResponseState::Failed { category, message },
            ..v
        },
    }
}

impl ResponsePanel {
    /// Nothing was carried out yet.
    pub fn new() -> (r: ResponsePanel)
        ensures
            r@ == no_response(),
    {
        let r = ResponsePanel {
            selected_tab: ResponseTab::Pretty,
            state: ResponseState::Idle,
            console: Vec::new(),
        };
        assert(r@ =~= no_response());
        r
    }

    /// Forgets what was carried out.
    pub fn reset(&mut self)
        ensures
            final(self)@ == no_response(),
    {
        self.selected_tab = ResponseTab::Pretty;
        self.state = ResponseState::Idle;
        self.console = Vec::new();
        assert(self@ =~= no_response());
    }

    /// A request begins to be carried out.
    pub fn begin(&mut self)
        ensures
            final(self)@ == begun(old(self)@),
    {
        self.state = ResponseState::Running;
        self.console = Vec::new();
        assert(self@ =~= begun(old(self)@));
    }

    /// Adds a line to the console.
    pub fn report(&mut self, line: String)
        ensures
            final(self)@ == (ResponseView { console: old(self)@.console.push(line@), ..old(self)@ }),
    {
        let ghost before = self@;
        let ghost added = line@;
        self.console.push(line);
        assert(self@.console =~= before.console.push(added));
    }

    /// Something is heard of the request.
    pub fn apply_message(&mut self, message: NetworkMessage)
        ensures
            final(self)@ == heard(old(self)@, message),
    {
        match message {
            NetworkMessage::Event(event) => {
                let line = format_event(&event);
                self.report(line);
            },
            NetworkMessage::Completed(r) => {
                self.state = ResponseState::Completed(r);
            },
            NetworkMessage::Cancelled => {
                self.state = ResponseState::Cancelled;
            },
            NetworkMessage::Failed { category, message } => {
                self.state = ResponseState::Failed { category, message };
            },
        }
    }

    /// What is said of what became of the request.
    pub fn summary(&self) -> (r: String)
        ensures
            r@ == state_summary(self.state),
    {
        match &self.state {
            ResponseState::Idle => "No response yet".to_owned(),
            ResponseState::Running => "Waiting for response…".to_owned(),
            ResponseState::Cancelled => "Cancelled".to_owned(),
            ResponseState::Failed { category, message } => concat3(
                category.as_str(),
                ": ",
                message.as_str(),
            ),
            ResponseState::Completed(r) => {
                let status: u64 = match r.status {
                    Some(n) => n as u64,
                    None => 0,
                };
                let nothing = String::new();
                assert(nothing@ =~= seq![]);
                let text: &str = match &r.status_text {
                    Some(t) => t.as_str(),
                    None => nothing.as_str(),
                };
                let head = concat3(decimal_text(status).as_str(), " ", text);
                let tail = concat4(
                    " · ",
                    decimal_text(r.received_bytes).as_str(),
                    " bytes · ",
                    r.protocol_version.as_str(),
                );
                concat2(head.as_str(), tail.as_str())
            },
        }
    }

    /// How the body of the response is shown.
    pub fn body_preview(&self) -> (r: String)
        ensures
            r@ == body_shown(self.state),
    {
        match &self.state {
            ResponseState::Completed(r) => match &r.stored_body {
                StoredBody::Empty => "<empty response body>".to_owned(),
                StoredBody::InMemory(bytes) => text_lossy(bytes.as_slice()),
                StoredBody::File(path) => concat2("Response streamed to ", path.as_text()),
                StoredBody::StreamLog(path) => concat2("Stream log: ", path.as_text()),
            },
            _ => self.summary(),
        }
    }

    /// What the selected view shows.
    pub fn content(&self) -> (r: String)
        ensures
            r@ == view_shown(self.selected_tab, self.state, self@.console),
    {
        match self.selected_tab {
            ResponseTab::Pretty => self.body_preview(),
            ResponseTab::Raw => self.body_preview(),
            ResponseTab::Headers => match &self.state {
                ResponseState::Completed(r) => show_pairs(r.headers.as_slice()),
                _ => self.summary(),
            },
            ResponseTab::Timeline => match &self.state {
                ResponseState::Completed(r) => show_pairs(r.timing.as_slice()),
                _ => self.summary(),
            },
            ResponseTab::Tests => "Assertions have not run for this request.".to_owned(),
            ResponseTab::Console => join_texts(self.console.as_slice(), "\n"),
        }
    }
}

/// Every event adds one line to the console, and leaves the lines before it as they are.
pub proof fn law_events_are_kept_in_order(v: ResponseView, event: ExecutionEvent)
    ensures
        heard(v, NetworkMessage::Event(event)).console.len() == v.console.len() + 1,
        heard(v, NetworkMessage::Event(event)).console.take(v.console.len() as int) == v.console,
        heard(v, NetworkMessage::Event(event)).state == v.state,
{
    assert(v.console.push(event_text(event)).take(v.console.len() as int) =~= v.console);
}

} // verus!
