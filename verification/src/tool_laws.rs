//! What the commands for the tools around a workspace promise, and what is shown of them.
use crate::command_line::{command_parts, items_in};
use crate::external_state::{banner_of, ExternalView};
use crate::history::{history_items, record_label, HistoryRecord};
use crate::lines::{join, starts_with};
use crate::number::decimal;
use crate::response::{view_shown, ResponseState, StoredBody};
use crate::sections::ResponseTab;
use crate::text::{ascii_lowercase, trim};
use crate::tool_commands::{
    ai_asked, capabilities_of, capability_of, git_asked, mock_asked, openapi_asked, plugin_asked,
    stream_asked, AiView, GitView, MockCommand, OpenApiView, PluginCapability, PluginView,
    StreamDirection, StreamView,
};
use vstd::prelude::*;

verus! {

/// Whether Git is asked for what the parts of a command name.
pub open spec fn git_named(parts: Seq<Seq<char>>, v: GitView) -> bool {
    match v {
        GitView::Status => parts[0] == "status"@,
        GitView::Diff { staged } => parts[0] == (if staged {
            "diff staged"@
        } else {
            "diff"@
        }),
        GitView::Stage { path } => parts.len() > 1 && parts[0] == "stage"@ && parts[1] == path,
        GitView::Commit { message } => parts.len() > 1 && parts[0] == "commit"@ && parts[1]
            == message,
        GitView::Switch { branch, allow_dirty } => {
            &&& parts.len() > 1
            &&& parts[0] == "switch"@
            &&& parts[1] == branch
            &&& allow_dirty <==> parts.len() > 2 && parts[2] == "true"@
            &&& parts.len() > 2 ==> parts[2] == "true"@ || parts[2] == "false"@
        },
    }
}

/// Git is asked for what a command names, and for all that it can be asked: a command for which
/// there is something to ask is understood, and no other is.
pub proof fn law_git_is_asked_for_what_is_named(command: Seq<char>, v: GitView)
    ensures
        git_asked(command) == Ok::<GitView, Seq<char>>(v) <==> git_named(command_parts(command), v),
{
    reveal_strlit("status");
    reveal_strlit("diff");
    reveal_strlit("diff staged");
    reveal_strlit("stage");
    reveal_strlit("commit");
    reveal_strlit("switch");
    reveal_strlit("true");
    reveal_strlit("false");
    assert("status"@[1] == 't' && "switch"@[1] == 'w' && "commit"@[1] == 'o');
    assert("true"@.len() != "false"@.len());
    assert("diff"@.len() == 4 && "diff staged"@.len() == 11 && "stage"@.len() == 5);
}

/// Whether a document that describes an interface is asked for what the parts of a command name.
pub open spec fn openapi_named(parts: Seq<Seq<char>>, open: bool, v: OpenApiView) -> bool {
    match v {
        OpenApiView::List => parts[0] == "list"@,
        OpenApiView::Markdown => parts[0] == "markdown"@,
        OpenApiView::Generate { operation, relative_path, server } => {
            &&& open
            &&& parts.len() > 2
            &&& parts[0] == "generate"@
            &&& parts[1] == operation && operation.len() > 0
            &&& parts[2] == relative_path && relative_path.len() > 0
            &&& server == (if parts.len() > 3 && parts[3].len() > 0 {
                Some(parts[3])
            } else {
                None
            })
        },
    }
}

/// A document that describes an interface is asked for what a command names, and only that.
/// Requests are made of it where a workspace is open.
pub proof fn law_descriptions_are_asked_for_what_is_named(
    command: Seq<char>,
    open: bool,
    v: OpenApiView,
)
    ensures
        openapi_asked(command, open) == Ok::<OpenApiView, Seq<char>>(v) <==> openapi_named(
            command_parts(command),
            open,
            v,
        ),
{
    reveal_strlit("list");
    reveal_strlit("markdown");
    reveal_strlit("generate");
    assert("list"@[0] == 'l' && "markdown"@[0] == 'm' && "generate"@[0] == 'g');
}

/// A mock server is started where none runs, and asked for its log or stopped where one does.
pub proof fn law_mock_servers_are_asked_for_what_is_named(command: Seq<char>, running: bool)
    ensures
        mock_asked(command, running) == Ok::<MockCommand, Seq<char>>(MockCommand::Start)
            <==> !running && trim(command) == "start"@,
        mock_asked(command, running) == Ok::<MockCommand, Seq<char>>(MockCommand::Logs)
            <==> running && trim(command) == "logs"@,
        mock_asked(command, running) == Ok::<MockCommand, Seq<char>>(MockCommand::Stop)
            <==> running && trim(command) == "stop"@,
{
    reveal_strlit("start");
    reveal_strlit("logs");
    reveal_strlit("stop");
    assert("start"@.len() == 5 && "logs"@[0] == 'l' && "stop"@[0] == 's' && "stop"@.len() == 4);
}

/// The word for what a plugin may do.
pub open spec fn capability_word(c: PluginCapability) -> Seq<char> {
    match c {
        PluginCapability::Importer => "importer"@,
        PluginCapability::Exporter => "exporter"@,
        PluginCapability::Generator => "generator"@,
        PluginCapability::Assertion => "assertion"@,
        PluginCapability::Viewer => "viewer"@,
        PluginCapability::Authentication => "authentication"@,
    }
}

proof fn lemma_capability_words()
    ensures
        "importer"@[0] == 'i',
        "exporter"@[0] == 'e',
        "generator"@[0] == 'g',
        "assertion"@[0] == 'a',
        "assertion"@[1] == 's',
        "viewer"@[0] == 'v',
        "authentication"@[0] == 'a',
        "authentication"@[1] == 'u',
{
    reveal_strlit("importer");
    reveal_strlit("exporter");
    reveal_strlit("generator");
    reveal_strlit("assertion");
    reveal_strlit("viewer");
    reveal_strlit("authentication");
}

/// What a plugin may do is read from its word, whatever stands around it and in whatever case.
pub proof fn law_capabilities_are_read(text: Seq<char>, c: PluginCapability)
    ensures
        capability_of(text) == Ok::<PluginCapability, Seq<char>>(c) <==> ascii_lowercase(trim(text))
            == capability_word(c),
{
    lemma_capability_words();
}

proof fn lemma_capabilities(list: Seq<Seq<char>>)
    ensures
        capabilities_of(list) matches Ok(all) ==> all.len() == list.len() && forall|i: int|
            0 <= i < all.len() ==> ascii_lowercase(trim(list[i])) == capability_word(
                #[trigger] all[i],
            ),
    decreases list.len(),
{
    if list.len() > 0 {
        lemma_capabilities(list.drop_last());
        if let Ok(c) = capability_of(list.last()) {
            law_capabilities_are_read(list.last(), c);
        }
    }
}

/// A plugin is approved for what a command lists, neither more nor less, and the plugin is
/// invoked for what the command names.
pub proof fn law_plugins_may_do_what_is_listed(command: Seq<char>, validated: bool)
    ensures
        ({
            let parts = command_parts(command);
            match plugin_asked(command, validated) {
                Ok(PluginView::Validate { module, approved }) => {
                    let listed = items_in(
                        if parts.len() > 2 {
                            parts[2]
                        } else {
                            seq![]
                        },
                        ',',
                    );
                    &&& parts.len() > 1 && parts[0] == "validate"@ && parts[1] == module
                    &&& approved.len() == listed.len()
                    &&& forall|i: int|
                        0 <= i < approved.len() ==> ascii_lowercase(trim(listed[i]))
                            == capability_word(#[trigger] approved[i])
                },
                Ok(PluginView::Invoke { point }) => parts.len() > 1 && parts[0] == "invoke"@
                    && ascii_lowercase(trim(parts[1])) == capability_word(point),
                Err(_) => true,
            }
        }),
{
    let parts = command_parts(command);
    let listed = items_in(
        if parts.len() > 2 {
            parts[2]
        } else {
            seq![]
        },
        ',',
    );
    lemma_capabilities(listed);
    if parts.len() > 1 {
        if let Ok(c) = capability_of(parts[1]) {
            law_capabilities_are_read(parts[1], c);
        }
    }
}

/// An assistant gets something only by the very word that was given for it.
pub proof fn law_assistants_are_asked_by_their_word(command: Seq<char>, previewed: bool)
    ensures
        ai_asked(command, previewed) matches Ok(AiView::Confirm { token }) ==> previewed && token
            == trim(command) && starts_with(token, "confirm:"@),
        ai_asked(command, previewed) is Ok && trim(command) == "preview"@ ==> ai_asked(
            command,
            previewed,
        ) == Ok::<AiView, Seq<char>>(AiView::Preview),
        trim(command) == "preview"@ ==> ai_asked(command, previewed) is Ok,
        previewed && starts_with(trim(command), "confirm:"@) ==> ai_asked(command, previewed)
            is Ok,
{
}

/// The word that appends what went in a direction to the log of a stream.
pub open spec fn push_word(d: StreamDirection) -> Seq<char> {
    match d {
        StreamDirection::Incoming => "push incoming"@,
        StreamDirection::Outgoing => "push outgoing"@,
        StreamDirection::System => "push system"@,
    }
}

/// The log of a stream is asked for what a command names: what is appended went in the direction
/// that the command says, with the kind and the data that it gives.
pub proof fn law_stream_logs_are_asked_for_what_is_named(command: Seq<char>, has_log: bool)
    ensures
        ({
            let parts = command_parts(command);
            match stream_asked(command, has_log) {
                Ok(StreamView::NewWebSocket) => parts[0] == "new websocket"@,
                Ok(StreamView::NewServerSentEvents) => parts[0] == "new sse"@,
                Ok(StreamView::Connect) => has_log && parts[0] == "connect"@,
                Ok(StreamView::Disconnect { reason }) => has_log && parts[0] == "disconnect"@ && (
                parts.len() > 1 && parts[1].len() > 0 ==> reason == parts[1]),
                Ok(StreamView::Push { direction, event_type, data }) => {
                    &&& has_log
                    &&& parts[0] == push_word(direction)
                    &&& parts.len() > 1 && parts[1].len() > 0 ==> event_type == Some(parts[1])
                    &&& parts.len() > 1 && parts[1].len() == 0 ==> event_type is None
                    &&& parts.len() > 2 ==> data == parts[2]
                },
                Ok(StreamView::Filter { needle }) => has_log && parts[0] == "filter"@ && (
                parts.len() > 1 ==> needle == parts[1]),
                Ok(StreamView::Export) => has_log && parts[0] == "export"@,
                Err(_) => true,
            }
        }),
{
}

/// What is known of a response is shown where it is asked for: the body as it came, the headers
/// and the times each in a line, and until there is a response, why there is none.
pub proof fn law_responses_are_shown(state: ResponseState, console: Seq<Seq<char>>)
    ensures
        state matches ResponseState::Completed(r) ==> {
            let body = view_shown(ResponseTab::Raw, state, console);
            &&& r.stored_body is Empty ==> body == "<empty response body>"@
            &&& r.stored_body matches StoredBody::InMemory(bytes) ==> body
                == crate::files::lossy_text(bytes@)
            &&& r.stored_body matches StoredBody::File(path) ==> body == "Response streamed to "@
                + path@
            &&& r.stored_body matches StoredBody::StreamLog(path) ==> body == "Stream log: "@
                + path@
            &&& view_shown(ResponseTab::Headers, state, console) == join(
                Seq::new(r.headers@.len(), |i: int| r.headers@[i].0@ + ": "@ + r.headers@[i].1@),
                "\n"@,
            )
            &&& view_shown(ResponseTab::Timeline, state, console) == join(
                Seq::new(r.timing@.len(), |i: int| r.timing@[i].0@ + ": "@ + r.timing@[i].1@),
                "\n"@,
            )
        },
        state matches ResponseState::Failed { category, message } ==> view_shown(
            ResponseTab::Raw,
            state,
            console,
        ) == category@ + ": "@ + message@,
        view_shown(ResponseTab::Pretty, state, console) == view_shown(
            ResponseTab::Raw,
            state,
            console,
        ),
        view_shown(ResponseTab::Console, state, console) == join(console, "\n"@),
{
    if let ResponseState::Completed(r) = state {
        assert(crate::response::pair_lines(r.headers@) =~= Seq::new(
            r.headers@.len(),
            |i: int| r.headers@[i].0@ + ": "@ + r.headers@[i].1@,
        ));
        assert(crate::response::pair_lines(r.timing@) =~= Seq::new(
            r.timing@.len(),
            |i: int| r.timing@[i].0@ + ": "@ + r.timing@[i].1@,
        ));
    }
}

/// A request is warned of as in conflict exactly where it is, and can be taken over from its
/// file exactly where the file holds another version. Where all is in sync, nothing is said.
pub proof fn law_banners_warn_of_conflicts(state: ExternalView)
    ensures
        banner_of(state) is None <==> state is InSync,
        banner_of(state) matches Some(b) ==> {
            &&& b.conflict <==> match state {
                ExternalView::Conflict(_) => true,
                ExternalView::Missing { conflict, .. } => conflict,
                ExternalView::Failed { conflict, .. } => conflict,
                _ => false,
            }
            &&& b.reload_label is Some <==> state is ReloadAvailable || state is Conflict
        },
{
}

/// Every request that was carried out is listed under its own identifier, in the given order,
/// and what is said of it begins with its status, or that there was none.
pub proof fn law_history_is_listed(list: Seq<HistoryRecord>)
    ensures
        list.len() > 0 ==> history_items(list).len() == list.len(),
        forall|i: int|
            0 <= i < list.len() ==> (#[trigger] history_items(list)[i]).0 == list[i].execution_id@
                && starts_with(
                history_items(list)[i].1,
                (match list[i].status {
                    Some(n) => decimal(n as nat),
                    None => "ERR"@,
                }) + " "@ + list[i].request_name@,
            ),
{
    assert forall|i: int| 0 <= i < list.len() implies (#[trigger] history_items(list)[i]).0
        == list[i].execution_id@ && starts_with(
        history_items(list)[i].1,
        (match list[i].status {
            Some(n) => decimal(n as nat),
            None => "ERR"@,
        }) + " "@ + list[i].request_name@,
    ) by {
        let front = (match list[i].status {
            Some(n) => decimal(n as nat),
            None => "ERR"@,
        }) + " "@ + list[i].request_name@;
        let whole = record_label(list[i]);
        assert(history_items(list)[i].1 == whole);
        assert(whole.take(front.len() as int) =~= front);
    }
}

} // verus!
