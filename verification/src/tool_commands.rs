//! The commands of the tools for documents, mock servers, Git, plugins, assistants and protocols:
//! what each asks for, given how the tool stands.
use crate::command_line::{command_parts, find_items, items_in, split_command};
use crate::editor_fields::said;
use crate::editor_settings::{read_truth, truth};
use crate::error::outcome;
use crate::lines::{has_prefix, join, join_texts, starts_with};
use crate::message::{concat3, concat4, concat5};
use crate::number::{decimal, decimal_text};
use crate::text::{
    ascii_lowercase, chars_of, optional_text, same_text, string_of, texts,
    to_ascii_lower, trim, trim_chars, trim_text,
};
use vstd::prelude::*;
use vstd::slice::slice_subrange;

verus! {

/// A part of a command, if it is there.
pub open spec fn part_given(parts: Seq<Seq<char>>, index: int) -> Option<Seq<char>> {
    if 0 <= index < parts.len() {
        Some(parts[index])
    } else {
        None
    }
}

/// A part of a command, if it is there and holds anything.
pub open spec fn part_filled(parts: Seq<Seq<char>>, index: int) -> Option<Seq<char>> {
    if 0 <= index < parts.len() && parts[index].len() > 0 {
        Some(parts[index])
    } else {
        None
    }
}

fn copy_part(parts: &[String], index: usize) -> (r: Option<String>)
    ensures
        optional_text(r) == part_given(texts(parts@), index as int),
{
    if index < parts.len() {
        assert(texts(parts@)[index as int] == parts@[index as int]@);
        Some(parts[index].clone())
    } else {
        None
    }
}

fn copy_filled(parts: &[String], index: usize) -> (r: Option<String>)
    ensures
        optional_text(r) == part_filled(texts(parts@), index as int),
{
    if index < parts.len() {
        assert(texts(parts@)[index as int] == parts@[index as int]@);
        if parts[index].as_str().unicode_len() > 0 {
            return Some(parts[index].clone());
        }
    }
    None
}

/// What is asked of a document that describes an interface.
#[derive(Clone, Debug, PartialEq, Eq)]
pub enum OpenApiCommand {
    List,
    Markdown,
    Generate { operation: String, relative_path: String, server: Option<String> },
}

/// What is asked of a document that describes an interface, by its contents.
pub enum OpenApiView {
    List,
    Markdown,
    Generate { operation: Seq<char>, relative_path: Seq<char>, server: Option<Seq<char>> },
}

impl View for OpenApiCommand {
    type V = OpenApiView;

    open spec fn view(&self) -> OpenApiView {
        match self {
            OpenApiCommand::List => OpenApiView::List,
            OpenApiCommand::Markdown => OpenApiView::Markdown,
            OpenApiCommand::Generate { operation, relative_path, server } => OpenApiView::Generate {
                operation: operation@,
                relative_path: relative_path@,
                server: optional_text(*server),
            },
        }
    }
}

/// What a command asks of a document that describes an interface.
pub open spec fn openapi_asked(command: Seq<char>, workspace_open: bool) -> Result<
    OpenApiView,
    Seq<char>,
> {
    let parts = command_parts(command);
    let name = parts[0];
    if name == "list"@ {
        Ok(OpenApiView::List)
    } else if name == "markdown"@ {
        Ok(OpenApiView::Markdown)
    } else if name == "generate"@ {
        if !workspace_open {
            Err("No workspace is open"@)
        } else {
            match part_filled(parts, 1) {
                None => Err("generate requires operation id"@),
                Some(operation) => match part_filled(parts, 2) {
                    None => Err("generate requires destination request path"@),
                    Some(relative_path) => Ok(
                        OpenApiView::Generate {
                            operation,
                            relative_path,
                            server: part_filled(parts, 3),
                        },
                    ),
                },
            }
        }
    } else {
        Err(
            "unknown OpenAPI command '"@ + name
                + "'; use list, markdown, or generate|operation|path|server"@,
        )
    }
}

/// Reads what a command asks of a document that describes an interface.
pub fn read_openapi_command(command: &str, workspace_open: bool) -> (r: Result<
    OpenApiCommand,
    String,
>)
    ensures
        outcome(r) == openapi_asked(command@, workspace_open),
{
    let list = split_command(command);
    let parts = list.as_slice();
    assert(texts(parts@)[0] == parts@[0]@);
    let name = parts[0].as_str();
    if same_text(name, "list") {
        return Ok(OpenApiCommand::List);
    }
    if same_text(name, "markdown") {
        return Ok(OpenApiCommand::Markdown);
    }
    if !same_text(name, "generate") {
        return Err(
            concat3(
                "unknown OpenAPI command '",
                name,
                "'; use list, markdown, or generate|operation|path|server",
            ),
        );
    }
    if !workspace_open {
        return Err("No workspace is open".to_owned());
    }
    match copy_filled(parts, 1) {
        None => Err("generate requires operation id".to_owned()),
        Some(operation) => match copy_filled(parts, 2) {
            None => Err("generate requires destination request path".to_owned()),
            Some(relative_path) => Ok(
                OpenApiCommand::Generate {
                    operation,
                    relative_path,
                    server: copy_filled(parts, 3),
                },
            ),
        },
    }
}

/// What is asked of a mock server.
#[derive(Clone, Copy, Debug, PartialEq, Eq, Structural)]
pub enum MockCommand {
    Start,
    Logs,
    Stop,
}

/// What a command asks of a mock server, given whether one is running.
pub open spec fn mock_asked(command: Seq<char>, running: bool) -> Result<MockCommand, Seq<char>> {
    let name = trim(command);
    if name == "start"@ {
        if running {
            Err("mock server is already running"@)
        } else {
            Ok(MockCommand::Start)
        }
    } else if name == "logs"@ {
        if running {
            Ok(MockCommand::Logs)
        } else {
            Err("mock server is not running"@)
        }
    } else if name == "stop"@ {
        if running {
            Ok(MockCommand::Stop)
        } else {
            Err("mock server is not running"@)
        }
    } else {
        Err("unknown mock command '"@ + name + "'; use start, logs, or stop"@)
    }
}

/// Reads what a command asks of a mock server.
pub fn read_mock_command(command: &str, running: bool) -> (r: Result<MockCommand, String>)
    ensures
        said(r) == mock_asked(command@, running),
{
    let text = trim_text(command);
    let name = text.as_str();
    if same_text(name, "start") {
        if running {
            Err("mock server is already running".to_owned())
        } else {
            Ok(MockCommand::Start)
        }
    } else if same_text(name, "logs") {
        if running {
            Ok(MockCommand::Logs)
        } else {
            Err("mock server is not running".to_owned())
        }
    } else if same_text(name, "stop") {
        if running {
            Ok(MockCommand::Stop)
        } else {
            Err("mock server is not running".to_owned())
        }
    } else {
        Err(concat3("unknown mock command '", name, "'; use start, logs, or stop"))
    }
}

/// A request that a mock server answered: its method, its path and the status.
pub open spec fn mock_line(entry: (String, String, u16)) -> Seq<char> {
    entry.0@ + " "@ + entry.1@ + " -> "@ + decimal(entry.2 as nat)
}

/// Writes what a mock server answered, each in a line.
pub fn show_mock_log(list: &[(String, String, u16)]) -> (r: String)
    ensures
        r@ == join(list@.map_values(|e: (String, String, u16)| mock_line(e)), "\n"@),
{
    let mut lines: Vec<String> = Vec::new();
    for i in 0..list.len()
        invariant
            lines@.len() == i,
            forall|k: int| 0 <= k < i ==> (#[trigger] lines@[k])@ == mock_line(list@[k]),
    {
        lines.push(
            concat5(
                list[i].0.as_str(),
                " ",
                list[i].1.as_str(),
                " -> ",
                decimal_text(list[i].2 as u64).as_str(),
            ),
        );
    }
    assert(texts(lines@) =~= list@.map_values(|e: (String, String, u16)| mock_line(e)));
    join_texts(lines.as_slice(), "\n")
}

/// What is asked of Git.
#[derive(Clone, Debug, PartialEq, Eq)]
pub enum GitCommand {
    Status,
    Diff { staged: bool },
    Stage { path: String },
    Commit { message: String },
    Switch { branch: String, allow_dirty: bool },
}

/// What is asked of Git, by its contents.
pub enum GitView {
    Status,
    Diff { staged: bool },
    Stage { path: Seq<char> },
    Commit { message: Seq<char> },
    Switch { branch: Seq<char>, allow_dirty: bool },
}

impl View for GitCommand {
    type V = GitView;

    open spec fn view(&self) -> GitView {
        match self {
            GitCommand::Status => GitView::Status,
            GitCommand::Diff { staged } => GitView::Diff { staged: *staged },
            GitCommand::Stage { path } => GitView::Stage { path: path@ },
            GitCommand::Commit { message } => GitView::Commit { message: message@ },
            GitCommand::Switch { branch, allow_dirty } => GitView::Switch {
                branch: branch@,
                allow_dirty: *allow_dirty,
            },
        }
    }
}

/// What a command asks of Git.
pub open spec fn git_asked(command: Seq<char>) -> Result<GitView, Seq<char>> {
    let parts = command_parts(command);
    let name = parts[0];
    if name == "status"@ {
        Ok(GitView::Status)
    } else if name == "diff"@ {
        Ok(GitView::Diff { staged: false })
    } else if name == "diff staged"@ {
        Ok(GitView::Diff { staged: true })
    } else if name == "stage"@ {
        match part_given(parts, 1) {
            None => Err("stage requires a relative path"@),
            Some(path) => Ok(GitView::Stage { path }),
        }
    } else if name == "commit"@ {
        match part_given(parts, 1) {
            None => Err("commit requires a message"@),
            Some(message) => Ok(GitView::Commit { message }),
        }
    } else if name == "switch"@ {
        match part_given(parts, 1) {
            None => Err("switch requires a branch"@),
            Some(branch) => match part_given(parts, 2) {
                None => Ok(GitView::Switch { branch, allow_dirty: false }),
                Some(word) => match truth(word) {
                    None => Err("allow_dirty must be true or false"@),
                    Some(allow_dirty) => Ok(GitView::Switch { branch, allow_dirty }),
                },
            },
        }
    } else {
        Err("unknown Git command '"@ + name + "'"@)
    }
}

/// Reads what a command asks of Git.
pub fn read_git_command(command: &str) -> (r: Result<GitCommand, String>)
    ensures
        outcome(r) == git_asked(command@),
{
    let list = split_command(command);
    let parts = list.as_slice();
    assert(texts(parts@)[0] == parts@[0]@);
    let name = parts[0].as_str();
    if same_text(name, "status") {
        Ok(GitCommand::Status)
    } else if same_text(name, "diff") {
        Ok(GitCommand::Diff { staged: false })
    } else if same_text(name, "diff staged") {
        Ok(GitCommand::Diff { staged: true })
    } else if same_text(name, "stage") {
        match copy_part(parts, 1) {
            None => Err("stage requires a relative path".to_owned()),
            Some(path) => Ok(GitCommand::Stage { path }),
        }
    } else if same_text(name, "commit") {
        match copy_part(parts, 1) {
            None => Err("commit requires a message".to_owned()),
            Some(message) => Ok(GitCommand::Commit { message }),
        }
    } else if same_text(name, "switch") {
        match copy_part(parts, 1) {
            None => Err("switch requires a branch".to_owned()),
            Some(branch) => match copy_part(parts, 2) {
                None => Ok(GitCommand::Switch { branch, allow_dirty: false }),
                Some(word) => match read_truth(word.as_str()) {
                    None => Err("allow_dirty must be true or false".to_owned()),
                    Some(allow_dirty) => Ok(GitCommand::Switch { branch, allow_dirty }),
                },
            },
        }
    } else {
        Err(concat3("unknown Git command '", name, "'"))
    }
}

/// What is said of the state of a working tree.
pub open spec fn git_status_text(branch: Option<Seq<char>>, entries: Seq<Seq<char>>) -> Seq<char> {
    "branch="@ + (match branch {
        Some(b) => b,
        None => "detached"@,
    }) + "\n"@ + join(entries, "\n"@)
}

/// Writes what is said of the state of a working tree.
pub fn show_git_status(branch: &Option<String>, entries: &[String]) -> (r: String)
    ensures
        r@ == git_status_text(optional_text(*branch), texts(entries@)),
{
    concat4(
        "branch=",
        match branch {
            Some(b) => b.as_str(),
            None => "detached",
        },
        "\n",
        join_texts(entries, "\n").as_str(),
    )
}

/// What a plugin may do.
#[derive(Clone, Copy, Debug, PartialEq, Eq, Structural)]
pub enum PluginCapability {
    Importer,
    Exporter,
    Generator,
    Assertion,
    Viewer,
    Authentication,
}

/// What a word lets a plugin do, without regard to case.
pub open spec fn capability_of(text: Seq<char>) -> Result<PluginCapability, Seq<char>> {
    let word = ascii_lowercase(trim(text));
    if word == "importer"@ {
        Ok(PluginCapability::Importer)
    } else if word == "exporter"@ {
        Ok(PluginCapability::Exporter)
    } else if word == "generator"@ {
        Ok(PluginCapability::Generator)
    } else if word == "assertion"@ {
        Ok(PluginCapability::Assertion)
    } else if word == "viewer"@ {
        Ok(PluginCapability::Viewer)
    } else if word == "authentication"@ {
        Ok(PluginCapability::Authentication)
    } else {
        Err("unknown plugin capability '"@ + word + "'"@)
    }
}

/// Reads what a word lets a plugin do.
pub fn parse_plugin_capability(value: &str) -> (r: Result<PluginCapability, String>)
    ensures
        said(r) == capability_of(value@),
{
    let chars = chars_of(value);
    let word = string_of(to_ascii_lower(trim_chars(chars.as_slice())).as_slice());
    let name = word.as_str();
    if same_text(name, "importer") {
        Ok(PluginCapability::Importer)
    } else if same_text(name, "exporter") {
        Ok(PluginCapability::Exporter)
    } else if same_text(name, "generator") {
        Ok(PluginCapability::Generator)
    } else if same_text(name, "assertion") {
        Ok(PluginCapability::Assertion)
    } else if same_text(name, "viewer") {
        Ok(PluginCapability::Viewer)
    } else if same_text(name, "authentication") {
        Ok(PluginCapability::Authentication)
    } else {
        Err(concat3("unknown plugin capability '", name, "'"))
    }
}

/// What some words let a plugin do, up to the first that is none.
pub open spec fn capabilities_of(list: Seq<Seq<char>>) -> Result<Seq<PluginCapability>, Seq<char>>
    decreases list.len(),
{
    if list.len() == 0 {
        Ok(seq![])
    } else {
        match capabilities_of(list.drop_last()) {
            Err(e) => Err(e),
            Ok(front) => match capability_of(list.last()) {
                Err(e) => Err(e),
                Ok(c) => Ok(front.push(c)),
            },
        }
    }
}

proof fn lemma_capabilities_error(list: Seq<Seq<char>>, k: int)
    requires
        0 <= k <= list.len(),
        capabilities_of(list.take(k)) is Err,
    ensures
        capabilities_of(list) == capabilities_of(list.take(k)),
    decreases list.len() - k,
{
    if k < list.len() {
        assert(list.take(k + 1).drop_last() =~= list.take(k));
        lemma_capabilities_error(list, k + 1);
    } else {
        assert(list.take(k) =~= list);
    }
}

fn read_capabilities(list: &[String]) -> (r: Result<Vec<PluginCapability>, String>)
    ensures
        match r {
            Ok(v) => capabilities_of(texts(list@)) == Ok::<Seq<PluginCapability>, Seq<char>>(v@),
            Err(e) => capabilities_of(texts(list@)) == Err::<Seq<PluginCapability>, Seq<char>>(e@),
        },
{
    let ghost all = texts(list@);
    let mut r: Vec<PluginCapability> = Vec::new();
    assert(all.take(0) =~= seq![]);
    for i in 0..list.len()
        invariant
            all == texts(list@),
            capabilities_of(all.take(i as int)) == Ok::<Seq<PluginCapability>, Seq<char>>(r@),
    {
        proof {
            assert(all[i as int] == list@[i as int]@);
            assert(all.take(i + 1).drop_last() =~= all.take(i as int));
            assert(all.take(i + 1).last() == all[i as int]);
        }
        match parse_plugin_capability(list[i].as_str()) {
            Ok(c) => {
                r.push(c);
            },
            Err(e) => {
                proof {
                    lemma_capabilities_error(all, i + 1);
                }
                return Err(e);
            },
        }
    }
    assert(all.take(list@.len() as int) =~= all);
    Ok(r)
}

/// What is asked of plugins.
#[derive(Clone, Debug, PartialEq, Eq)]
pub enum PluginCommand {
    Validate { module: String, approved: Vec<PluginCapability> },
    Invoke { point: PluginCapability },
}

/// What is asked of plugins, by its contents.
pub enum PluginView {
    Validate { module: Seq<char>, approved: Seq<PluginCapability> },
    Invoke { point: PluginCapability },
}

impl View for PluginCommand {
    type V = PluginView;

    open spec fn view(&self) -> PluginView {
        match self {
            PluginCommand::Validate { module, approved } => PluginView::Validate {
                module: module@,
                approved: approved@,
            },
            PluginCommand::Invoke { point } => PluginView::Invoke { point: *point },
        }
    }
}

/// What a command asks of plugins, given whether one was found valid.
pub open spec fn plugin_asked(command: Seq<char>, validated: bool) -> Result<PluginView, Seq<char>> {
    let parts = command_parts(command);
    let name = parts[0];
    if name == "validate"@ {
        match part_given(parts, 1) {
            None => Err("validate requires module path"@),
            Some(module) => match capabilities_of(
                items_in(
                    match part_given(parts, 2) {
                        Some(t) => t,
                        None => Seq::empty(),
                    },
                    ',',
                ),
            ) {
                Err(e) => Err(e),
                Ok(approved) => Ok(PluginView::Validate { module, approved }),
            },
        }
    } else if name == "invoke"@ {
        match part_given(parts, 1) {
            None => Err("invoke requires extension point"@),
            Some(word) => match capability_of(word) {
                Err(e) => Err(e),
                Ok(point) => if validated {
                    Ok(PluginView::Invoke { point })
                } else {
                    Err("validate a plugin first"@)
                },
            },
        }
    } else {
        Err("unknown plugin command '"@ + name + "'; use validate or invoke"@)
    }
}

/// Reads what a command asks of plugins.
pub fn read_plugin_command(command: &str, validated: bool) -> (r: Result<PluginCommand, String>)
    ensures
        outcome(r) == plugin_asked(command@, validated),
{
    let list = split_command(command);
    let parts = list.as_slice();
    assert(texts(parts@)[0] == parts@[0]@);
    let name = parts[0].as_str();
    if same_text(name, "validate") {
        let module = match copy_part(parts, 1) {
            None => {
                return Err("validate requires module path".to_owned());
            },
            Some(p) => p,
        };
        let words = match copy_part(parts, 2) {
            Some(t) => t,
            None => {
                let t = String::new();
                assert(t@ =~= Seq::empty());
                t
            },
        };
        let items = find_items(words.as_str(), ',');
        match read_capabilities(items.as_slice()) {
            Err(e) => Err(e),
            Ok(approved) => Ok(PluginCommand::Validate { module, approved }),
        }
    } else if same_text(name, "invoke") {
        match copy_part(parts, 1) {
            None => Err("invoke requires extension point".to_owned()),
            Some(word) => match parse_plugin_capability(word.as_str()) {
                Err(e) => Err(e),
                Ok(point) => if validated {
                    Ok(PluginCommand::Invoke { point })
                } else {
                    Err("validate a plugin first".to_owned())
                },
            },
        }
    } else {
        Err(concat3("unknown plugin command '", name, "'; use validate or invoke"))
    }
}

/// What is asked of an assistant: to be shown what would be sent, or to send it under the token
/// that was shown with it.
#[derive(Clone, Debug, PartialEq, Eq)]
pub enum AiCommand {
    Preview,
    Confirm { token: String },
}

/// What is asked of an assistant, by its contents.
pub enum AiView {
    Preview,
    Confirm { token: Seq<char> },
}

impl View for AiCommand {
    type V = AiView;

    open spec fn view(&self) -> AiView {
        match self {
            AiCommand::Preview => AiView::Preview,
            AiCommand::Confirm { token } => AiView::Confirm { token: token@ },
        }
    }
}

/// What a command asks of an assistant, given whether something was shown.
pub open spec fn ai_asked(command: Seq<char>, previewed: bool) -> Result<AiView, Seq<char>> {
    let name = trim(command);
    if name == "preview"@ {
        Ok(AiView::Preview)
    } else if starts_with(name, "confirm:"@) {
        if previewed {
            Ok(AiView::Confirm { token: name })
        } else {
            Err("preview an AI payload first"@)
        }
    } else {
        Err(
            "unknown AI command '"@ + name + "'; use preview, then the emitted confirm: token"@,
        )
    }
}

/// Reads what a command asks of an assistant.
pub fn read_ai_command(command: &str, previewed: bool) -> (r: Result<AiCommand, String>)
    ensures
        outcome(r) == ai_asked(command@, previewed),
{
    let name = trim_text(command);
    if same_text(name.as_str(), "preview") {
        return Ok(AiCommand::Preview);
    }
    let chars = chars_of(name.as_str());
    let prefix = chars_of("confirm:");
    if has_prefix(chars.as_slice(), prefix.as_slice()) {
        if previewed {
            Ok(AiCommand::Confirm { token: name })
        } else {
            Err("preview an AI payload first".to_owned())
        }
    } else {
        Err(
            concat3(
                "unknown AI command '",
                name.as_str(),
                "'; use preview, then the emitted confirm: token",
            ),
        )
    }
}

/// What is asked of a GraphQL request.
#[derive(Clone, Copy, Debug, PartialEq, Eq, Structural)]
pub enum GraphqlCommand {
    Validate,
    Build,
}

/// What a command asks of a GraphQL request.
pub open spec fn graphql_asked(command: Seq<char>) -> Result<GraphqlCommand, Seq<char>> {
    let name = trim(command);
    if name == "validate"@ {
        Ok(GraphqlCommand::Validate)
    } else if name == "build"@ {
        Ok(GraphqlCommand::Build)
    } else {
        Err("unknown GraphQL command '"@ + name + "'; use validate or build"@)
    }
}

/// Reads what a command asks of a GraphQL request.
pub fn read_graphql_command(command: &str) -> (r: Result<GraphqlCommand, String>)
    ensures
        said(r) == graphql_asked(command@),
{
    let text = trim_text(command);
    let name = text.as_str();
    if same_text(name, "validate") {
        Ok(GraphqlCommand::Validate)
    } else if same_text(name, "build") {
        Ok(GraphqlCommand::Build)
    } else {
        Err(concat3("unknown GraphQL command '", name, "'; use validate or build"))
    }
}

/// Where an event of a stream comes from.
#[derive(Clone, Copy, Debug, PartialEq, Eq, Structural)]
pub enum StreamDirection {
    Incoming,
    Outgoing,
    System,
}

/// What is asked of the log of a stream.
#[derive(Clone, Debug, PartialEq, Eq)]
pub enum StreamCommand {
    NewWebSocket,
    NewServerSentEvents,
    Connect,
    Disconnect { reason: String },
    Push { direction: StreamDirection, event_type: Option<String>, data: String },
    Filter { needle: String },
    Export,
}

/// What is asked of the log of a stream, by its contents.
pub enum StreamView {
    NewWebSocket,
    NewServerSentEvents,
    Connect,
    Disconnect { reason: Seq<char> },
    Push { direction: StreamDirection, event_type: Option<Seq<char>>, data: Seq<char> },
    Filter { needle: Seq<char> },
    Export,
}

impl View for StreamCommand {
    type V = StreamView;

    open spec fn view(&self) -> StreamView {
        match self {
            StreamCommand::NewWebSocket => StreamView::NewWebSocket,
            StreamCommand::NewServerSentEvents => StreamView::NewServerSentEvents,
            StreamCommand::Connect => StreamView::Connect,
            StreamCommand::Disconnect { reason } => StreamView::Disconnect { reason: reason@ },
            StreamCommand::Push { direction, event_type, data } => StreamView::Push {
                direction: *direction,
                event_type: optional_text(*event_type),
                data: data@,
            },
            StreamCommand::Filter { needle } => StreamView::Filter { needle: needle@ },
            StreamCommand::Export => StreamView::Export,
        }
    }
}

/// A part of a command, or what stands in its place.
pub open spec fn part_or(parts: Seq<Seq<char>>, index: int, other: Seq<char>) -> Seq<char> {
    match part_given(parts, index) {
        Some(t) => t,
        None => other,
    }
}

/// The direction that a command gives an event.
pub open spec fn direction_named(name: Seq<char>) -> Option<StreamDirection> {
    if name == "push incoming"@ {
        Some(StreamDirection::Incoming)
    } else if name == "push outgoing"@ {
        Some(StreamDirection::Outgoing)
    } else if name == "push system"@ {
        Some(StreamDirection::System)
    } else {
        None
    }
}

/// What a command asks of the log of a stream, given whether there is one.
pub open spec fn stream_asked(command: Seq<char>, has_log: bool) -> Result<StreamView, Seq<char>> {
    let parts = command_parts(command);
    let name = parts[0];
    if name == "new websocket"@ {
        Ok(StreamView::NewWebSocket)
    } else if name == "new sse"@ {
        Ok(StreamView::NewServerSentEvents)
    } else if name == "connect"@ || name == "disconnect"@ || direction_named(name) is Some || name
        == "filter"@ || name == "export"@ {
        if !has_log {
            Err("create a stream log first"@)
        } else if name == "connect"@ {
            Ok(StreamView::Connect)
        } else if name == "disconnect"@ {
            Ok(StreamView::Disconnect { reason: part_or(parts, 1, "user requested"@) })
        } else if direction_named(name) is Some {
            Ok(
                StreamView::Push {
                    direction: direction_named(name)->Some_0,
                    event_type: part_filled(parts, 1),
                    data: part_or(parts, 2, Seq::empty()),
                },
            )
        } else if name == "filter"@ {
            Ok(StreamView::Filter { needle: part_or(parts, 1, Seq::empty()) })
        } else {
            Ok(StreamView::Export)
        }
    } else {
        Err("unknown stream command '"@ + name + "'"@)
    }
}

fn find_direction(name: &str) -> (r: Option<StreamDirection>)
    ensures
        r == direction_named(name@),
{
    if same_text(name, "push incoming") {
        Some(StreamDirection::Incoming)
    } else if same_text(name, "push outgoing") {
        Some(StreamDirection::Outgoing)
    } else if same_text(name, "push system") {
        Some(StreamDirection::System)
    } else {
        None
    }
}

fn copy_part_or_nothing(parts: &[String], index: usize) -> (r: String)
    ensures
        r@ == part_or(texts(parts@), index as int, Seq::empty()),
{
    match copy_part(parts, index) {
        Some(t) => t,
        None => {
            let t = String::new();
            assert(t@ =~= Seq::empty());
            t
        },
    }
}

/// Reads what a command asks of the log of a stream.
pub fn read_stream_command(command: &str, has_log: bool) -> (r: Result<StreamCommand, String>)
    ensures
        outcome(r) == stream_asked(command@, has_log),
{
    let list = split_command(command);
    let parts = list.as_slice();
    assert(texts(parts@)[0] == parts@[0]@);
    let name = parts[0].as_str();
    if same_text(name, "new websocket") {
        return Ok(StreamCommand::NewWebSocket);
    }
    if same_text(name, "new sse") {
        return Ok(StreamCommand::NewServerSentEvents);
    }
    let connect = same_text(name, "connect");
    let disconnect = same_text(name, "disconnect");
    let direction = find_direction(name);
    let filter = same_text(name, "filter");
    let export = same_text(name, "export");
    if !connect && !disconnect && direction.is_none() && !filter && !export {
        return Err(concat3("unknown stream command '", name, "'"));
    }
    if !has_log {
        return Err("create a stream log first".to_owned());
    }
    if connect {
        return Ok(StreamCommand::Connect);
    }
    if disconnect {
        let reason = match copy_part(parts, 1) {
            Some(t) => t,
            None => "user requested".to_owned(),
        };
        return Ok(StreamCommand::Disconnect { reason });
    }
    if let Some(direction) = direction {
        return Ok(
            StreamCommand::Push {
                direction,
                event_type: copy_filled(parts, 1),
                data: copy_part_or_nothing(parts, 2),
            },
        );
    }
    if filter {
        return Ok(StreamCommand::Filter { needle: copy_part_or_nothing(parts, 1) });
    }
    Ok(StreamCommand::Export)
}

/// What is asked of a gRPC request.
#[derive(Clone, Debug, PartialEq, Eq)]
pub enum GrpcCommand {
    Reflection { service: String },
    Validate,
}

/// What is asked of a gRPC request, by its contents.
pub enum GrpcView {
    Reflection { service: Seq<char> },
    Validate,
}

impl View for GrpcCommand {
    type V = GrpcView;

    open spec fn view(&self) -> GrpcView {
        match self {
            GrpcCommand::Reflection { service } => GrpcView::Reflection { service: service@ },
            GrpcCommand::Validate => GrpcView::Validate,
        }
    }
}

/// What a command asks of a gRPC request.
pub open spec fn grpc_asked(command: Seq<char>) -> Result<GrpcView, Seq<char>> {
    let name = trim(command);
    let prefix = "reflection|"@;
    if starts_with(name, prefix) {
        Ok(GrpcView::Reflection { service: name.skip(prefix.len() as int) })
    } else if name == "validate"@ {
        Ok(GrpcView::Validate)
    } else {
        Err("unknown gRPC command '"@ + name + "'; use validate or reflection|service"@)
    }
}

/// Reads what a command asks of a gRPC request.
pub fn read_grpc_command(command: &str) -> (r: Result<GrpcCommand, String>)
    ensures
        outcome(r) == grpc_asked(command@),
{
    let name = trim_text(command);
    let chars = chars_of(name.as_str());
    let prefix = chars_of("reflection|");
    if has_prefix(chars.as_slice(), prefix.as_slice()) {
        let rest = slice_subrange(chars.as_slice(), prefix.len(), chars.len());
        assert(rest@ =~= name@.skip(prefix@.len() as int));
        Ok(GrpcCommand::Reflection { service: string_of(rest) })
    } else if same_text(name.as_str(), "validate") {
        Ok(GrpcCommand::Validate)
    } else {
        Err(
            concat3(
                "unknown gRPC command '",
                name.as_str(),
                "'; use validate or reflection|service",
            ),
        )
    }
}

/// Nothing is sent to an assistant that was not shown before.
pub proof fn law_assistants_get_what_was_shown(command: Seq<char>)
    ensures
        !(ai_asked(command, false) matches Ok(AiView::Confirm { .. })),
{
}

/// No plugin is invoked that was not found valid.
pub proof fn law_plugins_are_valid_before_they_run(command: Seq<char>)
    ensures
        !(plugin_asked(command, false) matches Ok(PluginView::Invoke { .. })),
{
}

} // verus!
