//! What the tools of a workspace answer, and what they do to it.
use crate::document_store::{plain_document, DocumentStore, StoreView};
use crate::error::{error_message, outcome};
use crate::files::{FileTree, FilesView};
use crate::import_export::{generated_request, request_generated, GeneratedRequest};
use crate::lines::{join, join_texts};
use crate::message::{concat2, concat3};
use crate::number::{decimal, decimal_text};
use crate::paths::ResourcePath;
use crate::repository::WorkspaceRepository;
use crate::repository_documents::request_saved;
use crate::request::RequestDocument;
use crate::request_panel::{applied, PanelView, RequestPanel};
use crate::search::{SearchQuery, SearchResult};
use crate::text::texts;
use crate::tool_commands::{GitCommand, GitView, MockCommand, StreamCommand, StreamView};
use crate::workspace_operation::{
    operation_path, path_or_reason, workspace_relative_path, Ancestry, AncestryView,
};
use vstd::prelude::*;

verus! {

/// How many results of a search are shown.
pub const SEARCH_LIMIT: usize = 100;

/// What is known of a path, where anything is.
pub open spec fn known(ancestry: Option<&Ancestry>) -> Option<AncestryView> {
    match ancestry {
        Some(a) => Some(a@),
        None => None,
    }
}

/// The root of a workspace, where one is open.
pub open spec fn open_root(repository: Option<&WorkspaceRepository>) -> Option<Seq<char>> {
    match repository {
        Some(r) => Some(r@),
        None => None,
    }
}

/// Where imported requests go: nowhere unless a workspace is open and the import has been
/// looked at and holds no error.
pub open spec fn import_target(
    root: Option<Seq<char>>,
    errors: Option<bool>,
    destination: Seq<char>,
    ancestry: Option<AncestryView>,
) -> Result<Seq<char>, Seq<char>> {
    match root {
        None => Err("No workspace is open"@),
        Some(root) => match errors {
            None => Err("Preview the import first"@),
            Some(true) => Err("Import diagnostics contain errors; no files were written"@),
            Some(false) => operation_path(root, destination, ancestry),
        },
    }
}

/// Finds where imported requests go. `errors` tells, of an import that has been looked at,
/// whether it holds errors.
pub fn find_import_target(
    repository: Option<&WorkspaceRepository>,
    errors: Option<bool>,
    destination: &str,
    ancestry: Option<&Ancestry>,
) -> (r: Result<ResourcePath, String>)
    ensures
        path_or_reason(r) == import_target(
            open_root(repository),
            errors,
            destination@,
            known(ancestry),
        ),
{
    match repository {
        None => Err("No workspace is open".to_owned()),
        Some(repository) => match errors {
            None => Err("Preview the import first".to_owned()),
            Some(true) => Err(
                "Import diagnostics contain errors; no files were written".to_owned(),
            ),
            Some(false) => workspace_relative_path(repository, destination, ancestry),
        },
    }
}

/// Where generated code goes: nowhere unless a workspace is open and there is code, and never
/// over a file that is there.
pub open spec fn code_place(
    root: Option<Seq<char>>,
    generated: bool,
    destination: Seq<char>,
    ancestry: Option<AncestryView>,
    taken: bool,
) -> Result<Seq<char>, Seq<char>> {
    match root {
        None => Err("No workspace is open"@),
        Some(root) => if !generated {
            Err("Generate code first"@)
        } else {
            match operation_path(root, destination, ancestry) {
                Err(e) => Err(e),
                Ok(path) => if taken {
                    Err("Refusing to overwrite "@ + path)
                } else {
                    Ok(path)
                },
            }
        },
    }
}

/// Finds where generated code goes. `taken` tells whether something is there.
pub fn find_code_place(
    repository: Option<&WorkspaceRepository>,
    generated: bool,
    destination: &str,
    ancestry: Option<&Ancestry>,
    taken: bool,
) -> (r: Result<ResourcePath, String>)
    ensures
        path_or_reason(r) == code_place(
            open_root(repository),
            generated,
            destination@,
            known(ancestry),
            taken,
        ),
{
    match repository {
        None => Err("No workspace is open".to_owned()),
        Some(repository) => if !generated {
            Err("Generate code first".to_owned())
        } else {
            match workspace_relative_path(repository, destination, ancestry) {
                Err(e) => Err(e),
                Ok(path) => if taken {
                    Err(concat2("Refusing to overwrite ", path.as_text()))
                } else {
                    Ok(path)
                },
            }
        },
    }
}

/// The panel and the files once a request has been made of an operation of an interface, and
/// what the user is told. The request is written as a new file and then edited.
pub open spec fn generated_opened(
    v: PanelView,
    files: FilesView,
    root: Seq<char>,
    operation: Seq<char>,
    relative_path: Seq<char>,
    generated: GeneratedRequest,
    ancestry: Option<AncestryView>,
    leaks: Seq<Seq<char>>,
) -> (Result<Seq<char>, Seq<char>>, FilesView, PanelView) {
    match request_generated(operation, relative_path, generated) {
        Err(e) => (Err(e), files, v),
        Ok(request) => match operation_path(root, relative_path, ancestry) {
            Err(e) => (Err(e), files, v),
            Ok(path) => {
                let (saved, after) = request_saved(
                    files,
                    root,
                    path,
                    plain_document(request),
                    None,
                    leaks,
                );
                match saved {
                    Err(e) => (Err(error_message(e)), after, v),
                    Ok(fingerprint) => (
                        Ok("Generated and opened OpenAPI operation '"@ + operation + "'"@),
                        after,
                        applied(v, request, StoreView { root, path }, fingerprint),
                    ),
                }
            },
        },
    }
}

impl RequestPanel {
    /// Makes a request of an operation of an interface, writes it and edits it.
    pub fn open_generated(
        &mut self,
        repository: &WorkspaceRepository,
        files: &mut FileTree,
        operation: &str,
        relative_path: &str,
        generated: GeneratedRequest,
        ancestry: Option<&Ancestry>,
        leaks: &[String],
    ) -> (r: Result<String, String>)
        requires
            old(self).wf(),
            old(files).wf(),
        ensures
            final(self).wf(),
            final(files).wf(),
            (outcome(r), final(files)@, final(self)@) == generated_opened(
                old(self)@,
                old(files)@,
                repository@,
                operation@,
                relative_path@,
                generated,
                known(ancestry),
                texts(leaks@),
            ),
    {
        let request = match generated_request(operation, relative_path, generated) {
            Ok(r) => r,
            Err(e) => {
                return Err(e);
            },
        };
        let path = match workspace_relative_path(repository, relative_path, ancestry) {
            Ok(p) => p,
            Err(e) => {
                return Err(e);
            },
        };
        let document = RequestDocument::new(request.copy());
        match repository.save_request(files, &path, &document, None, leaks) {
            Err(e) => Err(e.message()),
            Ok(fingerprint) => {
                self.apply_request(
                    request,
                    DocumentStore::new(repository.copy(), path),
                    fingerprint,
                );
                Ok(concat3("Generated and opened OpenAPI operation '", operation, "'"))
            },
        }
    }
}

/// What is told of the places in a description that cannot be read.
pub open spec fn diagnostic_lines(list: Seq<(String, String)>) -> Seq<Seq<char>> {
    list.map_values(|d: (String, String)| d.0@ + ": "@ + d.1@)
}

/// Tells of the places in a description that cannot be read, each with the reason.
pub fn show_diagnostics(list: &[(String, String)]) -> (r: String)
    ensures
        r@ == join(diagnostic_lines(list@), "\n"@),
{
    let mut lines: Vec<String> = Vec::new();
    for i in 0..list.len()
        invariant
            lines@.len() == i,
            forall|k: int|
                0 <= k < i ==> (#[trigger] lines@[k])@ == diagnostic_lines(list@)[k],
    {
        lines.push(concat3(list[i].0.as_str(), ": ", list[i].1.as_str()));
    }
    assert(texts(lines@) =~= diagnostic_lines(list@));
    join_texts(lines.as_slice(), "\n")
}

/// What is told once a mock server has done what it was asked: its address once it has been
/// started, or its log.
pub open spec fn mock_reply(command: MockCommand, output: Seq<char>) -> Seq<char> {
    match command {
        MockCommand::Start => "Mock server listening on http://"@ + output,
        MockCommand::Logs => output,
        MockCommand::Stop => "Mock server stopped"@,
    }
}

/// Tells that a mock server has done what it was asked. `output` is its address once it has
/// been started, or its log.
pub fn show_mock_reply(command: MockCommand, output: String) -> (r: String)
    ensures
        r@ == mock_reply(command, output@),
{
    match command {
        MockCommand::Start => concat2("Mock server listening on http://", output.as_str()),
        MockCommand::Logs => output,
        MockCommand::Stop => "Mock server stopped".to_owned(),
    }
}

/// What is told once Git has done what it was asked and printed something.
pub open spec fn git_reply(command: GitView, output: Seq<char>) -> Seq<char> {
    match command {
        GitView::Stage { path } => "Staged "@ + path,
        GitView::Switch { branch, allow_dirty: _ } => "Switched to "@ + branch,
        _ => output,
    }
}

/// Tells that Git has done what it was asked. `output` is what it printed.
pub fn show_git_reply(command: &GitCommand, output: String) -> (r: String)
    ensures
        r@ == git_reply(command@, output@),
{
    match command {
        GitCommand::Stage { path } => concat2("Staged ", path.as_str()),
        GitCommand::Switch { branch, allow_dirty: _ } => concat2("Switched to ", branch.as_str()),
        _ => output,
    }
}

/// What is told once the log of a stream has taken a command: what was found in it, or that it
/// was changed.
pub open spec fn stream_reply(command: StreamView, output: Seq<char>) -> Seq<char> {
    match command {
        StreamView::NewWebSocket => "Created bounded WebSocket session log"@,
        StreamView::NewServerSentEvents => "Created bounded SSE session log"@,
        StreamView::Connect => "Stream session marked connected"@,
        StreamView::Disconnect { reason: _ } => "Stream session disconnected"@,
        StreamView::Push { direction: _, event_type: _, data: _ } => "Stream event appended"@,
        StreamView::Filter { needle: _ } => output,
        StreamView::Export => output,
    }
}

/// Tells that the log of a stream has taken a command. `output` is what was found in it.
pub fn show_stream_reply(command: &StreamCommand, output: String) -> (r: String)
    ensures
        r@ == stream_reply(command@, output@),
{
    match command {
        StreamCommand::NewWebSocket => "Created bounded WebSocket session log".to_owned(),
        StreamCommand::NewServerSentEvents => "Created bounded SSE session log".to_owned(),
        StreamCommand::Connect => "Stream session marked connected".to_owned(),
        StreamCommand::Disconnect { reason: _ } => "Stream session disconnected".to_owned(),
        StreamCommand::Push { direction: _, event_type: _, data: _ } => {
            "Stream event appended".to_owned()
        },
        StreamCommand::Filter { needle: _ } => output,
        StreamCommand::Export => output,
    }
}

/// What a search for a text asks for: whole words and parts of words in all fields.
pub fn search_for(text: String) -> (r: SearchQuery)
    ensures
        r.text == text,
        !r.exact,
        r.method is None,
        r.field is None,
        r.limit == Some(SEARCH_LIMIT),
{
    SearchQuery { text, exact: false, method: None, field: None, limit: Some(SEARCH_LIMIT) }
}

/// Tells how much a search found.
pub fn show_found(results: &[SearchResult]) -> (r: String)
    ensures
        r@ == decimal(results@.len()) + " search result(s)"@,
{
    concat2(decimal_text(results.len() as u64).as_str(), " search result(s)")
}

/// Generated code is never put where something stands already, nor outside the workspace.
pub proof fn law_generated_code_overwrites_nothing(
    root: Option<Seq<char>>,
    generated: bool,
    destination: Seq<char>,
    ancestry: Option<AncestryView>,
    taken: bool,
)
    ensures
        code_place(root, generated, destination, ancestry, taken) is Ok ==> !taken && root is Some
            && generated && code_place(root, generated, destination, ancestry, taken)
            == operation_path(root->Some_0, destination, ancestry),
{
}

/// A generated request that could not be written is not edited: the panel stays as it was.
pub proof fn law_unwritten_requests_are_not_edited(
    v: PanelView,
    files: FilesView,
    root: Seq<char>,
    operation: Seq<char>,
    relative_path: Seq<char>,
    generated: GeneratedRequest,
    ancestry: Option<AncestryView>,
    leaks: Seq<Seq<char>>,
)
    ensures
        ({
            let (r, _, after) = generated_opened(
                v,
                files,
                root,
                operation,
                relative_path,
                generated,
                ancestry,
                leaks,
            );
            r is Err ==> after == v
        }),
{
}

} // verus!
