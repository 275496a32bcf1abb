//! Requests that come from elsewhere, and code that is made of requests.
use crate::domain::{
    domain_message, header_check, header_views, parse_id, parse_method, BodyView, FormFieldView,
    HeaderEntry, HttpMethod, HttpRequest, RequestBody, RequestView, StableId, ValueSensitivity,
};
use crate::editor::{default_request, draft_request};
use crate::editor_fields::said;
use crate::error::{error_message, outcome};
use crate::files::{FileTree, FilesView};
use crate::lines::{join, join_texts};
use crate::message::{concat2, concat3, concat4, concat5};
use crate::number::{decimal, decimal_text};
use crate::paths::{components, joined, last_name, strip_suffix, without_suffix, ResourcePath};
use crate::repository::WorkspaceRepository;
use crate::repository_documents::{leak_views, scanned_request_saved};
use crate::request::{RequestDocument, RequestDocumentView};
use crate::text::{optional_text, same_text, texts, trim, trim_text};
use vstd::prelude::*;

verus! {

/// What code can be made for.
#[derive(Clone, Copy, Debug, PartialEq, Eq, Structural)]
pub enum CodeTarget {
    Curl,
    Httpie,
    RustReqwest,
    PythonRequests,
    GoNetHttp,
}

/// What a word says that code is made for.
pub open spec fn target_named(text: Seq<char>) -> Result<CodeTarget, Seq<char>> {
    let word = trim(text);
    if word == "curl"@ {
        Ok(CodeTarget::Curl)
    } else if word == "httpie"@ {
        Ok(CodeTarget::Httpie)
    } else if word == "rust-reqwest"@ {
        Ok(CodeTarget::RustReqwest)
    } else if word == "python-requests"@ {
        Ok(CodeTarget::PythonRequests)
    } else if word == "go-net-http"@ {
        Ok(CodeTarget::GoNetHttp)
    } else {
        Err("unknown code target '"@ + word + "'"@)
    }
}

/// Reads what code is made for.
pub fn code_target(value: &str) -> (r: Result<CodeTarget, String>)
    ensures
        said(r) == target_named(value@),
{
    let text = trim_text(value);
    let word = text.as_str();
    if same_text(word, "curl") {
        Ok(CodeTarget::Curl)
    } else if same_text(word, "httpie") {
        Ok(CodeTarget::Httpie)
    } else if same_text(word, "rust-reqwest") {
        Ok(CodeTarget::RustReqwest)
    } else if same_text(word, "python-requests") {
        Ok(CodeTarget::PythonRequests)
    } else if same_text(word, "go-net-http") {
        Ok(CodeTarget::GoNetHttp)
    } else {
        Err(concat3("unknown code target '", word, "'"))
    }
}

/// What is shown of code that was made: the warnings, each in a line, and then the code.
pub open spec fn code_shown(warnings: Seq<Seq<char>>, code: Seq<char>) -> Seq<char> {
    join(warnings.map_values(|w: Seq<char>| "Warning: "@ + w).push(code), "\n"@)
}

/// Writes what is shown of code that was made.
pub fn show_code(warnings: &[String], code: &str) -> (r: String)
    ensures
        r@ == code_shown(texts(warnings@), code@),
{
    let ghost all = texts(warnings@);
    let mut lines: Vec<String> = Vec::new();
    for i in 0..warnings.len()
        invariant
            all == texts(warnings@),
            lines@.len() == i,
            forall|k: int| 0 <= k < i ==> (#[trigger] lines@[k])@ == "Warning: "@ + all[k],
    {
        assert(all[i as int] == warnings@[i as int]@);
        lines.push(concat2("Warning: ", warnings[i].as_str()));
    }
    lines.push(code.to_owned());
    assert(texts(lines@) =~= all.map_values(|w: Seq<char>| "Warning: "@ + w).push(code@));
    join_texts(lines.as_slice(), "\n")
}

/// What requests can be imported from.
#[derive(Clone, Copy, Debug, PartialEq, Eq, Structural)]
pub enum ImportFormat {
    Curl,
    Postman,
}

/// What a word says that requests are imported from.
pub open spec fn format_named(text: Seq<char>) -> Result<ImportFormat, Seq<char>> {
    let word = trim(text);
    if word == "curl"@ {
        Ok(ImportFormat::Curl)
    } else if word == "postman-v2.1"@ {
        Ok(ImportFormat::Postman)
    } else {
        Err("Unknown import format '"@ + word + "'"@)
    }
}

/// Reads what requests are imported from.
pub fn import_format(value: &str) -> (r: Result<ImportFormat, String>)
    ensures
        said(r) == format_named(value@),
{
    let text = trim_text(value);
    let word = text.as_str();
    if same_text(word, "curl") {
        Ok(ImportFormat::Curl)
    } else if same_text(word, "postman-v2.1") {
        Ok(ImportFormat::Postman)
    } else {
        Err(concat3("Unknown import format '", word, "'"))
    }
}

/// What is noted of what is imported: how grave it is, its code and what it says.
#[derive(Clone, Debug, PartialEq, Eq)]
pub struct ImportDiagnostic {
    pub severity: String,
    pub code: String,
    pub message: String,
}

/// The line of a note.
pub open spec fn diagnostic_line(d: ImportDiagnostic) -> Seq<char> {
    d.severity@ + " "@ + d.code@ + ": "@ + d.message@
}

/// What is told of what would be imported: how much it is, what is noted of it and which fields
/// are left out.
pub open spec fn import_told(
    count: nat,
    format: Seq<char>,
    diagnostics: Seq<ImportDiagnostic>,
    unsupported: Seq<Seq<char>>,
) -> Seq<char> {
    (decimal(count) + " request(s) from "@ + format + "\n"@) + join(
        diagnostics.map_values(|d: ImportDiagnostic| diagnostic_line(d)) + unsupported.map_values(
            |f: Seq<char>| "Unsupported: "@ + f,
        ),
        "\n"@,
    )
}

/// Writes what is told of what would be imported.
pub fn show_import(
    count: usize,
    format: &str,
    diagnostics: &[ImportDiagnostic],
    unsupported: &[String],
) -> (r: String)
    ensures
        r@ == import_told(count as nat, format@, diagnostics@, texts(unsupported@)),
{
    let ghost left = texts(unsupported@);
    let mut lines: Vec<String> = Vec::new();
    for i in 0..diagnostics.len()
        invariant
            lines@.len() == i,
            forall|k: int|
                0 <= k < i ==> (#[trigger] lines@[k])@ == diagnostic_line(diagnostics@[k]),
    {
        let d = &diagnostics[i];
        lines.push(concat5(d.severity.as_str(), " ", d.code.as_str(), ": ", d.message.as_str()));
    }
    for i in 0..unsupported.len()
        invariant
            left == texts(unsupported@),
            lines@.len() == diagnostics@.len() + i,
            forall|k: int|
                0 <= k < diagnostics@.len() ==> (#[trigger] lines@[k])@ == diagnostic_line(
                    diagnostics@[k],
                ),
            forall|k: int|
                diagnostics@.len() <= k < lines@.len() ==> (#[trigger] lines@[k])@
                    == "Unsupported: "@ + left[k - diagnostics@.len()],
    {
        assert(left[i as int] == unsupported@[i as int]@);
        lines.push(concat2("Unsupported: ", unsupported[i].as_str()));
    }
    assert(texts(lines@) =~= diagnostics@.map_values(|d: ImportDiagnostic| diagnostic_line(d))
        + left.map_values(|f: Seq<char>| "Unsupported: "@ + f));
    let head = concat4(decimal_text(count as u64).as_str(), " request(s) from ", format, "\n");
    concat2(head.as_str(), join_texts(lines.as_slice(), "\n").as_str())
}

/// The contents of a list of requests.
pub open spec fn document_views(list: Seq<RequestDocument>) -> Seq<RequestDocumentView> {
    list.map_values(|d: RequestDocument| d@)
}

/// The path that a request is imported to.
pub open spec fn import_path(destination: Seq<char>, document: RequestDocumentView) -> Seq<char> {
    joined(destination, document.request.id + ".request.toml"@)
}

/// The outcome of importing requests: each is written anew, up to the first that cannot be.
pub open spec fn imported(
    files: FilesView,
    root: Seq<char>,
    destination: Seq<char>,
    documents: Seq<RequestDocumentView>,
    leaks: Seq<Seq<Seq<char>>>,
) -> (Result<(), Seq<char>>, FilesView)
    decreases documents.len(),
{
    if documents.len() == 0 {
        (Ok(()), files)
    } else {
        let (r, before) = imported(files, root, destination, documents.drop_last(), leaks);
        match r {
            Err(e) => (Err(e), before),
            Ok(_) => {
                let (saved, after) = scanned_request_saved(
                    before,
                    root,
                    import_path(destination, documents.last()),
                    documents.last(),
                    leaks,
                    (documents.len() - 1) as nat,
                );
                match saved {
                    Err(e) => (Err(error_message(e)), after),
                    Ok(_) => (Ok(()), after),
                }
            },
        }
    }
}

proof fn lemma_imported_error(
    files: FilesView,
    root: Seq<char>,
    destination: Seq<char>,
    documents: Seq<RequestDocumentView>,
    leaks: Seq<Seq<Seq<char>>>,
    k: int,
)
    requires
        0 <= k <= documents.len(),
        imported(files, root, destination, documents.take(k), leaks).0 is Err,
    ensures
        imported(files, root, destination, documents, leaks) == imported(
            files,
            root,
            destination,
            documents.take(k),
            leaks,
        ),
    decreases documents.len() - k,
{
    if k < documents.len() {
        assert(documents.take(k + 1).drop_last() =~= documents.take(k));
        lemma_imported_error(files, root, destination, documents, leaks, k + 1);
    } else {
        assert(documents.take(k) =~= documents);
    }
}

/// What is told of requests that were imported.
pub open spec fn import_done(count: nat, destination: Seq<char>) -> Seq<char> {
    "Imported "@ + decimal(count) + " request(s) into "@ + destination
}

/// Writes requests that were imported below a directory, given what was found to look secret in
/// each; a request without findings of its own is refused.
pub fn apply_import(
    repository: &WorkspaceRepository,
    files: &mut FileTree,
    destination: &ResourcePath,
    documents: &[RequestDocument],
    leaks: &[Vec<String>],
) -> (r: Result<String, String>)
    requires
        old(files).wf(),
        forall|i: int| 0 <= i < documents@.len() ==> (#[trigger] documents@[i]).wf(),
    ensures
        final(files).wf(),
        ({
            let (done, after) = imported(
                old(files)@,
                repository@,
                destination@,
                document_views(documents@),
                leak_views(leaks@),
            );
            &&& final(files)@ == after
            &&& outcome(r) == match done {
                Ok(_) => Ok::<Seq<char>, Seq<char>>(
                    import_done(documents@.len(), destination@),
                ),
                Err(e) => Err(e),
            }
        }),
{
    let ghost start = files@;
    let ghost root = repository@;
    let ghost all = document_views(documents@);
    let ghost findings = leak_views(leaks@);
    assert(all.take(0) =~= seq![]);
    for i in 0..documents.len()
        invariant
            files.wf(),
            forall|k: int| 0 <= k < documents@.len() ==> (#[trigger] documents@[k]).wf(),
            all == document_views(documents@),
            findings == leak_views(leaks@),
            root == repository@,
            start == old(files)@,
            (Ok::<(), Seq<char>>(()), files@) == imported(
                start,
                root,
                destination@,
                all.take(i as int),
                findings,
            ),
    {
        let document = &documents[i];
        proof {
            assert(all[i as int] == document@);
            assert(all.take(i + 1).drop_last() =~= all.take(i as int));
            assert(all.take(i + 1).last() == all[i as int]);
        }
        let path = destination.join(
            concat2(document.request.id.as_str(), ".request.toml").as_str(),
        );
        match repository.save_scanned_request(files, &path, document, leaks, i) {
            Ok(_) => {},
            Err(e) => {
                proof {
                    lemma_imported_error(start, root, destination@, all, findings, i + 1);
                }
                return Err(e.message());
            },
        }
    }
    assert(all.take(documents@.len() as int) =~= all);
    Ok(
        concat4(
            "Imported ",
            decimal_text(documents.len() as u64).as_str(),
            " request(s) into ",
            destination.as_text(),
        ),
    )
}

/// A request that was made of an interface's description.
#[derive(Clone, Debug, PartialEq, Eq)]
pub struct GeneratedRequest {
    pub method: String,
    pub url: String,
    pub headers: Vec<(String, String)>,
    /// The body, as the text of its JSON.
    pub body: Option<String>,
}

/// The headers that names and values stand for, up to the first that is none.
pub open spec fn headers_made(list: Seq<(String, String)>) -> Result<Seq<FormFieldView>, Seq<char>>
    decreases list.len(),
{
    if list.len() == 0 {
        Ok(seq![])
    } else {
        match headers_made(list.drop_last()) {
            Err(e) => Err(e),
            Ok(front) => match header_check(list.last().0@, list.last().1@) {
                Some(e) => Err(domain_message(e)),
                None => Ok(
                    front.push(
                        FormFieldView {
                            name: list.last().0@,
                            value: list.last().1@,
                            enabled: true,
                            sensitivity: ValueSensitivity::Public,
                        },
                    ),
                ),
            },
        }
    }
}

proof fn lemma_headers_made_error(list: Seq<(String, String)>, k: int)
    requires
        0 <= k <= list.len(),
        headers_made(list.take(k)) is Err,
    ensures
        headers_made(list) == headers_made(list.take(k)),
    decreases list.len() - k,
{
    if k < list.len() {
        assert(list.take(k + 1).drop_last() =~= list.take(k));
        lemma_headers_made_error(list, k + 1);
    } else {
        assert(list.take(k) =~= list);
    }
}

fn make_headers(list: &[(String, String)]) -> (r: Result<Vec<HeaderEntry>, String>)
    ensures
        match r {
            Ok(v) => headers_made(list@) == Ok::<Seq<FormFieldView>, Seq<char>>(header_views(v@)),
            Err(e) => headers_made(list@) == Err::<Seq<FormFieldView>, Seq<char>>(e@),
        },
{
    let mut r: Vec<HeaderEntry> = Vec::new();
    proof {
        assert(list@.take(0) =~= seq![]);
        assert(header_views(r@) =~= seq![]);
    }
    for i in 0..list.len()
        invariant
            headers_made(list@.take(i as int)) == Ok::<Seq<FormFieldView>, Seq<char>>(
                header_views(r@),
            ),
    {
        proof {
            assert(list@.take(i + 1).drop_last() =~= list@.take(i as int));
            assert(list@.take(i + 1).last() == list@[i as int]);
        }
        match HeaderEntry::new(list[i].0.as_str(), list[i].1.as_str()) {
            Ok(h) => {
                let ghost before = r@;
                r.push(h);
                assert(header_views(r@) =~= header_views(before).push(h@));
            },
            Err(e) => {
                proof {
                    lemma_headers_made_error(list@, i + 1);
                }
                return Err(e.message());
            },
        }
    }
    assert(list@.take(list@.len() as int) =~= list@);
    Ok(r)
}

/// The identifier that the file of a request stands for.
pub open spec fn file_identifier(path: Seq<char>) -> Option<Seq<char>> {
    match last_name(components(path)) {
        None => None,
        Some(name) => strip_suffix(name, ".request.toml"@),
    }
}

/// The request that is made of an operation of an interface, for a file.
pub open spec fn request_generated(
    operation: Seq<char>,
    path: Seq<char>,
    generated: GeneratedRequest,
) -> Result<RequestView, Seq<char>> {
    match file_identifier(path) {
        None => Err("destination must end with .request.toml"@),
        Some(file) => match parse_id(file) {
            Err(e) => Err(domain_message(e)),
            Ok(id) => match parse_method(generated.method@) {
                Err(e) => Err(domain_message(e)),
                Ok(method) => match headers_made(generated.headers@) {
                    Err(e) => Err(e),
                    Ok(headers) => Ok(
                        RequestView {
                            id,
                            name: operation,
                            method,
                            url: generated.url@,
                            headers,
                            body: match optional_text(generated.body) {
                                Some(text) => BodyView::Json(text),
                                None => BodyView::Empty,
                            },
                            documentation:
                                "Generated from OpenAPI. Review generated fields before committing."@,
                            ..draft_request()
                        },
                    ),
                },
            },
        },
    }
}

/// Makes a request of an operation of an interface, for a file.
pub fn generated_request(operation: &str, relative_path: &str, generated: GeneratedRequest) -> (r:
    Result<HttpRequest, String>)
    ensures
        outcome(r) == request_generated(operation@, relative_path@, generated),
{
    let name = match ResourcePath::new(relative_path).file_name() {
        Some(n) => n,
        None => {
            return Err("destination must end with .request.toml".to_owned());
        },
    };
    let file = match without_suffix(name.as_str(), ".request.toml") {
        Some(f) => f,
        None => {
            return Err("destination must end with .request.toml".to_owned());
        },
    };
    let id = match StableId::parse(file.as_str()) {
        Ok(id) => id,
        Err(e) => {
            return Err(e.message());
        },
    };
    let method = match HttpMethod::parse(generated.method.as_str()) {
        Ok(m) => m,
        Err(e) => {
            return Err(e.message());
        },
    };
    let headers = match make_headers(generated.headers.as_slice()) {
        Ok(h) => h,
        Err(e) => {
            return Err(e);
        },
    };
    let mut request = default_request();
    request.id = id;
    request.name = operation.to_owned();
    request.method = method;
    request.url = generated.url;
    request.headers = headers;
    request.body = match generated.body {
        Some(text) => RequestBody::Json(text),
        None => RequestBody::Empty,
    };
    request.documentation =
    "Generated from OpenAPI. Review generated fields before committing.".to_owned();
    Ok(request)
}

} // verus!
