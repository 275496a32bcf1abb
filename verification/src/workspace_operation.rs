//! Changing a workspace by commands: which change a command asks for, and the change.
use crate::command_line::{
    command_parts, find_items, find_part, items_in, part, segments, split_command,
    workspace_segments,
};
use crate::domain::{domain_message, parse_id, StableId};
use crate::editor_fields::said;
use crate::editor_settings::{read_truth, truth};
use crate::error::outcome;
use crate::message::concat2;
use crate::paths::{
    climbs, components, is_absolute, joined, path_climbs, path_components, starts_with_components,
    ResourcePath,
};
use crate::repository::WorkspaceRepository;
use crate::text::{chars_of, same_text, texts, trim, trim_text};
use vstd::prelude::*;
use vstd::string::*;

verus! {

/// What the disk says of a path: the root of the workspace and the nearest directory that is
/// there, as they are once links are followed.
#[derive(Debug, PartialEq, Eq)]
pub struct Ancestry {
    pub canonical_root: Result<ResourcePath, String>,
    /// The nearest part of the path that is there.
    pub existing: Option<ResourcePath>,
    pub canonical: Result<ResourcePath, String>,
}

/// What the disk says of a path, by its contents.
#[verifier::ext_equal]
pub struct AncestryView {
    pub canonical_root: Result<Seq<char>, Seq<char>>,
    pub existing: Option<Seq<char>>,
    pub canonical: Result<Seq<char>, Seq<char>>,
}

/// The contents of a path, or of what is said in its place.
pub open spec fn path_or_reason(r: Result<ResourcePath, String>) -> Result<Seq<char>, Seq<char>> {
    match r {
        Ok(p) => Ok(p@),
        Err(e) => Err(e@),
    }
}

impl View for Ancestry {
    type V = AncestryView;

    open spec fn view(&self) -> AncestryView {
        AncestryView {
            canonical_root: path_or_reason(self.canonical_root),
            existing: match self.existing {
                Some(p) => Some(p@),
                None => None,
            },
            canonical: path_or_reason(self.canonical),
        }
    }
}

/// The contents of a list of what the disk says.
pub open spec fn ancestry_views(list: Seq<Ancestry>) -> Seq<AncestryView> {
    list.map_values(|a: Ancestry| a@)
}

/// Whether a path lies under another, by their components.
pub open spec fn lies_below(root: Seq<char>, path: Seq<char>) -> bool {
    components(root).len() <= components(path).len() && components(path).take(
        components(root).len() as int,
    ) == components(root)
}

/// What is said of a path that cannot be used because of where it leads.
pub open spec fn ancestry_check(a: AncestryView) -> Result<(), Seq<char>> {
    match a.canonical_root {
        Err(e) => Err(e),
        Ok(root) => match a.existing {
            None => Err("workspace output path has no existing ancestor"@),
            Some(existing) => match a.canonical {
                Err(e) => Err(e),
                Ok(path) => if lies_below(root, path) {
                    Ok(())
                } else {
                    Err("workspace output path escapes through "@ + existing)
                },
            },
        },
    }
}

/// Whether a text can be the path of an operation: it has to lead into the workspace.
pub open spec fn is_operation_path(text: Seq<char>) -> bool {
    text.len() > 0 && !is_absolute(text) && !climbs(components(text))
}

/// What is said of a text that cannot be the path of an operation.
pub open spec fn bad_operation_path() -> Seq<char> {
    "workspace operation paths must be non-empty, relative, and cannot contain '..'"@
}

/// The path of an operation, given what the disk says of it.
pub open spec fn operation_path(root: Seq<char>, value: Seq<char>, ancestry: Option<AncestryView>) -> Result<
    Seq<char>,
    Seq<char>,
> {
    let text = trim(value);
    if !is_operation_path(text) {
        Err(bad_operation_path())
    } else {
        match ancestry {
            None => Err("workspace output path has no existing ancestor"@),
            Some(a) => match ancestry_check(a) {
                Err(e) => Err(e),
                Ok(_) => Ok(joined(root, text)),
            },
        }
    }
}

/// What the disk says of one of some paths.
pub open spec fn ancestry_at(list: Seq<AncestryView>, index: int) -> Option<AncestryView> {
    if 0 <= index < list.len() {
        Some(list[index])
    } else {
        None
    }
}

fn check_ancestry(a: &Ancestry) -> (r: Result<(), String>)
    ensures
        said(r) == ancestry_check(a@),
{
    let root = match &a.canonical_root {
        Ok(p) => p,
        Err(e) => {
            return Err(e.clone());
        },
    };
    let existing = match &a.existing {
        Some(p) => p,
        None => {
            return Err("workspace output path has no existing ancestor".to_owned());
        },
    };
    match &a.canonical {
        Err(e) => Err(e.clone()),
        Ok(path) => {
            let x = path.components();
            let y = root.components();
            if starts_with_components(x.as_slice(), y.as_slice()) {
                Ok(())
            } else {
                Err(concat2("workspace output path escapes through ", existing.as_text()))
            }
        },
    }
}

/// Finds the path of an operation, given what the disk says of it.
pub fn workspace_relative_path(
    repository: &WorkspaceRepository,
    value: &str,
    ancestry: Option<&Ancestry>,
) -> (r: Result<ResourcePath, String>)
    ensures
        path_or_reason(r) == operation_path(
            repository@,
            value@,
            match ancestry {
                Some(a) => Some(a@),
                None => None,
            },
        ),
{
    let text = trim_text(value);
    let chars = chars_of(text.as_str());
    if chars.len() == 0 || chars[0] == '/' || path_climbs(
        path_components(text.as_str()).as_slice(),
    ) {
        return Err(
            "workspace operation paths must be non-empty, relative, and cannot contain '..'".to_owned(),
        );
    }
    match ancestry {
        None => Err("workspace output path has no existing ancestor".to_owned()),
        Some(a) => match check_ancestry(a) {
            Err(e) => Err(e),
            Ok(_) => Ok(repository.root().join(text.as_str())),
        },
    }
}

/// A path that an operation may use stays inside the workspace, and so does the nearest part of
/// it that is there once links are followed.
pub proof fn law_operation_paths_stay_inside(root: Seq<char>, value: Seq<char>, a: AncestryView)
    requires
        operation_path(root, value, Some(a)) is Ok,
    ensures
        !climbs(components(trim(value))),
        a.canonical_root is Ok,
        a.canonical is Ok,
        lies_below(a.canonical_root->Ok_0, a.canonical->Ok_0),
{
}

/// A change that a command asks for.
#[derive(Clone, Debug, PartialEq, Eq)]
pub enum WorkspaceOperation {
    /// A collection is made.
    CreateCollection { slug: String, id: StableId, name: String },
    /// A collection gets another name.
    RenameCollection { source: String, target: String },
    /// A collection is copied.
    DuplicateCollection { source: String, target: String },
    /// A collection is deleted.
    DeleteCollection { slug: String },
    /// A collection is archived, or not any more.
    ArchiveCollection { slug: String, archived: bool },
    /// A folder is made.
    CreateFolder { collection: String, folders: Vec<String>, id: StableId, name: String },
    /// A folder gets another name.
    RenameFolder { collection: String, folders: Vec<String>, target: String },
    /// A folder gets another parent.
    MoveFolder { collection: String, folders: Vec<String>, parents: Vec<String>, target: String },
    /// A folder is copied.
    DuplicateFolder { collection: String, folders: Vec<String>, parents: Vec<String>, target: String },
    /// A folder is deleted.
    DeleteFolder { collection: String, folders: Vec<String> },
    /// A folder is archived, or not any more.
    ArchiveFolder { collection: String, folders: Vec<String>, archived: bool },
    /// A request is made.
    CreateRequest { path: ResourcePath, id: StableId, name: String, url: String },
    /// A request gets another path.
    MoveRequest { source: ResourcePath, target: ResourcePath },
    /// A request is copied.
    DuplicateRequest { source: ResourcePath, target: ResourcePath },
    /// A request is deleted.
    DeleteRequest { path: ResourcePath },
    /// A collection or folder gets an order.
    SetOrder { collection: String, folders: Vec<String>, items: Vec<String> },
}

/// A change that a command asks for, by its contents.
pub enum OperationView {
    CreateCollection { slug: Seq<char>, id: Seq<char>, name: Seq<char> },
    RenameCollection { source: Seq<char>, target: Seq<char> },
    DuplicateCollection { source: Seq<char>, target: Seq<char> },
    DeleteCollection { slug: Seq<char> },
    ArchiveCollection { slug: Seq<char>, archived: bool },
    CreateFolder { collection: Seq<char>, folders: Seq<Seq<char>>, id: Seq<char>, name: Seq<char> },
    RenameFolder { collection: Seq<char>, folders: Seq<Seq<char>>, target: Seq<char> },
    MoveFolder { collection: Seq<char>, folders: Seq<Seq<char>>, parents: Seq<Seq<char>>, target: Seq<char> },
    DuplicateFolder { collection: Seq<char>, folders: Seq<Seq<char>>, parents: Seq<Seq<char>>, target: Seq<char> },
    DeleteFolder { collection: Seq<char>, folders: Seq<Seq<char>> },
    ArchiveFolder { collection: Seq<char>, folders: Seq<Seq<char>>, archived: bool },
    CreateRequest { path: Seq<char>, id: Seq<char>, name: Seq<char>, url: Seq<char> },
    MoveRequest { source: Seq<char>, target: Seq<char> },
    DuplicateRequest { source: Seq<char>, target: Seq<char> },
    DeleteRequest { path: Seq<char> },
    SetOrder { collection: Seq<char>, folders: Seq<Seq<char>>, items: Seq<Seq<char>> },
}

impl View for WorkspaceOperation {
    type V = OperationView;

    open spec fn view(&self) -> OperationView {
        match self {
            WorkspaceOperation::CreateCollection { slug, id, name } => OperationView::CreateCollection {
                slug: slug@,
                id: id@,
                name: name@,
            },
            WorkspaceOperation::RenameCollection { source, target } => OperationView::RenameCollection {
                source: source@,
                target: target@,
            },
            WorkspaceOperation::DuplicateCollection { source, target } => OperationView::DuplicateCollection {
                source: source@,
                target: target@,
            },
            WorkspaceOperation::DeleteCollection { slug } => OperationView::DeleteCollection {
                slug: slug@,
            },
            WorkspaceOperation::ArchiveCollection { slug, archived } => OperationView::ArchiveCollection {
                slug: slug@,
                archived: *archived,
            },
            WorkspaceOperation::CreateFolder { collection, folders, id, name } => OperationView::CreateFolder {
                collection: collection@,
                folders: texts(folders@),
                id: id@,
                name: name@,
            },
            WorkspaceOperation::RenameFolder { collection, folders, target } => OperationView::RenameFolder {
                collection: collection@,
                folders: texts(folders@),
                target: target@,
            },
            WorkspaceOperation::MoveFolder { collection, folders, parents, target } => OperationView::MoveFolder {
                collection: collection@,
                folders: texts(folders@),
                parents: texts(parents@),
                target: target@,
            },
            WorkspaceOperation::DuplicateFolder { collection, folders, parents, target } => OperationView::DuplicateFolder {
                collection: collection@,
                folders: texts(folders@),
                parents: texts(parents@),
                target: target@,
            },
            WorkspaceOperation::DeleteFolder { collection, folders } => OperationView::DeleteFolder {
                collection: collection@,
                folders: texts(folders@),
            },
            WorkspaceOperation::ArchiveFolder { collection, folders, archived } => OperationView::ArchiveFolder {
                collection: collection@,
                folders: texts(folders@),
                archived: *archived,
            },
            WorkspaceOperation::CreateRequest { path, id, name, url } => OperationView::CreateRequest {
                path: path@,
                id: id@,
                name: name@,
                url: url@,
            },
            WorkspaceOperation::MoveRequest { source, target } => OperationView::MoveRequest {
                source: source@,
                target: target@,
            },
            WorkspaceOperation::DuplicateRequest { source, target } => OperationView::DuplicateRequest {
                source: source@,
                target: target@,
            },
            WorkspaceOperation::DeleteRequest { path } => OperationView::DeleteRequest {
                path: path@,
            },
            WorkspaceOperation::SetOrder { collection, folders, items } => OperationView::SetOrder {
                collection: collection@,
                folders: texts(folders@),
                items: texts(items@),
            },
        }
    }
}

/// An identifier among the parts of a command.
pub open spec fn id_part(parts: Seq<Seq<char>>, index: int, name: Seq<char>) -> Result<
    Seq<char>,
    Seq<char>,
> {
    match part(parts, index, name) {
        Err(e) => Err(e),
        Ok(text) => match parse_id(text) {
            Err(e) => Err(domain_message(e)),
            Ok(id) => Ok(id),
        },
    }
}

/// Finds an identifier among the parts of a command.
pub fn find_id(parts: &[String], index: usize, name: &str) -> (r: Result<StableId, String>)
    requires
        parts@.len() > 0,
    ensures
        outcome(r) == id_part(texts(parts@), index as int, name@),
{
    match find_part(parts, index, name) {
        Err(e) => Err(e),
        Ok(text) => match StableId::parse(text) {
            Err(e) => Err(e.message()),
            Ok(id) => Ok(id),
        },
    }
}

/// A truth value among the parts of a command.
pub open spec fn truth_part(
    parts: Seq<Seq<char>>,
    index: int,
    name: Seq<char>,
    refusal: Seq<char>,
) -> Result<bool, Seq<char>> {
    match part(parts, index, name) {
        Err(e) => Err(e),
        Ok(text) => match truth(text) {
            Some(b) => Ok(b),
            None => Err(refusal),
        },
    }
}

/// Finds a truth value among the parts of a command.
pub fn find_truth(parts: &[String], index: usize, name: &str, refusal: &str) -> (r: Result<
    bool,
    String,
>)
    requires
        parts@.len() > 0,
    ensures
        said(r) == truth_part(texts(parts@), index as int, name@, refusal@),
{
    match find_part(parts, index, name) {
        Err(e) => Err(e),
        Ok(text) => match read_truth(text) {
            Some(b) => Ok(b),
            None => Err(refusal.to_owned()),
        },
    }
}

/// A path among the parts of a command, given what the disk says of the paths.
pub open spec fn path_part(
    root: Seq<char>,
    parts: Seq<Seq<char>>,
    index: int,
    name: Seq<char>,
    ancestry: Option<AncestryView>,
) -> Result<Seq<char>, Seq<char>> {
    match part(parts, index, name) {
        Err(e) => Err(e),
        Ok(text) => operation_path(root, text, ancestry),
    }
}

fn find_path(
    repository: &WorkspaceRepository,
    parts: &[String],
    index: usize,
    name: &str,
    ancestry: &[Ancestry],
    which: usize,
) -> (r: Result<ResourcePath, String>)
    requires
        parts@.len() > 0,
    ensures
        path_or_reason(r) == path_part(
            repository@,
            texts(parts@),
            index as int,
            name@,
            ancestry_at(ancestry_views(ancestry@), which as int),
        ),
{
    match find_part(parts, index, name) {
        Err(e) => Err(e),
        Ok(text) => {
            let known: Option<&Ancestry> = if which < ancestry.len() {
                assert(ancestry_views(ancestry@)[which as int] == ancestry@[which as int]@);
                Some(&ancestry[which])
            } else {
                None
            };
            workspace_relative_path(repository, text, known)
        },
    }
}

/// The folders of an order: a dash stands for none.
pub open spec fn order_folders(text: Seq<char>) -> Seq<Seq<char>> {
    if segments(text) == seq!["-"@] {
        seq![]
    } else {
        segments(text)
    }
}

fn find_order_folders(text: &str) -> (r: Vec<String>)
    ensures
        texts(r@) == order_folders(text@),
{
    let list = workspace_segments(text);
    let ghost all = texts(list@);
    let ghost dash = seq!["-"@];
    assert(all.len() == list@.len());
    if list.len() == 1 && same_text(list[0].as_str(), "-") {
        assert(all =~= dash);
        let r: Vec<String> = Vec::new();
        assert(texts(r@) =~= seq![]);
        r
    } else {
        proof {
            if all == dash {
                assert(all[0] == dash[0]);
                assert(all[0] == list@[0]@);
            }
        }
        list
    }
}

/// What `create_collection` asks for.
pub open spec fn create_collection_asked(parts: Seq<Seq<char>>) -> Result<OperationView, Seq<char>> {
    match part(parts, 1, "slug"@) {
        Err(e) => Err(e),
        Ok(slug) => {
            match id_part(parts, 2, "id"@) {
                Err(e) => Err(e),
                Ok(id) => {
                    match part(parts, 3, "name"@) {
                        Err(e) => Err(e),
                        Ok(name) => {
                            Ok(OperationView::CreateCollection {
                                slug: slug,
                                id: id,
                                name: name,
                            })
                        },
                    }
                },
            }
        },
    }
}

/// What `rename_collection` asks for.
pub open spec fn rename_collection_asked(parts: Seq<Seq<char>>) -> Result<OperationView, Seq<char>> {
    match part(parts, 1, "source slug"@) {
        Err(e) => Err(e),
        Ok(source) => {
            match part(parts, 2, "target slug"@) {
                Err(e) => Err(e),
                Ok(target) => {
                    Ok(OperationView::RenameCollection {
                        source: source,
                        target: target,
                    })
                },
            }
        },
    }
}

/// What `duplicate_collection` asks for.
pub open spec fn duplicate_collection_asked(parts: Seq<Seq<char>>) -> Result<OperationView, Seq<char>> {
    match part(parts, 1, "source slug"@) {
        Err(e) => Err(e),
        Ok(source) => {
            match part(parts, 2, "target slug"@) {
                Err(e) => Err(e),
                Ok(target) => {
                    Ok(OperationView::DuplicateCollection {
                        source: source,
                        target: target,
                    })
                },
            }
        },
    }
}

/// What `delete_collection` asks for.
pub open spec fn delete_collection_asked(parts: Seq<Seq<char>>) -> Result<OperationView, Seq<char>> {
    match part(parts, 1, "slug"@) {
        Err(e) => Err(e),
        Ok(slug) => {
            Ok(OperationView::DeleteCollection {
                slug: slug,
            })
        },
    }
}

/// What `archive_collection` asks for.
pub open spec fn archive_collection_asked(parts: Seq<Seq<char>>) -> Result<OperationView, Seq<char>> {
    match part(parts, 1, "slug"@) {
        Err(e) => Err(e),
        Ok(slug) => {
            match truth_part(parts, 2, "true/false"@, "archive_collection requires true or false"@) {
                Err(e) => Err(e),
                Ok(archived) => {
                    Ok(OperationView::ArchiveCollection {
                        slug: slug,
                        archived: archived,
                    })
                },
            }
        },
    }
}

/// What `create_folder` asks for.
pub open spec fn create_folder_asked(parts: Seq<Seq<char>>) -> Result<OperationView, Seq<char>> {
    match part(parts, 1, "collection"@) {
        Err(e) => Err(e),
        Ok(collection) => {
            match part(parts, 2, "folder path"@) {
                Err(e) => Err(e),
                Ok(folders) => {
                    match id_part(parts, 3, "id"@) {
                        Err(e) => Err(e),
                        Ok(id) => {
                            match part(parts, 4, "name"@) {
                                Err(e) => Err(e),
                                Ok(name) => {
                                    Ok(OperationView::CreateFolder {
                                        collection: collection,
                                        folders: segments(folders),
                                        id: id,
                                        name: name,
                                    })
                                },
                            }
                        },
                    }
                },
            }
        },
    }
}

/// What `rename_folder` asks for.
pub open spec fn rename_folder_asked(parts: Seq<Seq<char>>) -> Result<OperationView, Seq<char>> {
    match part(parts, 1, "collection"@) {
        Err(e) => Err(e),
        Ok(collection) => {
            match part(parts, 2, "folder path"@) {
                Err(e) => Err(e),
                Ok(folders) => {
                    match part(parts, 3, "target slug"@) {
                        Err(e) => Err(e),
                        Ok(target) => {
                            Ok(OperationView::RenameFolder {
                                collection: collection,
                                folders: segments(folders),
                                target: target,
                            })
                        },
                    }
                },
            }
        },
    }
}

/// What `move_folder` asks for.
pub open spec fn move_folder_asked(parts: Seq<Seq<char>>) -> Result<OperationView, Seq<char>> {
    match part(parts, 1, "collection"@) {
        Err(e) => Err(e),
        Ok(collection) => {
            match part(parts, 2, "source folder path"@) {
                Err(e) => Err(e),
                Ok(folders) => {
                    match part(parts, 3, "target parent path"@) {
                        Err(e) => Err(e),
                        Ok(parents) => {
                            match part(parts, 4, "target slug"@) {
                                Err(e) => Err(e),
                                Ok(target) => {
                                    Ok(OperationView::MoveFolder {
                                        collection: collection,
                                        folders: segments(folders),
                                        parents: segments(parents),
                                        target: target,
                                    })
                                },
                            }
                        },
                    }
                },
            }
        },
    }
}

/// What `duplicate_folder` asks for.
pub open spec fn duplicate_folder_asked(parts: Seq<Seq<char>>) -> Result<OperationView, Seq<char>> {
    match part(parts, 1, "collection"@) {
        Err(e) => Err(e),
        Ok(collection) => {
            match part(parts, 2, "source folder path"@) {
                Err(e) => Err(e),
                Ok(folders) => {
                    match part(parts, 3, "target parent path"@) {
                        Err(e) => Err(e),
                        Ok(parents) => {
                            match part(parts, 4, "target slug"@) {
                                Err(e) => Err(e),
                                Ok(target) => {
                                    Ok(OperationView::DuplicateFolder {
                                        collection: collection,
                                        folders: segments(folders),
                                        parents: segments(parents),
                                        target: target,
                                    })
                                },
                            }
                        },
                    }
                },
            }
        },
    }
}

/// What `delete_folder` asks for.
pub open spec fn delete_folder_asked(parts: Seq<Seq<char>>) -> Result<OperationView, Seq<char>> {
    match part(parts, 1, "collection"@) {
        Err(e) => Err(e),
        Ok(collection) => {
            match part(parts, 2, "folder path"@) {
                Err(e) => Err(e),
                Ok(folders) => {
                    Ok(OperationView::DeleteFolder {
                        collection: collection,
                        folders: segments(folders),
                    })
                },
            }
        },
    }
}

/// What `archive_folder` asks for.
pub open spec fn archive_folder_asked(parts: Seq<Seq<char>>) -> Result<OperationView, Seq<char>> {
    match part(parts, 1, "collection"@) {
        Err(e) => Err(e),
        Ok(collection) => {
            match part(parts, 2, "folder path"@) {
                Err(e) => Err(e),
                Ok(folders) => {
                    match truth_part(parts, 3, "true/false"@, "archive_folder requires true or false"@) {
                        Err(e) => Err(e),
                        Ok(archived) => {
                            Ok(OperationView::ArchiveFolder {
                                collection: collection,
                                folders: segments(folders),
                                archived: archived,
                            })
                        },
                    }
                },
            }
        },
    }
}

/// What `create_request` asks for.
pub open spec fn create_request_asked(root: Seq<char>, parts: Seq<Seq<char>>, ancestry: Seq<AncestryView>) -> Result<OperationView, Seq<char>> {
    match path_part(root, parts, 1, "relative path"@, ancestry_at(ancestry, 0)) {
        Err(e) => Err(e),
        Ok(path) => {
            match id_part(parts, 2, "id"@) {
                Err(e) => Err(e),
                Ok(id) => {
                    match part(parts, 3, "name"@) {
                        Err(e) => Err(e),
                        Ok(name) => {
                            match part(parts, 4, "url"@) {
                                Err(e) => Err(e),
                                Ok(url) => {
                                    Ok(OperationView::CreateRequest {
                                        path: path,
                                        id: id,
                                        name: name,
                                        url: url,
                                    })
                                },
                            }
                        },
                    }
                },
            }
        },
    }
}

/// What `move_request` asks for.
pub open spec fn move_request_asked(root: Seq<char>, parts: Seq<Seq<char>>, ancestry: Seq<AncestryView>) -> Result<OperationView, Seq<char>> {
    match path_part(root, parts, 1, "source relative path"@, ancestry_at(ancestry, 0)) {
        Err(e) => Err(e),
        Ok(source) => {
            match path_part(root, parts, 2, "target relative path"@, ancestry_at(ancestry, 1)) {
                Err(e) => Err(e),
                Ok(target) => {
                    Ok(OperationView::MoveRequest {
                        source: source,
                        target: target,
                    })
                },
            }
        },
    }
}

/// What `duplicate_request` asks for.
pub open spec fn duplicate_request_asked(root: Seq<char>, parts: Seq<Seq<char>>, ancestry: Seq<AncestryView>) -> Result<OperationView, Seq<char>> {
    match path_part(root, parts, 1, "source relative path"@, ancestry_at(ancestry, 0)) {
        Err(e) => Err(e),
        Ok(source) => {
            match path_part(root, parts, 2, "target relative path"@, ancestry_at(ancestry, 1)) {
                Err(e) => Err(e),
                Ok(target) => {
                    Ok(OperationView::DuplicateRequest {
                        source: source,
                        target: target,
                    })
                },
            }
        },
    }
}

/// What `delete_request` asks for.
pub open spec fn delete_request_asked(root: Seq<char>, parts: Seq<Seq<char>>, ancestry: Seq<AncestryView>) -> Result<OperationView, Seq<char>> {
    match path_part(root, parts, 1, "relative path"@, ancestry_at(ancestry, 0)) {
        Err(e) => Err(e),
        Ok(path) => {
            Ok(OperationView::DeleteRequest {
                path: path,
            })
        },
    }
}

/// What `set_order` asks for.
pub open spec fn set_order_asked(parts: Seq<Seq<char>>) -> Result<OperationView, Seq<char>> {
    match part(parts, 1, "collection"@) {
        Err(e) => Err(e),
        Ok(collection) => {
            match part(parts, 2, "folder path or '-' for collection root"@) {
                Err(e) => Err(e),
                Ok(folders) => {
                    match part(parts, 3, "comma-separated items"@) {
                        Err(e) => Err(e),
                        Ok(items) => {
                            Ok(OperationView::SetOrder {
                                collection: collection,
                                folders: order_folders(folders),
                                items: items_in(items, ','),
                            })
                        },
                    }
                },
            }
        },
    }
}

/// The change that a command asks for, given what the disk says of the paths it names.
pub open spec fn operation_asked(root: Seq<char>, command: Seq<char>, ancestry: Seq<AncestryView>) -> Result<
    OperationView,
    Seq<char>,
> {
    let parts = command_parts(command);
    let name = parts[0];
    if name == "create_collection"@ {
        create_collection_asked(parts)
    } else if name == "rename_collection"@ {
        rename_collection_asked(parts)
    } else if name == "duplicate_collection"@ {
        duplicate_collection_asked(parts)
    } else if name == "delete_collection"@ {
        delete_collection_asked(parts)
    } else if name == "archive_collection"@ {
        archive_collection_asked(parts)
    } else if name == "create_folder"@ {
        create_folder_asked(parts)
    } else if name == "rename_folder"@ {
        rename_folder_asked(parts)
    } else if name == "move_folder"@ {
        move_folder_asked(parts)
    } else if name == "duplicate_folder"@ {
        duplicate_folder_asked(parts)
    } else if name == "delete_folder"@ {
        delete_folder_asked(parts)
    } else if name == "archive_folder"@ {
        archive_folder_asked(parts)
    } else if name == "create_request"@ {
        create_request_asked(root, parts, ancestry)
    } else if name == "move_request"@ {
        move_request_asked(root, parts, ancestry)
    } else if name == "duplicate_request"@ {
        duplicate_request_asked(root, parts, ancestry)
    } else if name == "delete_request"@ {
        delete_request_asked(root, parts, ancestry)
    } else if name == "set_order"@ {
        set_order_asked(parts)
    } else {
        Err(
            "unknown workspace operation; use create/rename/duplicate/delete/archive collection or folder, create/move/duplicate/delete request, or set_order"@,
        )
    }
}

fn read_create_collection(parts: &[String]) -> (r: Result<WorkspaceOperation, String>)
    requires
        parts@.len() > 0,
    ensures
        outcome(r) == create_collection_asked(texts(parts@)),
{
    let slug = match find_part(parts, 1, "slug") {
        Ok(v) => v,
        Err(e) => {
            return Err(e);
        },
    };
    let id = match find_id(parts, 2, "id") {
        Ok(v) => v,
        Err(e) => {
            return Err(e);
        },
    };
    let name = match find_part(parts, 3, "name") {
        Ok(v) => v,
        Err(e) => {
            return Err(e);
        },
    };
    Ok(WorkspaceOperation::CreateCollection {
        slug: slug.to_owned(),
        id,
        name: name.to_owned(),
    })
}

fn read_rename_collection(parts: &[String]) -> (r: Result<WorkspaceOperation, String>)
    requires
        parts@.len() > 0,
    ensures
        outcome(r) == rename_collection_asked(texts(parts@)),
{
    let source = match find_part(parts, 1, "source slug") {
        Ok(v) => v,
        Err(e) => {
            return Err(e);
        },
    };
    let target = match find_part(parts, 2, "target slug") {
        Ok(v) => v,
        Err(e) => {
            return Err(e);
        },
    };
    Ok(WorkspaceOperation::RenameCollection {
        source: source.to_owned(),
        target: target.to_owned(),
    })
}

fn read_duplicate_collection(parts: &[String]) -> (r: Result<WorkspaceOperation, String>)
    requires
        parts@.len() > 0,
    ensures
        outcome(r) == duplicate_collection_asked(texts(parts@)),
{
    let source = match find_part(parts, 1, "source slug") {
        Ok(v) => v,
        Err(e) => {
            return Err(e);
        },
    };
    let target = match find_part(parts, 2, "target slug") {
        Ok(v) => v,
        Err(e) => {
            return Err(e);
        },
    };
    Ok(WorkspaceOperation::DuplicateCollection {
        source: source.to_owned(),
        target: target.to_owned(),
    })
}

fn read_delete_collection(parts: &[String]) -> (r: Result<WorkspaceOperation, String>)
    requires
        parts@.len() > 0,
    ensures
        outcome(r) == delete_collection_asked(texts(parts@)),
{
    let slug = match find_part(parts, 1, "slug") {
        Ok(v) => v,
        Err(e) => {
            return Err(e);
        },
    };
    Ok(WorkspaceOperation::DeleteCollection {
        slug: slug.to_owned(),
    })
}

fn read_archive_collection(parts: &[String]) -> (r: Result<WorkspaceOperation, String>)
    requires
        parts@.len() > 0,
    ensures
        outcome(r) == archive_collection_asked(texts(parts@)),
{
    let slug = match find_part(parts, 1, "slug") {
        Ok(v) => v,
        Err(e) => {
            return Err(e);
        },
    };
    let archived = match find_truth(parts, 2, "true/false", "archive_collection requires true or false") {
        Ok(v) => v,
        Err(e) => {
            return Err(e);
        },
    };
    Ok(WorkspaceOperation::ArchiveCollection {
        slug: slug.to_owned(),
        archived,
    })
}

fn read_create_folder(parts: &[String]) -> (r: Result<WorkspaceOperation, String>)
    requires
        parts@.len() > 0,
    ensures
        outcome(r) == create_folder_asked(texts(parts@)),
{
    let collection = match find_part(parts, 1, "collection") {
        Ok(v) => v,
        Err(e) => {
            return Err(e);
        },
    };
    let folders = match find_part(parts, 2, "folder path") {
        Ok(v) => v,
        Err(e) => {
            return Err(e);
        },
    };
    let id = match find_id(parts, 3, "id") {
        Ok(v) => v,
        Err(e) => {
            return Err(e);
        },
    };
    let name = match find_part(parts, 4, "name") {
        Ok(v) => v,
        Err(e) => {
            return Err(e);
        },
    };
    Ok(WorkspaceOperation::CreateFolder {
        collection: collection.to_owned(),
        folders: workspace_segments(folders),
        id,
        name: name.to_owned(),
    })
}

fn read_rename_folder(parts: &[String]) -> (r: Result<WorkspaceOperation, String>)
    requires
        parts@.len() > 0,
    ensures
        outcome(r) == rename_folder_asked(texts(parts@)),
{
    let collection = match find_part(parts, 1, "collection") {
        Ok(v) => v,
        Err(e) => {
            return Err(e);
        },
    };
    let folders = match find_part(parts, 2, "folder path") {
        Ok(v) => v,
        Err(e) => {
            return Err(e);
        },
    };
    let target = match find_part(parts, 3, "target slug") {
        Ok(v) => v,
        Err(e) => {
            return Err(e);
        },
    };
    Ok(WorkspaceOperation::RenameFolder {
        collection: collection.to_owned(),
        folders: workspace_segments(folders),
        target: target.to_owned(),
    })
}

fn read_move_folder(parts: &[String]) -> (r: Result<WorkspaceOperation, String>)
    requires
        parts@.len() > 0,
    ensures
        outcome(r) == move_folder_asked(texts(parts@)),
{
    let collection = match find_part(parts, 1, "collection") {
        Ok(v) => v,
        Err(e) => {
            return Err(e);
        },
    };
    let folders = match find_part(parts, 2, "source folder path") {
        Ok(v) => v,
        Err(e) => {
            return Err(e);
        },
    };
    let parents = match find_part(parts, 3, "target parent path") {
        Ok(v) => v,
        Err(e) => {
            return Err(e);
        },
    };
    let target = match find_part(parts, 4, "target slug") {
        Ok(v) => v,
        Err(e) => {
            return Err(e);
        },
    };
    Ok(WorkspaceOperation::MoveFolder {
        collection: collection.to_owned(),
        folders: workspace_segments(folders),
        parents: workspace_segments(parents),
        target: target.to_owned(),
    })
}

fn read_duplicate_folder(parts: &[String]) -> (r: Result<WorkspaceOperation, String>)
    requires
        parts@.len() > 0,
    ensures
        outcome(r) == duplicate_folder_asked(texts(parts@)),
{
    let collection = match find_part(parts, 1, "collection") {
        Ok(v) => v,
        Err(e) => {
            return Err(e);
        },
    };
    let folders = match find_part(parts, 2, "source folder path") {
        Ok(v) => v,
        Err(e) => {
            return Err(e);
        },
    };
    let parents = match find_part(parts, 3, "target parent path") {
        Ok(v) => v,
        Err(e) => {
            return Err(e);
        },
    };
    let target = match find_part(parts, 4, "target slug") {
        Ok(v) => v,
        Err(e) => {
            return Err(e);
        },
    };
    Ok(WorkspaceOperation::DuplicateFolder {
        collection: collection.to_owned(),
        folders: workspace_segments(folders),
        parents: workspace_segments(parents),
        target: target.to_owned(),
    })
}

fn read_delete_folder(parts: &[String]) -> (r: Result<WorkspaceOperation, String>)
    requires
        parts@.len() > 0,
    ensures
        outcome(r) == delete_folder_asked(texts(parts@)),
{
    let collection = match find_part(parts, 1, "collection") {
        Ok(v) => v,
        Err(e) => {
            return Err(e);
        },
    };
    let folders = match find_part(parts, 2, "folder path") {
        Ok(v) => v,
        Err(e) => {
            return Err(e);
        },
    };
    Ok(WorkspaceOperation::DeleteFolder {
        collection: collection.to_owned(),
        folders: workspace_segments(folders),
    })
}

fn read_archive_folder(parts: &[String]) -> (r: Result<WorkspaceOperation, String>)
    requires
        parts@.len() > 0,
    ensures
        outcome(r) == archive_folder_asked(texts(parts@)),
{
    let collection = match find_part(parts, 1, "collection") {
        Ok(v) => v,
        Err(e) => {
            return Err(e);
        },
    };
    let folders = match find_part(parts, 2, "folder path") {
        Ok(v) => v,
        Err(e) => {
            return Err(e);
        },
    };
    let archived = match find_truth(parts, 3, "true/false", "archive_folder requires true or false") {
        Ok(v) => v,
        Err(e) => {
            return Err(e);
        },
    };
    Ok(WorkspaceOperation::ArchiveFolder {
        collection: collection.to_owned(),
        folders: workspace_segments(folders),
        archived,
    })
}

fn read_create_request(repository: &WorkspaceRepository, parts: &[String], ancestry: &[Ancestry]) -> (r: Result<WorkspaceOperation, String>)
    requires
        parts@.len() > 0,
    ensures
        outcome(r) == create_request_asked(repository@, texts(parts@), ancestry_views(ancestry@)),
{
    let path = match find_path(repository, parts, 1, "relative path", ancestry, 0) {
        Ok(v) => v,
        Err(e) => {
            return Err(e);
        },
    };
    let id = match find_id(parts, 2, "id") {
        Ok(v) => v,
        Err(e) => {
            return Err(e);
        },
    };
    let name = match find_part(parts, 3, "name") {
        Ok(v) => v,
        Err(e) => {
            return Err(e);
        },
    };
    let url = match find_part(parts, 4, "url") {
        Ok(v) => v,
        Err(e) => {
            return Err(e);
        },
    };
    Ok(WorkspaceOperation::CreateRequest {
        path,
        id,
        name: name.to_owned(),
        url: url.to_owned(),
    })
}

fn read_move_request(repository: &WorkspaceRepository, parts: &[String], ancestry: &[Ancestry]) -> (r: Result<WorkspaceOperation, String>)
    requires
        parts@.len() > 0,
    ensures
        outcome(r) == move_request_asked(repository@, texts(parts@), ancestry_views(ancestry@)),
{
    let source = match find_path(repository, parts, 1, "source relative path", ancestry, 0) {
        Ok(v) => v,
        Err(e) => {
            return Err(e);
        },
    };
    let target = match find_path(repository, parts, 2, "target relative path", ancestry, 1) {
        Ok(v) => v,
        Err(e) => {
            return Err(e);
        },
    };
    Ok(WorkspaceOperation::MoveRequest {
        source,
        target,
    })
}

fn read_duplicate_request(repository: &WorkspaceRepository, parts: &[String], ancestry: &[Ancestry]) -> (r: Result<WorkspaceOperation, String>)
    requires
        parts@.len() > 0,
    ensures
        outcome(r) == duplicate_request_asked(repository@, texts(parts@), ancestry_views(ancestry@)),
{
    let source = match find_path(repository, parts, 1, "source relative path", ancestry, 0) {
        Ok(v) => v,
        Err(e) => {
            return Err(e);
        },
    };
    let target = match find_path(repository, parts, 2, "target relative path", ancestry, 1) {
        Ok(v) => v,
        Err(e) => {
            return Err(e);
        },
    };
    Ok(WorkspaceOperation::DuplicateRequest {
        source,
        target,
    })
}

fn read_delete_request(repository: &WorkspaceRepository, parts: &[String], ancestry: &[Ancestry]) -> (r: Result<WorkspaceOperation, String>)
    requires
        parts@.len() > 0,
    ensures
        outcome(r) == delete_request_asked(repository@, texts(parts@), ancestry_views(ancestry@)),
{
    let path = match find_path(repository, parts, 1, "relative path", ancestry, 0) {
        Ok(v) => v,
        Err(e) => {
            return Err(e);
        },
    };
    Ok(WorkspaceOperation::DeleteRequest {
        path,
    })
}

fn read_set_order(parts: &[String]) -> (r: Result<WorkspaceOperation, String>)
    requires
        parts@.len() > 0,
    ensures
        outcome(r) == set_order_asked(texts(parts@)),
{
    let collection = match find_part(parts, 1, "collection") {
        Ok(v) => v,
        Err(e) => {
            return Err(e);
        },
    };
    let folders = match find_part(parts, 2, "folder path or '-' for collection root") {
        Ok(v) => v,
        Err(e) => {
            return Err(e);
        },
    };
    let items = match find_part(parts, 3, "comma-separated items") {
        Ok(v) => v,
        Err(e) => {
            return Err(e);
        },
    };
    Ok(WorkspaceOperation::SetOrder {
        collection: collection.to_owned(),
        folders: find_order_folders(folders),
        items: find_items(items, ','),
    })
}

/// Reads the change that a command asks for, given what the disk says of the paths it names.
pub fn parse_workspace_operation(
    repository: &WorkspaceRepository,
    command: &str,
    ancestry: &[Ancestry],
) -> (r: Result<WorkspaceOperation, String>)
    ensures
        outcome(r) == operation_asked(repository@, command@, ancestry_views(ancestry@)),
{
    let list = split_command(command);
    let parts = list.as_slice();
    let ghost all = texts(parts@);
    assert(all[0] == parts@[0]@);
    let name = parts[0].as_str();
    if same_text(name, "create_collection") {
        read_create_collection(parts)
    } else if same_text(name, "rename_collection") {
        read_rename_collection(parts)
    } else if same_text(name, "duplicate_collection") {
        read_duplicate_collection(parts)
    } else if same_text(name, "delete_collection") {
        read_delete_collection(parts)
    } else if same_text(name, "archive_collection") {
        read_archive_collection(parts)
    } else if same_text(name, "create_folder") {
        read_create_folder(parts)
    } else if same_text(name, "rename_folder") {
        read_rename_folder(parts)
    } else if same_text(name, "move_folder") {
        read_move_folder(parts)
    } else if same_text(name, "duplicate_folder") {
        read_duplicate_folder(parts)
    } else if same_text(name, "delete_folder") {
        read_delete_folder(parts)
    } else if same_text(name, "archive_folder") {
        read_archive_folder(parts)
    } else if same_text(name, "create_request") {
        read_create_request(repository, parts, ancestry)
    } else if same_text(name, "move_request") {
        read_move_request(repository, parts, ancestry)
    } else if same_text(name, "duplicate_request") {
        read_duplicate_request(repository, parts, ancestry)
    } else if same_text(name, "delete_request") {
        read_delete_request(repository, parts, ancestry)
    } else if same_text(name, "set_order") {
        read_set_order(parts)
    } else {
        Err(
            "unknown workspace operation; use create/rename/duplicate/delete/archive collection or folder, create/move/duplicate/delete request, or set_order".to_owned(),
        )
    }
}

/// The paths that a command names, of which the disk has to be asked before it is carried out.
pub open spec fn paths_named(command: Seq<char>) -> Seq<Seq<char>> {
    let parts = command_parts(command);
    let name = parts[0];
    if name == "create_request"@ || name == "delete_request"@ {
        parts.subrange(1, least_count(parts.len(), 2))
    } else if name == "move_request"@ || name == "duplicate_request"@ {
        parts.subrange(1, least_count(parts.len(), 3))
    } else {
        seq![]
    }
}

/// The lesser of two counts.
pub open spec fn least_count(a: nat, b: nat) -> int {
    if a < b {
        a as int
    } else {
        b as int
    }
}

/// Finds the paths that a command names.
pub fn operation_paths(command: &str) -> (r: Vec<String>)
    ensures
        texts(r@) == paths_named(command@),
{
    let list = split_command(command);
    let ghost all = texts(list@);
    assert(all[0] == list@[0]@);
    let name = list[0].as_str();
    let limit: usize = if same_text(name, "create_request") || same_text(name, "delete_request") {
        2
    } else if same_text(name, "move_request") || same_text(name, "duplicate_request") {
        3
    } else {
        1
    };
    let end: usize = if list.len() < limit {
        list.len()
    } else {
        limit
    };
    let mut r: Vec<String> = Vec::new();
    for i in 1..end
        invariant
            all == texts(list@),
            end <= list@.len(),
            r@.len() == i - 1,
            forall|k: int| 0 <= k < r@.len() ==> (#[trigger] r@[k])@ == all[k + 1],
    {
        r.push(list[i].clone());
    }
    assert(texts(r@) =~= paths_named(command@));
    r
}

} // verus!
