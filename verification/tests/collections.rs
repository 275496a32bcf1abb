//! Collections and folders: made, renamed, moved, copied, archived and deleted.
use apex_api::collection::{CollectionDocument, FolderDocument, OrderDocument};
use apex_api::domain::{
    Authentication, HttpMethod, HttpRequest, RequestBody, RequestSettings, StableId,
};
use apex_api::error::WorkspaceError;
use apex_api::files::{FileNode, FileTree, LinkTarget};
use apex_api::manifest::WorkspaceManifest;
use apex_api::naming::IdSource;
use apex_api::repository::WorkspaceRepository;
use apex_api::request::RequestDocument;

fn stable(value: &str) -> StableId {
    StableId::parse(value).unwrap()
}

fn folders(names: &[&str]) -> Vec<String> {
    names.iter().map(|n| n.to_string()).collect()
}

fn ids() -> IdSource {
    IdSource {
        timestamp: 0x1234,
        sequence: 1,
    }
}

fn fixture_repository() -> (WorkspaceRepository, FileTree) {
    let repository = WorkspaceRepository::new("/workspace/fixture").unwrap();
    let mut files = FileTree::new();
    repository
        .initialize(
            &mut files,
            &WorkspaceManifest::new(stable("workspace"), "Fixture".to_owned()),
        )
        .unwrap();
    (repository, files)
}

fn collection(id: &str, name: &str) -> CollectionDocument {
    CollectionDocument::new(stable(id), name.to_owned())
}

fn folder(id: &str, name: &str) -> FolderDocument {
    FolderDocument::new(stable(id), name.to_owned())
}

fn request(id: &str, name: &str) -> HttpRequest {
    HttpRequest {
        id: stable(id),
        name: name.to_owned(),
        method: HttpMethod::Get,
        url: "https://example.test".to_owned(),
        query: Vec::new(),
        headers: Vec::new(),
        authentication: Authentication::Anonymous,
        body: RequestBody::Empty,
        settings: RequestSettings::default(),
        documentation: String::new(),
    }
}

fn save_fixture_request(
    repository: &WorkspaceRepository,
    files: &mut FileTree,
    collection: &str,
    folders: &[String],
    slug: &str,
) {
    let path = repository
        .folder_path(collection, folders)
        .unwrap()
        .join(&format!("{slug}.request.toml"));
    repository
        .save_request(files, &path, &RequestDocument::new(request(slug, slug)), None, &[])
        .unwrap();
}

#[test]
fn collection_round_trip_and_rename_preserve_identity() {
    let (repository, mut files) = fixture_repository();
    let document = collection("users", "Users API");
    let fingerprint = repository
        .create_collection(&mut files, "users", &document, 1)
        .expect("create collection");
    repository
        .rename_collection(&mut files, "users", "accounts", fingerprint)
        .expect("rename collection");
    let loaded = repository
        .load_collection(&files, "accounts")
        .expect("load renamed collection");
    assert_eq!(loaded.value.id, stable("users"));
    assert!(!files.has("collections/users"));
}

#[test]
fn duplicate_collection_rekeys_collection_folder_and_request() {
    let (repository, mut files) = fixture_repository();
    let admin = folders(&["admin"]);
    repository
        .create_collection(&mut files, "users", &collection("collection-source", "Users"), 1)
        .expect("collection");
    repository
        .create_folder(&mut files, "users", &admin, &folder("folder-source", "Admin"), 2)
        .expect("folder");
    let request_path = repository.folder_path("users", &admin).unwrap().join("get.request.toml");
    repository
        .save_request(
            &mut files,
            &request_path,
            &RequestDocument::new(request("request-source", "Get User")),
            None,
            &[],
        )
        .expect("request");
    let source_fingerprint = repository.collection_fingerprint(&files, "users").unwrap();
    repository
        .duplicate_collection(&mut files, "users", "users-copy", source_fingerprint, ids(), &[Vec::new()], 3)
        .expect("duplicate");

    let copied_collection = repository.load_collection(&files, "users-copy").unwrap();
    let copied_folder = repository.load_folder(&files, "users-copy", &admin).unwrap();
    let copied_request = repository
        .load_request(
            &files,
            &repository
                .folder_path("users-copy", &admin)
                .unwrap()
                .join("get.request.toml"),
        )
        .unwrap();
    assert_ne!(copied_collection.value.id, stable("collection-source"));
    assert_ne!(copied_folder.value.id, stable("folder-source"));
    assert_ne!(copied_request.value.request.id, stable("request-source"));
}

#[test]
fn archived_collection_and_folder_are_excluded_from_request_index() {
    let (repository, mut files) = fixture_repository();
    let admin = folders(&["admin"]);
    repository
        .create_collection(&mut files, "users", &collection("users", "Users"), 1)
        .unwrap();
    repository
        .create_folder(&mut files, "users", &admin, &folder("admin", "Admin"), 2)
        .unwrap();
    save_fixture_request(&repository, &mut files, "users", &admin, "get");
    assert_eq!(repository.list_requests(&files).unwrap().len(), 1);

    let loaded = repository.load_folder(&files, "users", &admin).unwrap();
    repository
        .set_folder_archived(&mut files, "users", &admin, true, loaded.fingerprint)
        .unwrap();
    assert!(repository.list_requests(&files).unwrap().is_empty());

    let loaded = repository.load_folder(&files, "users", &admin).unwrap();
    repository
        .set_folder_archived(&mut files, "users", &admin, false, loaded.fingerprint)
        .unwrap();
    let loaded = repository.load_collection(&files, "users").unwrap();
    repository
        .set_collection_archived(&mut files, "users", true, loaded.fingerprint)
        .unwrap();
    assert!(repository.list_requests(&files).unwrap().is_empty());
}

#[test]
fn move_and_rename_folder_are_atomic_and_path_safe() {
    let (repository, mut files) = fixture_repository();
    repository
        .create_collection(&mut files, "users", &collection("users", "Users"), 1)
        .unwrap();
    repository
        .create_folder(&mut files, "users", &folders(&["source"]), &folder("source", "Source"), 2)
        .unwrap();
    repository
        .create_folder(&mut files, "users", &folders(&["target"]), &folder("target", "Target"), 3)
        .unwrap();
    let fingerprint = repository
        .folder_fingerprint(&files, "users", &folders(&["source"]))
        .unwrap();
    repository
        .move_folder(
            &mut files,
            "users",
            &folders(&["source"]),
            &folders(&["target"]),
            "moved",
            fingerprint,
        )
        .unwrap();
    let moved = folders(&["target", "moved"]);
    let fingerprint = repository.folder_fingerprint(&files, "users", &moved).unwrap();
    repository
        .rename_folder(&mut files, "users", &moved, "renamed", fingerprint)
        .unwrap();
    assert!(files.has("collections/users/target/renamed"));
    let fingerprint = repository
        .folder_fingerprint(&files, "users", &folders(&["target"]))
        .unwrap();
    assert!(repository
        .move_folder(
            &mut files,
            "users",
            &folders(&["target"]),
            &folders(&["target", "renamed"]),
            "invalid",
            fingerprint,
        )
        .is_err());
}

#[test]
fn order_file_controls_request_index_without_renaming_files() {
    let (repository, mut files) = fixture_repository();
    repository
        .create_collection(&mut files, "users", &collection("users", "Users"), 1)
        .unwrap();
    save_fixture_request(&repository, &mut files, "users", &[], "alpha");
    save_fixture_request(&repository, &mut files, "users", &[], "beta");
    repository
        .save_order(
            &mut files,
            Some("users"),
            &[],
            &OrderDocument::new(vec![
                "beta.request.toml".to_owned(),
                "alpha.request.toml".to_owned(),
            ]),
            None,
        )
        .unwrap();
    let requests = repository.list_requests(&files).unwrap();
    assert_eq!(requests[0].slug, "beta");
    assert_eq!(requests[1].slug, "alpha");
}

#[test]
fn directory_fingerprint_detects_empty_folder_changes() {
    let (repository, mut files) = fixture_repository();
    repository
        .create_collection(&mut files, "users", &collection("users", "Users"), 1)
        .unwrap();
    let fingerprint = repository.collection_fingerprint(&files, "users").unwrap();
    files.observe("collections/users/external-empty".to_owned(), FileNode::Directory);
    assert!(matches!(
        repository.rename_collection(&mut files, "users", "accounts", fingerprint),
        Err(WorkspaceError::ExternalChange(_))
    ));
}

#[test]
fn stale_directory_fingerprint_rejects_destructive_mutation() {
    let (repository, mut files) = fixture_repository();
    repository
        .create_collection(&mut files, "users", &collection("users", "Users"), 1)
        .unwrap();
    let fingerprint = repository.collection_fingerprint(&files, "users").unwrap();
    files.observe(
        "collections/users/external.txt".to_owned(),
        FileNode::File(b"external edit".to_vec()),
    );
    assert!(matches!(
        repository.rename_collection(&mut files, "users", "accounts", fingerprint),
        Err(WorkspaceError::ExternalChange(_))
    ));
    assert!(files.has("collections/users"));
}

#[test]
fn delete_uses_snapshot_guard_and_removes_the_tree() {
    let (repository, mut files) = fixture_repository();
    let fingerprint = repository
        .create_collection(&mut files, "users", &collection("users", "Users"), 1)
        .unwrap();
    repository
        .delete_collection(&mut files, "users", fingerprint, 2)
        .expect("delete collection");
    assert!(!files.has("collections/users"));
}

#[test]
fn failed_duplicate_does_not_publish_partial_destination() {
    let (repository, mut files) = fixture_repository();
    repository
        .create_collection(&mut files, "users", &collection("users", "Users"), 1)
        .unwrap();
    files.observe(
        "collections/users/broken.request.toml".to_owned(),
        FileNode::File(b"not a request document".to_vec()),
    );
    let fingerprint = repository.collection_fingerprint(&files, "users").unwrap();
    assert!(repository
        .duplicate_collection(&mut files, "users", "users-copy", fingerprint, ids(), &[], 2)
        .is_err());
    assert!(!files.has("collections/users-copy"));
}

#[test]
fn duplicate_rejects_symbolic_links() {
    let (repository, mut files) = fixture_repository();
    repository
        .create_collection(&mut files, "users", &collection("users", "Users"), 1)
        .unwrap();
    files.observe("collections/users/escape".to_owned(), FileNode::Link(LinkTarget::Directory));
    assert!(matches!(
        repository.collection_fingerprint(&files, "users"),
        Err(WorkspaceError::SymbolicLink(_))
    ));
}

#[test]
fn failed_copy_leaves_nothing_behind() {
    let (repository, mut files) = fixture_repository();
    repository
        .create_collection(&mut files, "users", &collection("users", "Users"), 1)
        .unwrap();
    files.observe(
        "collections/users/broken.request.toml".to_owned(),
        FileNode::File(b"not a request document".to_vec()),
    );
    let before = files.all_paths();
    let fingerprint = repository.collection_fingerprint(&files, "users").unwrap();
    assert!(repository
        .duplicate_collection(&mut files, "users", "users-copy", fingerprint, ids(), &[], 2)
        .is_err());
    assert_eq!(files.all_paths(), before);
}

#[test]
fn renamed_collection_has_the_same_fingerprint() {
    let (repository, mut files) = fixture_repository();
    repository
        .create_collection(&mut files, "users", &collection("users", "Users"), 1)
        .unwrap();
    save_fixture_request(&repository, &mut files, "users", &[], "alpha");
    let before = repository.collection_fingerprint(&files, "users").unwrap();
    let after = repository
        .rename_collection(&mut files, "users", "accounts", before)
        .unwrap();
    assert_eq!(before, after);
    assert_eq!(repository.collection_fingerprint(&files, "accounts").unwrap(), before);
}

#[test]
fn what_is_there_already_is_not_made_again() {
    let (repository, mut files) = fixture_repository();
    let fingerprint = repository
        .create_collection(&mut files, "users", &collection("users", "Users"), 1)
        .unwrap();
    repository
        .create_collection(&mut files, "teams", &collection("teams", "Teams"), 2)
        .unwrap();
    assert!(matches!(
        repository.create_collection(&mut files, "users", &collection("users", "Users"), 3),
        Err(WorkspaceError::AlreadyExists(_))
    ));
    assert!(matches!(
        repository.rename_collection(&mut files, "users", "teams", fingerprint),
        Err(WorkspaceError::AlreadyExists(_))
    ));
    assert!(matches!(
        repository.create_collection(&mut files, "Bad Slug", &collection("x", "X"), 4),
        Err(WorkspaceError::InvalidPath(_))
    ));
    assert!(matches!(
        repository.create_folder(&mut files, "users", &[], &folder("x", "X"), 5),
        Err(WorkspaceError::InvalidPath(_))
    ));
}

#[test]
fn an_order_names_what_is_there_once() {
    let (repository, mut files) = fixture_repository();
    repository
        .create_collection(&mut files, "users", &collection("users", "Users"), 1)
        .unwrap();
    save_fixture_request(&repository, &mut files, "users", &[], "alpha");
    let mut save = |items: &[&str]| {
        repository.save_order(
            &mut files,
            Some("users"),
            &[],
            &OrderDocument::new(folders(items)),
            None,
        )
    };
    assert!(save(&["missing.request.toml"]).is_err());
    assert!(save(&["alpha.request.toml", "alpha.request.toml"]).is_err());
    assert!(save(&["../alpha.request.toml"]).is_err());
    assert!(save(&["alpha.request.toml"]).is_ok());
    let loaded = repository.load_order(&files, Some("users"), &[]).unwrap().unwrap();
    assert_eq!(loaded.value.items, ["alpha.request.toml"]);
    assert!(repository.load_order(&files, None, &folders(&["x"])).is_err());
}

#[test]
fn copied_folder_keeps_its_requests_under_other_identifiers() {
    let (repository, mut files) = fixture_repository();
    repository
        .create_collection(&mut files, "users", &collection("users", "Users"), 1)
        .unwrap();
    for (name, nonce) in [("source", 2), ("target", 3)] {
        repository
            .create_folder(&mut files, "users", &folders(&[name]), &folder(name, name), nonce)
            .unwrap();
    }
    save_fixture_request(&repository, &mut files, "users", &folders(&["source"]), "get");
    let fingerprint = repository
        .folder_fingerprint(&files, "users", &folders(&["source"]))
        .unwrap();
    repository
        .duplicate_folder(
            &mut files,
            "users",
            &folders(&["source"]),
            &folders(&["target"]),
            "copy",
            fingerprint,
            ids(),
            &[Vec::new()],
            4,
        )
        .unwrap();
    let entries = repository.list_requests(&files).unwrap();
    assert_eq!(entries.len(), 2);
    assert_eq!(entries[0].folders, ["source"]);
    assert_eq!(entries[1].folders, ["target", "copy"]);
    assert_ne!(entries[0].id, entries[1].id);
}

#[test]
fn trees_with_links_are_left_alone() {
    let (repository, mut files) = fixture_repository();
    repository
        .create_collection(&mut files, "users", &collection("users", "Users"), 1)
        .unwrap();
    repository
        .create_folder(&mut files, "users", &folders(&["admin"]), &folder("admin", "Admin"), 2)
        .unwrap();
    let fingerprint = repository.collection_fingerprint(&files, "users").unwrap();
    files.observe("collections/users/admin/escape".to_owned(), FileNode::Link(LinkTarget::Directory));
    let before = files.all_paths();
    assert!(repository
        .rename_collection(&mut files, "users", "accounts", fingerprint)
        .is_err());
    assert!(repository
        .duplicate_collection(&mut files, "users", "copy", fingerprint, ids(), &[], 3)
        .is_err());
    assert!(repository.delete_collection(&mut files, "users", fingerprint, 4).is_err());
    assert_eq!(files.all_paths(), before);
}

#[test]
fn made_up_identifiers_differ() {
    let mut source = ids();
    let first = source.generated_id("request");
    let second = source.generated_id("request");
    assert_eq!(first.as_str(), "request-1234-1");
    assert_eq!(second.as_str(), "request-1234-2");
}

#[test]
fn copies_hand_out_what_they_write() {
    let (repository, mut files) = fixture_repository();
    repository
        .create_collection(&mut files, "users", &collection("users", "Users"), 1)
        .unwrap();
    for slug in ["alpha", "beta"] {
        save_fixture_request(&repository, &mut files, "users", &[], slug);
    }
    let texts = repository.collection_copy_texts(files.clone(), "users", "copy", ids(), 5);
    assert_eq!(texts.len(), 2);
    assert_ne!(texts[0], texts[1]);
    let fingerprint = repository.collection_fingerprint(&files, "users").unwrap();
    repository
        .duplicate_collection(
            &mut files,
            "users",
            "copy",
            fingerprint,
            ids(),
            &[Vec::new(), Vec::new()],
            5,
        )
        .unwrap();
    for (slug, text) in [("alpha", &texts[0]), ("beta", &texts[1])] {
        let place = format!("collections/copy/{slug}.request.toml");
        assert_eq!(files.file(&place), Some(text.as_bytes()));
    }
    let entries = repository.list_requests(&files).unwrap();
    assert_eq!(entries.len(), 4);
    for (i, entry) in entries.iter().enumerate() {
        assert!(entries[..i].iter().all(|other| other.id != entry.id));
    }
    assert!(repository
        .collection_copy_texts(files.clone(), "users", "not a slug", ids(), 5)
        .is_empty());
    assert!(repository
        .folder_copy_texts(files, "users", &[], &folders(&["gone"]), "copy", ids(), 5)
        .is_empty());
}

#[test]
fn copies_that_leak_or_were_not_scanned_are_refused() {
    let (repository, mut files) = fixture_repository();
    repository
        .create_collection(&mut files, "users", &collection("users", "Users"), 1)
        .unwrap();
    for slug in ["alpha", "beta"] {
        save_fixture_request(&repository, &mut files, "users", &[], slug);
    }
    let before = files.all_paths();
    let fingerprint = repository.collection_fingerprint(&files, "users").unwrap();
    assert_eq!(
        repository.duplicate_collection(
            &mut files,
            "users",
            "copy",
            fingerprint,
            ids(),
            &[Vec::new()],
            2,
        ),
        Err(WorkspaceError::InvalidFormat(
            "request text was not scanned for secrets".to_owned()
        ))
    );
    assert_eq!(
        repository.duplicate_collection(
            &mut files,
            "users",
            "copy",
            fingerprint,
            ids(),
            &[Vec::new(), vec!["line 3".to_owned()]],
            2,
        ),
        Err(WorkspaceError::SecretLeak(vec!["line 3".to_owned()]))
    );
    assert_eq!(files.all_paths(), before);
}

#[test]
fn directories_are_not_made_below_files() {
    let (repository, mut files) = fixture_repository();
    files.observe("collections".to_owned(), FileNode::File(b"in the way".to_vec()));
    assert_eq!(
        repository.create_collection(&mut files, "users", &collection("users", "Users"), 1),
        Err(WorkspaceError::Io(
            "cannot make the directory /workspace/fixture/collections".to_owned()
        ))
    );
    assert!(matches!(
        repository.initialize(
            &mut FileTree::new(),
            &WorkspaceManifest::new(stable("workspace"), "Fixture".to_owned()),
        ),
        Ok(_)
    ));
    let mut blocked = FileTree::new();
    blocked.observe("grpc".to_owned(), FileNode::File(Vec::new()));
    assert!(matches!(
        repository.initialize(
            &mut blocked,
            &WorkspaceManifest::new(stable("workspace"), "Fixture".to_owned()),
        ),
        Err(WorkspaceError::Io(_))
    ));
    assert!(blocked.has("schemas"));
    assert!(!blocked.has("mocks"));
    assert!(!blocked.has("apex.toml"));
}

#[test]
fn links_are_followed_where_a_path_is_named() {
    let (repository, mut files) = fixture_repository();
    repository
        .create_collection(&mut files, "users", &collection("users", "Users"), 1)
        .unwrap();
    save_fixture_request(&repository, &mut files, "users", &[], "alpha");
    let bytes = files.file("collections/users/alpha.request.toml").unwrap().to_vec();
    files.observe(
        "collections/users/linked.request.toml".to_owned(),
        FileNode::Link(LinkTarget::File(bytes)),
    );
    let linked = repository
        .collection_path("users")
        .unwrap()
        .join("linked.request.toml");
    let loaded = repository.load_request(&files, &linked).unwrap();
    assert_eq!(loaded.value.request.id, stable("alpha"));
    assert!(matches!(
        repository.save_request(&mut files, &linked, &loaded.value, None, &[]),
        Err(WorkspaceError::AlreadyExists(_))
    ));
    repository
        .save_request(&mut files, &linked, &loaded.value, Some(loaded.fingerprint), &[])
        .unwrap();
    assert!(matches!(
        files.node("collections/users/linked.request.toml"),
        Some(FileNode::File(_))
    ));

    files.observe(
        "collections/users/stale.request.toml".to_owned(),
        FileNode::Link(LinkTarget::Missing),
    );
    let stale = repository
        .collection_path("users")
        .unwrap()
        .join("stale.request.toml");
    assert!(repository.load_request(&files, &stale).is_err());
    repository
        .save_request(&mut files, &stale, &RequestDocument::new(request("s", "S")), None, &[])
        .unwrap();

    files.observe(
        "collections/gone".to_owned(),
        FileNode::Link(LinkTarget::Missing),
    );
    assert!(matches!(
        repository.create_collection(&mut files, "gone", &collection("gone", "Gone"), 2),
        Err(WorkspaceError::Io(_))
    ));
}

#[test]
fn places_for_a_while_that_are_taken() {
    let (repository, mut files) = fixture_repository();
    files.observe("collections/.users.create.1.tmp".to_owned(), FileNode::Directory);
    assert_eq!(
        repository.create_collection(&mut files, "users", &collection("users", "Users"), 1),
        Err(WorkspaceError::Io(
            "cannot make the directory /workspace/fixture/collections/.users.create.1.tmp"
                .to_owned()
        ))
    );
    assert!(!files.has("collections/.users.create.1.tmp"));
    assert!(!files.has("collections/users"));
    repository
        .create_collection(&mut files, "users", &collection("users", "Users"), 1)
        .unwrap();

    files.observe("collections/.copy.copy.2.tmp".to_owned(), FileNode::File(Vec::new()));
    let fingerprint = repository.collection_fingerprint(&files, "users").unwrap();
    assert!(matches!(
        repository.duplicate_collection(&mut files, "users", "copy", fingerprint, ids(), &[], 2),
        Err(WorkspaceError::Io(_))
    ));
    assert!(files.has("collections/.copy.copy.2.tmp"));
    assert!(!files.has("collections/copy"));

    files.observe("collections/.users.delete.3.tmp".to_owned(), FileNode::Directory);
    files.observe("collections/.users.delete.3.tmp/x".to_owned(), FileNode::File(Vec::new()));
    assert_eq!(
        repository.delete_collection(&mut files, "users", fingerprint, 3),
        Err(WorkspaceError::Io(
            "cannot move to /workspace/fixture/collections/.users.delete.3.tmp".to_owned()
        ))
    );
    files.observe("collections/.users.delete.4.tmp".to_owned(), FileNode::Directory);
    repository
        .delete_collection(&mut files, "users", fingerprint, 4)
        .unwrap();
    assert!(!files.has("collections/users"));
    assert!(!files.has("collections/.users.delete.4.tmp"));
}

#[test]
fn what_is_moved_takes_the_place_of_a_stale_link_or_leaves_it() {
    let (repository, mut files) = fixture_repository();
    repository
        .create_collection(&mut files, "users", &collection("users", "Users"), 1)
        .unwrap();
    files.observe("collections/stale".to_owned(), FileNode::Link(LinkTarget::Missing));
    let fingerprint = repository.collection_fingerprint(&files, "users").unwrap();
    assert_eq!(
        repository.rename_collection(&mut files, "users", "stale", fingerprint),
        Err(WorkspaceError::Io(
            "cannot move to /workspace/fixture/collections/stale".to_owned()
        ))
    );
    assert!(files.has("collections/users/collection.toml"));
    assert!(files.can_move("collections/users/collection.toml", "collections/stale"));
    assert!(!files.can_move("collections/users", "collections/users/inside"));
    assert!(!files.can_move("collections/users", "gone/users"));
    assert!(!files.can_move("collections/gone", "collections/there"));
}

#[test]
fn a_copy_of_a_linked_directory_is_a_directory() {
    let (repository, mut files) = fixture_repository();
    repository
        .create_collection(&mut files, "users", &collection("users", "Users"), 1)
        .unwrap();
    files.observe("collections/users".to_owned(), FileNode::Link(LinkTarget::Directory));
    let fingerprint = repository.collection_fingerprint(&files, "users").unwrap();
    repository
        .duplicate_collection(&mut files, "users", "copy", fingerprint, ids(), &[], 2)
        .unwrap();
    assert_eq!(files.node("collections/copy"), Some(&FileNode::Directory));
    assert!(files.has("collections/copy/collection.toml"));
    let fingerprint = repository.collection_fingerprint(&files, "users").unwrap();
    repository
        .rename_collection(&mut files, "users", "moved", fingerprint)
        .unwrap();
    assert_eq!(
        files.node("collections/moved"),
        Some(&FileNode::Link(LinkTarget::Directory))
    );
}

#[test]
fn all_that_is_there_lies_in_directories() {
    let (repository, mut files) = fixture_repository();
    repository
        .create_collection(&mut files, "users", &collection("users", "Users"), 1)
        .unwrap();
    repository
        .create_folder(&mut files, "users", &folders(&["admin"]), &folder("admin", "Admin"), 2)
        .unwrap();
    save_fixture_request(&repository, &mut files, "users", &folders(&["admin"]), "get");
    let fingerprint = repository.collection_fingerprint(&files, "users").unwrap();
    repository
        .duplicate_collection(
            &mut files,
            "users",
            "copy",
            fingerprint,
            ids(),
            &[Vec::new()],
            3,
        )
        .unwrap();
    let moved = repository
        .rename_collection(&mut files, "users", "people", fingerprint)
        .unwrap();
    assert_eq!(moved, fingerprint);
    let fingerprint = repository.collection_fingerprint(&files, "copy").unwrap();
    repository.delete_collection(&mut files, "copy", fingerprint, 4).unwrap();
    for path in files.all_paths() {
        if let Some((directory, _)) = path.rsplit_once('/') {
            assert_eq!(files.node(directory), Some(&FileNode::Directory), "{path}");
        }
    }
}
