//! Work on disk that fails half way: what is tried next, and what is told.
use apex_api::collection::{CollectionDocument, FolderDocument};
use apex_api::disk_work::{DiskStep, DiskWork, StepError};
use apex_api::domain::StableId;
use apex_api::environment::VariableSetDocument;
use apex_api::error::WorkspaceError;
use apex_api::files::{FileAction, FileTree};
use apex_api::manifest::WorkspaceManifest;
use apex_api::naming::IdSource;
use apex_api::paths::ResourcePath;
use apex_api::repository::WorkspaceRepository;
use apex_api::repository_environments::deletion_receipt;

const ROOT: &str = "/workspace/demo";

fn stable(value: &str) -> StableId {
    StableId::parse(value).unwrap()
}

fn workspace() -> (WorkspaceRepository, FileTree) {
    let repository = WorkspaceRepository::new(ROOT).unwrap();
    let mut files = FileTree::new();
    repository
        .initialize(
            &mut files,
            &WorkspaceManifest::new(stable("workspace"), "Demo".to_owned()),
        )
        .unwrap();
    (repository, files)
}

/// A disk of which some steps fail, counted from the first.
struct Disk {
    files: FileTree,
    tried: Vec<String>,
    failing: Vec<usize>,
}

fn shown(step: &DiskStep) -> String {
    match step {
        DiskStep::Change(FileAction::MakeDirectories(path)) => format!("make {path}"),
        DiskStep::Change(FileAction::Write { path, .. }) => format!("write {path}"),
        DiskStep::Change(FileAction::Rename { from, to }) => format!("{from} -> {to}"),
        DiskStep::Change(FileAction::CopyTree { from, to }) => format!("copy {from} to {to}"),
        DiskStep::Change(FileAction::RemoveTree(path)) => format!("remove {path}"),
        DiskStep::Settle(path) => format!("settle {path}"),
    }
}

impl Disk {
    fn perform(&mut self, step: &DiskStep) -> Result<(), StepError> {
        let position = self.tried.len();
        self.tried.push(shown(step));
        if self.failing.contains(&position) {
            return Err(StepError {
                message: format!("failure {position}"),
                details: format!("Failure({position})"),
            });
        }
        if let DiskStep::Change(action) = step {
            self.files.perform(action.clone());
        }
        Ok(())
    }

    fn run(&mut self, mut work: DiskWork) -> Result<Option<String>, WorkspaceError> {
        loop {
            let event = match work.step() {
                Some(step) => self.perform(step),
                None => break,
            };
            work = work.advance(event);
        }
        work.outcome().unwrap().clone()
    }
}

fn disk(files: &FileTree, failing: &[usize]) -> Disk {
    Disk {
        files: files.clone(),
        tried: Vec::new(),
        failing: failing.to_vec(),
    }
}

/// The changes that a function of the library makes.
fn changes(before: &FileTree, after: &FileTree) -> Vec<FileAction> {
    after.journal()[before.journal().len()..].to_vec()
}

fn environment_deletion() -> (WorkspaceRepository, FileTree, Vec<FileAction>) {
    let (repository, mut files) = workspace();
    let id = stable("dev");
    let fingerprint = repository
        .create_environment(&mut files, &VariableSetDocument::new(id.clone(), "Dev".to_owned()))
        .unwrap();
    repository
        .save_local_environment_override(
            &mut files,
            &id,
            &VariableSetDocument::new(id.clone(), "Dev".to_owned()),
            None,
        )
        .unwrap();
    let mut after = files.clone();
    repository.delete_environment(&mut after, &id, fingerprint, 5).unwrap();
    let actions = changes(&files, &after);
    (repository, files, actions)
}

const TRASH: &str = ".apex/trash/environments/dev-5";

#[test]
fn environments_are_deleted_step_by_step() {
    let (repository, files, actions) = environment_deletion();
    let mut disk = disk(&files, &[]);
    assert_eq!(disk.run(repository.plan_changes(&actions)), Ok(None));
    assert_eq!(
        disk.tried,
        [
            format!("make {TRASH}"),
            format!("environments/dev.toml -> {TRASH}/environment.toml"),
            format!(".apex/environments/dev.local.toml -> {TRASH}/local.toml"),
            "settle environments".to_owned(),
            "settle .apex/environments".to_owned(),
            format!("settle {TRASH}"),
            format!("remove {TRASH}"),
        ]
    );
    assert!(!disk.files.has("environments/dev.toml"));
    assert_eq!(
        deletion_receipt(&stable("dev"), Ok(None)).unwrap().cleanup_pending,
        None
    );
}

#[test]
fn what_is_left_of_an_environment_is_named() {
    let (repository, files, actions) = environment_deletion();
    let mut disk = disk(&files, &[6]);
    let outcome = disk.run(repository.plan_changes(&actions));
    assert_eq!(outcome, Ok(Some(format!("{ROOT}/{TRASH}"))));
    let receipt = deletion_receipt(&stable("dev"), outcome).unwrap();
    assert_eq!(receipt.id, stable("dev"));
    assert_eq!(
        receipt.cleanup_pending,
        Some(ResourcePath::new(&format!("{ROOT}/{TRASH}")))
    );
    assert!(!disk.files.has("environments/dev.toml"));
    assert_eq!(
        deletion_receipt(&stable("dev"), Err(WorkspaceError::Io("x".to_owned()))),
        Err(WorkspaceError::Io("x".to_owned()))
    );
}

#[test]
fn an_environment_is_put_back_with_its_local_values() {
    let (repository, files, actions) = environment_deletion();
    for failing in 2..6 {
        let mut disk = disk(&files, &[failing]);
        assert_eq!(
            disk.run(repository.plan_changes(&actions)),
            Err(WorkspaceError::Io(format!("failure {failing}")))
        );
        for path in files.all_paths() {
            assert_eq!(disk.files.file(&path), files.file(&path), "{failing} {path}");
        }
        assert!(!disk.files.has(TRASH));
    }
}

#[test]
fn an_environment_that_cannot_be_put_back_is_reported() {
    let (repository, files, actions) = environment_deletion();
    assert_eq!(
        disk(&files, &[2, 3]).run(repository.plan_changes(&actions)),
        Err(WorkspaceError::InvalidFormat(format!(
            "local override deletion failed (failure 2) and environment rollback failed \
             (failure 3); recover {ROOT}/{TRASH}"
        )))
    );
    assert_eq!(
        disk(&files, &[3, 5]).run(repository.plan_changes(&actions)),
        Err(WorkspaceError::InvalidFormat(format!(
            "environment deletion durability failed (workspace I/O failed: failure 3); rollback \
             results: local=Ok(()), environment=Err(Failure(5)); recover {ROOT}/{TRASH}"
        )))
    );
    assert_eq!(
        disk(&files, &[0]).run(repository.plan_changes(&actions)),
        Err(WorkspaceError::Io("failure 0".to_owned()))
    );
}

#[test]
fn a_collection_that_cannot_be_removed_is_put_back() {
    let (repository, mut files) = workspace();
    repository
        .create_collection(
            &mut files,
            "users",
            &CollectionDocument::new(stable("users"), "Users".to_owned()),
            1,
        )
        .unwrap();
    let mut after = files.clone();
    let fingerprint = repository.collection_fingerprint(&files, "users").unwrap();
    repository.delete_collection(&mut after, "users", fingerprint, 9).unwrap();
    let actions = changes(&files, &after);
    let mut failed = disk(&files, &[2]);
    assert_eq!(
        failed.run(repository.plan_changes(&actions)),
        Err(WorkspaceError::Io("failure 2".to_owned()))
    );
    let tombstone = "collections/.users.delete.9.tmp";
    assert_eq!(
        failed.tried,
        [
            format!("collections/users -> {tombstone}"),
            "settle collections".to_owned(),
            format!("remove {tombstone}"),
            format!("{tombstone} -> collections/users"),
            "settle collections".to_owned(),
        ]
    );
    assert_eq!(failed.files.all_paths(), files.all_paths());
    assert_eq!(
        disk(&files, &[2, 3]).run(repository.plan_changes(&actions)),
        Err(WorkspaceError::InvalidFormat(format!(
            "deletion failed (failure 2) and rollback failed (failure 3); recover \
             {ROOT}/{tombstone}"
        )))
    );
}

#[test]
fn what_was_begun_aside_is_cleared_away() {
    let (repository, files) = workspace();
    let mut after = files.clone();
    repository
        .create_collection(
            &mut after,
            "users",
            &CollectionDocument::new(stable("users"), "Users".to_owned()),
            4,
        )
        .unwrap();
    let actions = changes(&files, &after);
    for failing in 1..4 {
        let mut disk = disk(&files, &[failing]);
        assert_eq!(
            disk.run(repository.plan_changes(&actions)),
            Err(WorkspaceError::Io(format!("failure {failing}")))
        );
        assert_eq!(disk.tried.last().unwrap(), "remove collections/.users.create.4.tmp");
        assert_eq!(disk.files.all_paths(), files.all_paths());
    }
    let mut done = disk(&files, &[]);
    assert_eq!(done.run(repository.plan_changes(&actions)), Ok(None));
    assert_eq!(done.files.all_paths(), after.all_paths());
}

#[test]
fn a_copy_that_fails_is_cleared_away() {
    let (repository, mut files) = workspace();
    repository
        .create_collection(
            &mut files,
            "users",
            &CollectionDocument::new(stable("users"), "Users".to_owned()),
            1,
        )
        .unwrap();
    repository
        .create_folder(
            &mut files,
            "users",
            &["admin".to_owned()],
            &FolderDocument::new(stable("admin"), "Admin".to_owned()),
            2,
        )
        .unwrap();
    let mut after = files.clone();
    let fingerprint = repository.collection_fingerprint(&files, "users").unwrap();
    let ids = IdSource {
        timestamp: 3,
        sequence: 1,
    };
    repository
        .duplicate_collection(&mut after, "users", "copy", fingerprint, ids, &[], 8)
        .unwrap();
    let actions = changes(&files, &after);
    assert_eq!(actions.len(), 6);
    for failing in 0..actions.len() {
        let mut disk = disk(&files, &[failing]);
        assert_eq!(
            disk.run(repository.plan_changes(&actions)),
            Err(WorkspaceError::Io(format!("failure {failing}")))
        );
        assert_eq!(disk.tried.last().unwrap(), "remove collections/.copy.copy.8.tmp");
        assert_eq!(disk.files.all_paths(), files.all_paths());
    }
    let mut done = disk(&files, &[]);
    assert_eq!(done.run(repository.plan_changes(&actions)), Ok(None));
    assert_eq!(done.tried.last().unwrap(), "settle collections");
    assert_eq!(done.files.all_paths(), after.all_paths());
}

#[test]
fn moves_and_writes_are_planned_plainly() {
    let (repository, _) = workspace();
    let rename = FileAction::Rename {
        from: "a/x".to_owned(),
        to: "b/x".to_owned(),
    };
    let mut moved = disk(&FileTree::new(), &[]);
    assert_eq!(moved.run(repository.plan_changes(&[rename])), Ok(None));
    assert_eq!(moved.tried, ["a/x -> b/x", "settle b", "settle a"]);
    let writes = [
        FileAction::MakeDirectories("d".to_owned()),
        FileAction::Write {
            path: "d/f".to_owned(),
            bytes: b"1".to_vec(),
        },
    ];
    let mut written = disk(&FileTree::new(), &[1]);
    assert_eq!(
        written.run(repository.plan_changes(&writes)),
        Err(WorkspaceError::Io("failure 1".to_owned()))
    );
    assert_eq!(written.tried, ["make d", "write d/f"]);
    assert_eq!(disk(&FileTree::new(), &[]).run(repository.plan_changes(&[])), Ok(None));
}
