//! Commands on the workspace and on its environments.
use apex_api::domain::{StableId, ValueSensitivity};
use apex_api::environment::StoredVariableSource;
use apex_api::environment_operation::{
    apply_environment_operation, environment_sensitivity, read_source,
};
use apex_api::error::WorkspaceError;
use apex_api::files::FileTree;
use apex_api::manifest::WorkspaceManifest;
use apex_api::naming::IdSource;
use apex_api::paths::ResourcePath;
use apex_api::repository::WorkspaceRepository;
use apex_api::workspace_effect::{
    apply_workspace_operation, tell_request_change, texts_to_scan, OperationInputs,
    OperationReport, RequestChange,
};
use apex_api::workspace_operation::{operation_paths, workspace_relative_path, Ancestry};

const ROOT: &str = "/workspace/demo";

fn workspace() -> (WorkspaceRepository, FileTree) {
    let repository = WorkspaceRepository::new(ROOT).unwrap();
    let mut files = FileTree::new();
    repository
        .initialize(
            &mut files,
            &WorkspaceManifest::new(StableId::parse("workspace").unwrap(), "Demo".to_owned()),
        )
        .unwrap();
    (repository, files)
}

fn inside(existing: &str) -> Ancestry {
    Ancestry {
        canonical_root: Ok(ResourcePath::new(ROOT)),
        existing: Some(ResourcePath::new(existing)),
        canonical: Ok(ResourcePath::new(existing)),
    }
}

const IDS: IdSource = IdSource {
    timestamp: 0x55,
    sequence: 1,
};

fn inputs(leaks: Vec<Vec<String>>) -> OperationInputs {
    OperationInputs {
        nonce: 7,
        ids: IDS,
        leaks,
    }
}

/// A detector that takes one word for a secret.
fn scan(text: &str) -> Vec<String> {
    text.lines()
        .filter(|line| line.contains("hunter2"))
        .map(|line| line.to_owned())
        .collect()
}

fn apply(
    repository: &WorkspaceRepository,
    files: &mut FileTree,
    command: &str,
) -> Result<String, String> {
    let ancestry = [inside(ROOT), inside(ROOT)];
    let leaks = texts_to_scan(repository, files.clone(), command, &ancestry, 7, IDS)
        .iter()
        .map(|text| scan(text))
        .collect();
    match apply_workspace_operation(repository, files, command, &ancestry, &inputs(leaks))? {
        OperationReport::Completed(message) => Ok(message),
        OperationReport::Left(change) => tell_request_change(&change, Ok(())),
    }
}

#[test]
fn workspace_output_paths_reject_escape_and_symlink_ancestors() {
    let (repository, _) = workspace();
    assert!(workspace_relative_path(&repository, "../escape", Some(&inside(ROOT))).is_err());
    assert!(workspace_relative_path(&repository, "", Some(&inside(ROOT))).is_err());
    let safe = workspace_relative_path(&repository, ".apex/generated/code.txt", Some(&inside(ROOT)))
        .expect("safe path");
    assert_eq!(safe.as_text(), "/workspace/demo/.apex/generated/code.txt");
    let linked = Ancestry {
        canonical_root: Ok(ResourcePath::new(ROOT)),
        existing: Some(ResourcePath::new("/workspace/demo/linked")),
        canonical: Ok(ResourcePath::new("/outside")),
    };
    assert_eq!(
        workspace_relative_path(&repository, "linked/file.txt", Some(&linked)),
        Err("workspace output path escapes through /workspace/demo/linked".to_owned())
    );
}

#[test]
fn unknown_ancestors_are_refused() {
    let (repository, _) = workspace();
    assert_eq!(
        workspace_relative_path(&repository, "a/b", None),
        Err("workspace output path has no existing ancestor".to_owned())
    );
    let unread = Ancestry {
        canonical_root: Err("root is gone".to_owned()),
        existing: None,
        canonical: Err("gone".to_owned()),
    };
    assert!(workspace_relative_path(&repository, "a/b", Some(&unread)).is_err());
}

#[test]
fn collections_and_folders_are_handled_by_command() {
    let (repository, mut files) = workspace();
    let steps = [
        ("create_collection|users|users|Users API", "Created collection 'users'"),
        ("create_folder|users|admin|admin|Admin", "Created folder 'users'/admin"),
        ("create_folder|users|other|other|Other", "Created folder 'users'/other"),
        ("rename_folder|users|admin|staff", "Renamed folder to 'staff'"),
        ("move_folder|users|staff|other|inner", "move_folder completed"),
        ("duplicate_folder|users|other/inner|other|again", "duplicate_folder completed"),
        ("archive_folder|users|other|true", "Set folder archived=true"),
        ("delete_folder|users|other/again", "Deleted folder 'users'/other/again"),
        ("duplicate_collection|users|copies", "Duplicated collection 'users' as 'copies'"),
        ("rename_collection|copies|clones", "Renamed collection 'copies' to 'clones'"),
        ("archive_collection|clones|true", "Set collection 'clones' archived=true"),
        ("delete_collection|clones", "Deleted collection 'clones'"),
    ];
    for (command, message) in steps {
        assert_eq!(apply(&repository, &mut files, command), Ok(message.to_owned()), "{command}");
    }
    assert!(files.has("collections/users/other/inner"));
    assert!(!files.has("collections/users/other/again"));
    assert!(!files.has("collections/clones"));
}

#[test]
fn requests_are_made_ordered_and_handed_on() {
    let (repository, mut files) = workspace();
    apply(&repository, &mut files, "create_collection|users|users|Users").unwrap();
    for slug in ["alpha", "beta"] {
        let path = format!("collections/users/{slug}.request.toml");
        assert_eq!(
            apply(
                &repository,
                &mut files,
                &format!("create_request|{path}|{slug}|{slug}|https://example.test/{slug}"),
            ),
            Ok(format!("Created request {ROOT}/{path}"))
        );
    }
    assert_eq!(
        apply(
            &repository,
            &mut files,
            "set_order|users|-|beta.request.toml,alpha.request.toml",
        ),
        Ok("Updated collection ordering".to_owned())
    );
    let slugs = repository
        .list_requests(&files)
        .unwrap()
        .into_iter()
        .map(|entry| entry.slug)
        .collect::<Vec<_>>();
    assert_eq!(slugs, ["beta", "alpha"]);

    let ancestry = [inside(ROOT), inside(ROOT)];
    let report = apply_workspace_operation(
        &repository,
        &mut files,
        "delete_request|collections/users/beta.request.toml",
        &ancestry,
        &inputs(Vec::new()),
    )
    .unwrap();
    let expected = repository
        .load_request(&files, &ResourcePath::new("/workspace/demo/collections/users/beta.request.toml"))
        .unwrap()
        .fingerprint;
    let change = match report {
        OperationReport::Left(change) => change,
        _ => panic!("a request is to be deleted"),
    };
    match &change {
        RequestChange::Delete {
            path,
            expected: given,
        } => {
            assert_eq!(path.as_text(), "/workspace/demo/collections/users/beta.request.toml");
            assert_eq!(*given, expected);
        }
        _ => panic!("a request is to be deleted"),
    }
    assert_eq!(
        tell_request_change(&change, Ok(())),
        Ok(format!("Deleted request {ROOT}/collections/users/beta.request.toml"))
    );
    assert_eq!(
        tell_request_change(&change, Err(WorkspaceError::Io("denied".to_owned()))),
        Err("workspace I/O failed: denied".to_owned())
    );
}

#[test]
fn written_requests_are_scanned() {
    let (repository, mut files) = workspace();
    apply(&repository, &mut files, "create_collection|users|users|Users").unwrap();
    let before = files.all_paths();
    let command = "create_request|collections/users/a.request.toml|a|A|https://hunter2@a.test";
    let ancestry = [inside(ROOT)];
    let texts = texts_to_scan(&repository, files.clone(), command, &ancestry, 7, IDS);
    assert_eq!(texts.len(), 1);
    assert!(texts[0].contains("hunter2"));
    assert_eq!(
        apply(&repository, &mut files, command),
        Err("refusing to save workspace file with 1 potential secret leak(s)".to_owned())
    );
    assert_eq!(
        apply_workspace_operation(&repository, &mut files, command, &ancestry, &inputs(Vec::new()))
            .err(),
        Some("invalid workspace format: request text was not scanned for secrets".to_owned())
    );
    assert_eq!(files.all_paths(), before);
    assert!(texts_to_scan(&repository, files, "drop_everything", &[], 7, IDS).is_empty());
}

#[test]
fn unread_commands_change_nothing() {
    let (repository, mut files) = workspace();
    let before = files.all_paths();
    for command in [
        "",
        "create_collection|users",
        "create_collection|users|bad id!|Users",
        "archive_collection|users|maybe",
        "create_request|../escape.request.toml|a|A|https://example.test",
        "drop_everything",
    ] {
        assert!(apply(&repository, &mut files, command).is_err(), "{command}");
        assert_eq!(files.all_paths(), before);
    }
    assert!(apply(&repository, &mut files, "drop_everything")
        .unwrap_err()
        .starts_with("unknown workspace operation; use "));
    assert_eq!(
        apply(&repository, &mut files, "archive_collection|users|maybe"),
        Err("archive_collection requires true or false".to_owned())
    );
}

#[test]
fn commands_say_which_paths_they_touch() {
    assert_eq!(operation_paths("move_request|a/x|b/y"), ["a/x", "b/y"]);
    assert_eq!(operation_paths("delete_request|a/x"), ["a/x"]);
    assert!(operation_paths("delete_collection|users").is_empty());
}

#[test]
fn environments_are_handled_by_command() {
    let (repository, mut files) = workspace();
    let steps = [
        ("create|dev|Development", "Created environment 'dev'"),
        ("rename|dev|Local", "Renamed environment 'dev'"),
        ("default|dev", "Default environment set to dev"),
        ("set|dev|host|literal|api.test|public|true", "Updated variable 'host' in 'dev'"),
        ("set|dev|token|secret|vault/token|secret|true", "Updated variable 'token' in 'dev'"),
        ("remove|dev|host", "Removed variable 'host' from 'dev'"),
        ("default|none", "Default environment set to none"),
        ("delete|dev", "Deleted environment 'dev'"),
    ];
    for (nonce, (command, message)) in steps.into_iter().enumerate() {
        assert_eq!(
            apply_environment_operation(&repository, &mut files, command, nonce as u128),
            Ok(message.to_owned()),
            "{command}"
        );
    }
    assert!(repository.list_environments(&files).unwrap().is_empty());
}

#[test]
fn removed_variables_are_gone_and_others_stay() {
    let (repository, mut files) = workspace();
    let id = StableId::parse("dev").unwrap();
    for (nonce, command) in [
        "create|dev|Development",
        "set|dev|host|literal|api.test|public|true",
        "set|dev|port|env|PORT|public|false",
        "remove|dev|host",
    ]
    .into_iter()
    .enumerate()
    {
        apply_environment_operation(&repository, &mut files, command, nonce as u128).unwrap();
    }
    let loaded = repository.load_environment(&files, &id).unwrap();
    let names = loaded
        .value
        .variables
        .iter()
        .map(|variable| variable.name.as_str())
        .collect::<Vec<_>>();
    assert_eq!(names, ["port"]);
    assert_eq!(
        apply_environment_operation(&repository, &mut files, "remove|dev|host", 9),
        Err("variable 'host' was not found".to_owned())
    );
}

#[test]
fn secrets_are_never_literals() {
    assert_eq!(
        read_source("literal", "hunter2", ValueSensitivity::Secret),
        Err("secret variables must use a secret reference, not a literal".to_owned())
    );
    assert!(matches!(
        read_source("env", "TOKEN", ValueSensitivity::Secret),
        Ok(StoredVariableSource::ProcessEnvironment { .. })
    ));
    assert!(read_source("secret", "no-namespace", ValueSensitivity::Secret).is_err());
    assert_eq!(
        read_source("file", "x", ValueSensitivity::Public),
        Err("unknown variable source kind 'file'".to_owned())
    );
    assert_eq!(environment_sensitivity("secret"), Ok(ValueSensitivity::Secret));
    assert_eq!(
        environment_sensitivity("loud"),
        Err("unknown sensitivity 'loud'".to_owned())
    );
}
