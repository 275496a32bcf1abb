//! The search index: what is told to a database, and what is made of its answers.
use apex_api::domain::{
    Authentication, HeaderEntry, HttpMethod, HttpRequest, RequestBody, RequestSettings, StableId,
    ValueSensitivity,
};
use apex_api::files::{FileAction, FileTree};
use apex_api::manifest::WorkspaceManifest;
use apex_api::order::TextMap;
use apex_api::paths::ResourcePath;
use apex_api::repository::WorkspaceRepository;
use apex_api::request::RequestDocument;
use apex_api::search::{
    check_schema, escape_like, offer_match, plan_refresh, plan_search, rank_matches, DocumentRow,
    IndexAction, SearchIndexError, SearchQuery, SearchRefreshReport, SearchResult, TermRow,
};
use apex_api::search_text::{parse_field, tokenize, SearchField, SearchIndexPolicy};
use rusqlite::{Connection, OptionalExtension};

struct Index {
    connection: Connection,
    policy: SearchIndexPolicy,
}

impl Index {
    fn open(policy: SearchIndexPolicy) -> Index {
        let connection = Connection::open_in_memory().unwrap();
        connection.pragma_update(None, "foreign_keys", "ON").unwrap();
        connection
            .execute_batch(
                "CREATE TABLE search_documents (
                    path TEXT PRIMARY KEY,
                    fingerprint TEXT NOT NULL,
                    name TEXT NOT NULL,
                    method TEXT NOT NULL,
                    url TEXT NOT NULL,
                    truncated INTEGER NOT NULL CHECK (truncated IN (0, 1))
                );
                CREATE TABLE search_terms (
                    path TEXT NOT NULL,
                    term TEXT NOT NULL,
                    field TEXT NOT NULL,
                    PRIMARY KEY (path, term, field),
                    FOREIGN KEY (path) REFERENCES search_documents(path) ON DELETE CASCADE
                );",
            )
            .unwrap();
        Index { connection, policy }
    }

    fn refresh(
        &mut self,
        repository: &WorkspaceRepository,
        files: &FileTree,
    ) -> Result<SearchRefreshReport, SearchIndexError> {
        let mut existing = TextMap::new();
        {
            let mut statement = self
                .connection
                .prepare("SELECT path, fingerprint FROM search_documents")
                .unwrap();
            let rows = statement
                .query_map([], |row| Ok((row.get::<_, String>(0)?, row.get::<_, String>(1)?)))
                .unwrap();
            for row in rows {
                let (path, fingerprint) = row.unwrap();
                existing.insert(path, fingerprint);
            }
        }
        let plan = plan_refresh(repository, files, &existing, &self.policy)?;
        for action in &plan.actions {
            match action {
                IndexAction::Remove(path) => {
                    self.connection
                        .execute("DELETE FROM search_documents WHERE path = ?1", [path])
                        .unwrap();
                }
                IndexAction::Write {
                    path,
                    fingerprint,
                    document,
                } => {
                    self.connection
                        .execute("DELETE FROM search_documents WHERE path = ?1", [path])
                        .unwrap();
                    self.connection
                        .execute(
                            "INSERT INTO search_documents VALUES (?1, ?2, ?3, ?4, ?5, ?6)",
                            (
                                path,
                                fingerprint,
                                &document.name,
                                &document.method,
                                &document.url,
                                document.truncated,
                            ),
                        )
                        .unwrap();
                    for term in &document.terms {
                        self.connection
                            .execute(
                                "INSERT OR IGNORE INTO search_terms VALUES (?1, ?2, ?3)",
                                (path, &term.term, term.field.as_str()),
                            )
                            .unwrap();
                    }
                }
            }
        }
        Ok(plan.report)
    }

    fn search(&self, query: &SearchQuery) -> Vec<SearchResult> {
        let plan = plan_search(query, &self.policy);
        let sql = if query.exact {
            "SELECT path, term, field FROM search_terms WHERE term = ?1 LIMIT ?2"
        } else {
            "SELECT path, term, field FROM search_terms WHERE term LIKE ?1 ESCAPE '\\' LIMIT ?2"
        };
        let mut rows = Vec::new();
        for term in &plan.terms {
            let mut statement = self.connection.prepare(sql).unwrap();
            let found = statement
                .query_map((&term.pattern, plan.term_limit as i64), |row| {
                    Ok(TermRow {
                        path: row.get(0)?,
                        term: row.get(1)?,
                        field: row.get(2)?,
                    })
                })
                .unwrap();
            rows.push(found.map(|row| row.unwrap()).collect::<Vec<_>>());
        }
        let mut results = Vec::new();
        for found in rank_matches(&plan.terms, query.field, &rows) {
            if results.len() >= plan.maximum_results {
                break;
            }
            let document = self
                .connection
                .query_row(
                    "SELECT name, method, url, truncated FROM search_documents WHERE path = ?1",
                    [&found.path],
                    |row| {
                        Ok(DocumentRow {
                            name: row.get(0)?,
                            method: row.get(1)?,
                            url: row.get(2)?,
                            truncated: row.get(3)?,
                        })
                    },
                )
                .optional()
                .unwrap();
            offer_match(&mut results, &found, document, query, plan.maximum_results);
        }
        results
    }
}

fn query(text: &str) -> SearchQuery {
    SearchQuery {
        text: text.to_owned(),
        exact: false,
        method: None,
        field: None,
        limit: None,
    }
}

fn fixture() -> (WorkspaceRepository, FileTree) {
    let repository = WorkspaceRepository::new("/workspace/search").unwrap();
    let mut files = FileTree::new();
    repository
        .initialize(
            &mut files,
            &WorkspaceManifest::new(
                StableId::parse("workspace").unwrap(),
                "Search fixture".to_owned(),
            ),
        )
        .unwrap();
    files.perform(FileAction::MakeDirectories("collections/search".to_owned()));
    (repository, files)
}

fn save_request(
    repository: &WorkspaceRepository,
    files: &mut FileTree,
    slug: &str,
    name: &str,
    method: &str,
    documentation: &str,
) -> ResourcePath {
    let path = repository
        .collection_path("search")
        .unwrap()
        .join(&format!("{slug}.request.toml"));
    let request = HttpRequest {
        id: StableId::parse(&format!("request-{slug}")).unwrap(),
        name: name.to_owned(),
        method: HttpMethod::parse(method).unwrap(),
        url: format!("https://example.test/{slug}"),
        query: Vec::new(),
        headers: Vec::new(),
        authentication: Authentication::Anonymous,
        body: RequestBody::Text {
            content_type: Some("text/plain".to_owned()),
            text: documentation.to_owned(),
        },
        settings: RequestSettings::default(),
        documentation: documentation.to_owned(),
    };
    repository
        .save_request(files, &path, &RequestDocument::new(request), None, &[])
        .unwrap();
    path
}

#[test]
fn refresh_is_incremental_and_removes_deleted_requests() {
    let (repository, mut files) = fixture();
    let first = save_request(&repository, &mut files, "users", "Get User", "GET", "alpha marker");
    save_request(&repository, &mut files, "health", "Health", "GET", "beta marker");
    let mut index = Index::open(SearchIndexPolicy::default());
    let first_report = index.refresh(&repository, &files).unwrap();
    assert_eq!(first_report.inserted, 2);

    let loaded = repository.load_request(&files, &first).unwrap();
    let mut document = loaded.value;
    document.request.documentation = "updated gamma marker".to_owned();
    repository
        .save_request(&mut files, &first, &document, Some(loaded.fingerprint), &[])
        .unwrap();
    files.perform(FileAction::RemoveTree("collections/search/health.request.toml".to_owned()));
    let report = index.refresh(&repository, &files).unwrap();
    assert_eq!(report.updated, 1);
    assert_eq!(report.removed, 1);
    assert_eq!(report.unchanged, 0);

    let results = index.search(&query("gamma"));
    assert_eq!(results.len(), 1);
    assert_eq!(results[0].name, "Get User");
    assert!(index.search(&query("beta")).is_empty());
}

#[test]
fn exact_and_method_filters_are_enforced() {
    let (repository, mut files) = fixture();
    save_request(&repository, &mut files, "create", "Create User", "POST", "customer-profile");
    save_request(&repository, &mut files, "read", "Read User", "GET", "customer-profile");
    let mut index = Index::open(SearchIndexPolicy::default());
    index.refresh(&repository, &files).unwrap();
    let results = index.search(&SearchQuery {
        exact: true,
        method: Some("POST".to_owned()),
        ..query("customer-profile")
    });
    assert_eq!(results.len(), 1);
    assert_eq!(results[0].method, "POST");
}

#[test]
fn document_and_content_limits_fail_or_truncate_deterministically() {
    let (repository, mut files) = fixture();
    save_request(&repository, &mut files, "large", "Large", "POST", &"content ".repeat(100));
    let mut index = Index::open(SearchIndexPolicy {
        maximum_documents: 1,
        maximum_document_bytes: 32,
        maximum_terms_per_document: 5,
        maximum_results: 10,
    });
    let report = index.refresh(&repository, &files).unwrap();
    assert_eq!(report.truncated, 1);
    save_request(&repository, &mut files, "second", "Second", "GET", "small");
    assert!(matches!(
        index.refresh(&repository, &files),
        Err(SearchIndexError::DocumentLimit {
            maximum: 1,
            observed: 2
        })
    ));
}

#[test]
fn header_and_body_fields_are_searchable_without_indexing_authentication() {
    let (repository, mut files) = fixture();
    let path = save_request(&repository, &mut files, "fields", "Fields", "POST", "body-marker");
    let loaded = repository.load_request(&files, &path).unwrap();
    let mut document = loaded.value;
    let mut header = HeaderEntry::new("X-Search", "header-marker").unwrap();
    header.sensitivity = ValueSensitivity::Sensitive;
    document.request.headers.push(header);
    document.request.authentication = Authentication::Bearer {
        token: "{{never_index_this_token}}".to_owned(),
    };
    repository
        .save_request(&mut files, &path, &document, Some(loaded.fingerprint), &[])
        .unwrap();
    let mut index = Index::open(SearchIndexPolicy::default());
    index.refresh(&repository, &files).unwrap();
    assert_eq!(
        index
            .search(&SearchQuery {
                field: Some(SearchField::Headers),
                ..query("x-search")
            })
            .len(),
        1
    );
    for excluded in ["header-marker", "never_index_this_token"] {
        assert!(index.search(&query(excluded)).is_empty(), "excluded term: {excluded}");
    }
}

#[test]
fn an_unchanged_workspace_tells_the_index_nothing() {
    let (repository, mut files) = fixture();
    save_request(&repository, &mut files, "one", "One", "GET", "alpha");
    let mut index = Index::open(SearchIndexPolicy::default());
    index.refresh(&repository, &files).unwrap();
    let report = index.refresh(&repository, &files).unwrap();
    assert_eq!(report.unchanged, 1);
    assert_eq!(report.inserted + report.updated + report.removed, 0);
    assert_eq!(report.scanned, 1);
}

#[test]
fn better_matches_come_first_and_ties_go_by_path() {
    let (repository, mut files) = fixture();
    save_request(&repository, &mut files, "b", "users", "GET", "nothing");
    save_request(&repository, &mut files, "a", "other", "GET", "users");
    save_request(&repository, &mut files, "c", "users", "GET", "nothing");
    let mut index = Index::open(SearchIndexPolicy::default());
    index.refresh(&repository, &files).unwrap();
    let found = index.search(&query("users"));
    let paths = found.iter().map(|r| r.relative_path.as_text()).collect::<Vec<_>>();
    let b = paths.iter().position(|p| *p == "collections/search/b.request.toml").unwrap();
    let c = paths.iter().position(|p| *p == "collections/search/c.request.toml").unwrap();
    assert_eq!(found.len(), 3);
    assert!(b < c);
    assert!(found[0].score >= found[1].score && found[1].score >= found[2].score);
    assert_eq!(index.search(&SearchQuery { limit: Some(1), ..query("users") }).len(), 1);
}

#[test]
fn words_are_lower_case_and_cut() {
    let words = |text: &str, maximum: usize| {
        tokenize(&text.chars().collect::<Vec<_>>(), maximum)
    };
    assert_eq!(words("Get /Users/ÄRA x_y-z.1", 10), ["get", "users", "x_y-z.1", "ära"]);
    assert_eq!(words("a b c", 2), ["a", "b"]);
    assert_eq!(words(&"a".repeat(70), 10), ["a".repeat(6), "a".repeat(64)]);
}

#[test]
fn patterns_stand_for_themselves() {
    assert_eq!(escape_like("50%_\\"), "50\\%\\_\\\\");
    let plan = plan_search(&query("a_b"), &SearchIndexPolicy::default());
    assert_eq!(plan.terms[0].term, "a_b");
    assert_eq!(plan.terms[0].pattern, "%a\\_b%");
}

#[test]
fn other_schemas_are_refused() {
    assert!(check_schema(None).is_ok());
    assert!(check_schema(Some("1")).is_ok());
    let error = check_schema(Some("2")).expect_err("refused");
    assert!(matches!(error, SearchIndexError::UnsupportedSchema(_)));
    assert_eq!(parse_field("headers"), Some(SearchField::Headers));
    assert_eq!(parse_field("cookies"), None);
}
