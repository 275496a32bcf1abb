//! The model behind a local-first client for HTTP APIs.
//!
//! A workspace is a directory of text files: a manifest, collections of requests, environments
//! and variables. The library reads and writes them, resolves variables, follows changes made
//! by others, plans searches and decides what the windows of a client show. All of it works on
//! plain values: files are a [`files::FileTree`] in memory whose journal tells what is to be
//! done on disk.
pub mod answers;
pub mod automation;
pub mod browser;
pub mod browser_tree;
pub mod collection;
pub mod command_laws;
pub mod command_line;
pub mod commands;
pub mod conflict;
pub mod copy_laws;
pub mod disk_plans;
pub mod disk_work;
pub mod document;
pub mod document_store;
pub mod domain;
pub mod dynamic;
pub mod editor;
pub mod editor_fields;
pub mod editor_request;
pub mod editor_settings;
pub mod environment;
pub mod environment_laws;
pub mod environment_operation;
pub mod environment_store_laws;
pub mod error;
pub mod external_state;
pub mod files;
pub mod fingerprint;
pub mod flat;
pub mod guard_laws;
pub mod history;
pub mod import_export;
pub mod json;
pub mod lines;
pub mod listed_laws;
pub mod listing_laws;
pub mod manifest;
pub mod message;
pub mod naming;
pub mod number;
pub mod open_documents;
pub mod operation_laws;
pub mod order;
pub mod panel_laws;
pub mod path_laws;
pub mod paths;
pub mod preferences;
pub mod reading_laws;
pub mod reconcile;
pub mod reconcile_laws;
pub mod recovery_laws;
pub mod repository;
pub mod repository_collections;
pub mod repository_documents;
pub mod repository_environments;
pub mod repository_laws;
pub mod repository_listing;
pub mod request;
pub mod request_laws;
pub mod request_panel;
pub mod request_panel_flow;
pub mod request_panel_laws;
pub mod request_panel_start;
pub mod request_reader;
pub mod resolution_laws;
pub mod resolved_request;
pub mod resolver;
pub mod response;
pub mod rooted_laws;
pub mod scan_laws;
pub mod scope;
pub mod search;
pub mod search_laws;
pub mod search_result_laws;
pub mod search_text;
pub mod sections;
pub mod session;
pub mod session_laws;
pub mod setup_laws;
pub mod shell;
pub mod shell_laws;
pub mod sorting;
pub mod template_laws;
pub mod text;
pub mod tool_commands;
pub mod tool_laws;
pub mod tool_replies;
pub mod tree_laws;
pub mod typed_laws;
pub mod value;
pub mod variables_laws;
pub mod watch;
pub mod watch_laws;
pub mod window_laws;
pub mod workspace_effect;
pub mod workspace_operation;
pub mod workspace_variables;
