# apex_api

The model behind a local-first client for HTTP APIs, verified with Verus.

A workspace is a directory of small text files: a manifest, collections with folders and
requests, environments and variables. The library reads and writes these files, resolves
variables in requests, follows changes that others make, keeps a search index and decides what
the windows of a client show. It works on a picture of the files in memory (`files::FileTree`)
and notes each change in a journal, so that every promise about files can be stated and proved
without a disk. `disk_plans` turns a journal into steps on disk, and `disk_work` decides what
follows when one of them fails.

Whether a text holds a secret is for a detector outside the library to say. The library hands
out every request text that it is about to write and refuses a text in which something was
found, and one that no detector has seen.

* `src/` – the library. Every function has a contract; the laws that hold across functions are
  public proof functions named `law_..`.
* `tests/` – the library on concrete values.
* `app/` – the disk, the database, the file watcher and the clock around it.

## Where things are

* Files and documents: `files`, `paths`, `fingerprint`, `flat`, `document`, `manifest`,
  `request`, `request_reader`, `collection`, `environment`, `conflict`.
* The workspace: `repository` and the modules whose names begin with it, `naming`, `error`.
* Variables: `value`, `scope`, `resolver`, `resolved_request`, `dynamic`, `answers`,
  `workspace_variables`.
* What is done on disk, and put back where it fails: `disk_work`, `disk_plans`.
* Changes from outside: `watch`, `reconcile`, `external_state`.
* Search: `search_text`, `search`.
* Windows: `shell`, `session`, `request_panel` and the modules whose names begin with it, `response`,
  `browser`, `browser_tree`, `editor` and the modules whose names begin with it, `history`,
  `preferences`, `sections`.
* Commands: `commands`, `command_line`, `workspace_operation`, `workspace_effect`,
  `environment_operation`, `automation`, `tool_commands`, `tool_replies`,
  `import_export`.
