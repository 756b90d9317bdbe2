# rebase_migrations

Renumbers the Django migrations of a rebased branch so that they follow the
latest migration of the HEAD branch, rewrites the dependencies that name
them, and updates `max_migration.txt`.

The library in `src/` is verified with Verus:

- `migration/file.rs`: migration file names, `max_migration.txt` and its
  merge conflicts, migrations and the walk through their dependencies.
- `migration/parser.rs`: what the migration logic reads of a Python source
  (the `Migration` class and its `dependencies` list), parsed with
  rustpython-parser.
- `migration/walk.rs`: the whole dependency walk and its properties.
- `migration/load.rs`, `migration/rebase.rs`, `migration/group.rs`: loading
  an app, finding where the branches part, renumbering the rebased
  migrations and planning the dependency rewrites.
- `migration/project.rs`: finding the apps of a project and planning the
  rebase of all of them.
- `migration/apply.rs`: carrying out the plan through file operations that
  the caller hands in.
- `migration/changeset.rs`, `json_output.rs`, `json.rs`, `tables.rs`: the
  summaries of the plan, as JSON and as table rows.

`app/` holds the command line program: argument handling, the walk over the
project's directories, file reads and writes, and the drawing of tables.
