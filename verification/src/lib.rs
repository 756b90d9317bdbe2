//! Renumbering of Django migrations after a rebase: the data model of
//! migration files, the parsing of the names and of `max_migration.txt`,
//! and the planning of file renames and dependency rewrites.

pub mod text;
pub mod migration;
pub mod paths;
pub mod utils;
pub mod json;
pub mod json_output;
pub mod tables;
