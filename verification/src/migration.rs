//! Migrations of Django apps: their names, their dependencies, the changes
//! planned for them and the apps and projects that hold them.

pub mod file;
pub mod change;
pub mod parser;
pub mod walk;
pub mod group;
pub mod load;
pub mod rebase;
pub mod changeset;
pub mod apply;
pub mod project;
