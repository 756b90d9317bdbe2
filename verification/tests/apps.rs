use std::cell::RefCell;

use rebase_migrations::json_output::JsonProjectChanges;
use rebase_migrations::migration::change::{MigrationDependencyChange, MigrationFileNameChange};
use rebase_migrations::migration::file::{
    FileTree, MaxMigrationFile, MaxMigrationResult, Migration, MigrationDependency,
    MigrationFileName, SourceFile,
};
use rebase_migrations::migration::group::DjangoApp;
use rebase_migrations::migration::parser::MigrationParser;
use rebase_migrations::migration::project::{is_skipped_directory, DjangoProject};
use rebase_migrations::tables::{get_table, CellValue, TableOptions};
use rebase_migrations::utils::replace_range;

/// A project's files kept in memory, with the file operations that the
/// library is handed.
struct MemoryFiles {
    directories: Vec<String>,
    files: RefCell<Vec<(String, String)>>,
}

fn parent_of(path: &str) -> String {
    match path.rfind('/') {
        Some(i) => path[..i].to_string(),
        None => String::new(),
    }
}

impl MemoryFiles {
    fn new() -> MemoryFiles {
        MemoryFiles {
            directories: Vec::new(),
            files: RefCell::new(Vec::new()),
        }
    }

    fn add_directory(&mut self, dir: &str) {
        let mut path = String::new();
        for (i, part) in dir.split('/').enumerate() {
            if i > 0 {
                path.push('/');
            }
            path.push_str(part);
            if !path.is_empty() && !self.directories.contains(&path) {
                self.directories.push(path.clone());
            }
        }
    }

    fn put(&self, path: &str, content: &str) {
        let mut files = self.files.borrow_mut();
        files.retain(|(p, _)| p != path);
        files.push((path.to_string(), content.to_string()));
    }

    fn get(&self, path: &str) -> Option<String> {
        self.files
            .borrow()
            .iter()
            .find(|(p, _)| p == path)
            .map(|(_, c)| c.clone())
    }

    fn has_file(&self, path: &str) -> bool {
        self.get(path).is_some()
    }

    fn read(&self, path: String) -> Result<String, String> {
        self.get(&path)
            .ok_or_else(|| "No such file or directory (os error 2)".to_string())
    }

    fn write(&self, path: String, content: String) -> Result<(), String> {
        if !self.directories.contains(&parent_of(&path)) {
            return Err("No such file or directory (os error 2)".to_string());
        }
        self.put(&path, &content);
        Ok(())
    }

    fn rename(&self, from: String, to: String) -> Result<(), String> {
        let content = self.read(from.clone())?;
        self.files.borrow_mut().retain(|(p, _)| *p != from);
        self.put(&to, &content);
        Ok(())
    }

    fn tree(&self) -> FileTree {
        FileTree {
            directories: self.directories.clone(),
            files: self
                .files
                .borrow()
                .iter()
                .map(|(p, c)| SourceFile {
                    path: p.clone(),
                    content: c.clone(),
                })
                .collect(),
        }
    }
}

fn migration_source(dependencies: &[(&str, &str)]) -> String {
    let dependency_lines = dependencies
        .iter()
        .map(|(dep_app, dep_migration)| format!("        ('{}', {}),", dep_app, dep_migration))
        .collect::<Vec<_>>()
        .join("\n");
    format!(
        r#"
from django.db import migrations, models

class Migration(migrations.Migration):
    dependencies = [
{}
    ]

    operations = []
"#,
        dependency_lines
    )
}

fn create_test_migration_file(
    files: &mut MemoryFiles,
    dir: &str,
    number: u32,
    name: &str,
    dependencies: Vec<(&str, &str)>,
) -> String {
    files.add_directory(dir);
    let path = format!("{}/{:04}_{}.py", dir, number, name);
    files.put(&path, &migration_source(&dependencies));
    path
}

fn create_max_migration_file(files: &mut MemoryFiles, dir: &str, content: &str) {
    files.add_directory(dir);
    files.put(&format!("{}/max_migration.txt", dir), content);
}

fn setup_test_env() -> (MemoryFiles, String) {
    let mut files = MemoryFiles::new();
    let migrations_dir = "/tmp/project/test_app/migrations".to_string();
    files.add_directory(&migrations_dir);
    (files, migrations_dir)
}

fn name(s: &str) -> MigrationFileName {
    MigrationFileName::try_from(s.to_string()).unwrap()
}

fn find_by_file<'a>(migrations: &'a [Migration], file: &str) -> Option<&'a Migration> {
    migrations.iter().find(|m| m.file_path.ends_with(&format!("/{}", file)))
}

fn find_app<'a>(project: &'a mut DjangoProject, app_name: &str) -> &'a mut DjangoApp {
    &mut project
        .apps
        .iter_mut()
        .find(|(k, _)| k == app_name)
        .unwrap()
        .1
}

fn run_rebase(files: &MemoryFiles, root: &str) -> Result<(), String> {
    let tree = files.tree();
    let tree = FileTree {
        directories: tree
            .directories
            .into_iter()
            .filter(|d| d == root || d.starts_with(&format!("{}/", root)))
            .collect(),
        files: tree.files,
    };
    let mut project = DjangoProject::from_tree(&tree)?;
    for (_, app) in &project.apps {
        app.find_highest_migration(true).expect("We must have a head migration here");
    }
    project.plan_changes(&tree.files)?;
    let rename = |a: String, b: String| files.rename(a, b);
    let read = |p: String| files.read(p);
    let write = |p: String, c: String| files.write(p, c);
    project.apply_changes(&rename, &read, &write)
}

#[test]
fn group_test_migration_group_create_migration_name_changes() {
    let (mut files, migrations_dir) = setup_test_env();
    let d = migrations_dir.as_str();

    create_test_migration_file(&mut files, d, 1, "initial", vec![]);
    create_test_migration_file(&mut files, d, 2, "add_field", vec![("test_app", "'0001_initial'")]);
    create_test_migration_file(&mut files, d, 3, "remove_field", vec![("test_app", "'0002_add_field'")]);
    create_test_migration_file(&mut files, d, 4, "update_model", vec![("test_app", "'0003_remove_field'")]);
    create_test_migration_file(&mut files, d, 3, "rebased_remove_field", vec![("test_app", "'0002_add_field'")]);
    create_test_migration_file(
        &mut files,
        d,
        4,
        "rebased_update_model",
        vec![("test_app", "'0003_rebased_remove_field'")],
    );
    create_max_migration_file(&mut files, d, "0004_update_model\n");

    let tree = files.tree();
    let mut project = DjangoProject::from_tree(&tree).unwrap();
    let app = find_app(&mut project, "test_app");

    for migration in app.head_migrations.iter_mut() {
        if migration.file_path.ends_with("/0003_rebased_remove_field.py")
            || migration.file_path.ends_with("/0004_rebased_update_model.py")
        {
            migration.from_rebased_branch = true;
        }
    }

    let mock_conflict = rebase_migrations::migration::file::MergeConflict {
        head: MigrationFileName("0002_add_field".to_string()),
        incoming_change: MigrationFileName("0004_rebased_update_model".to_string()),
    };
    let _ = app.set_last_common_migration(mock_conflict.incoming_change.clone(), &tree.files);
    app.create_migration_name_changes(mock_conflict, &tree.files).unwrap();

    let migration_0003 = app
        .rebased_migrations
        .iter()
        .find(|m| m.file_name.0 == "0003_rebased_remove_field")
        .unwrap();
    let migration_0004 = app
        .rebased_migrations
        .iter()
        .find(|m| m.file_name.0 == "0004_rebased_update_model")
        .unwrap();

    let name_change_0003 = migration_0003.name_change.as_ref().unwrap();
    assert_eq!(name_change_0003.old_name.0, "0003_rebased_remove_field");
    assert_eq!(name_change_0003.new_name.0, "0005_rebased_remove_field");

    let name_change_0004 = migration_0004.name_change.as_ref().unwrap();
    assert_eq!(name_change_0004.old_name.0, "0004_rebased_update_model");
    assert_eq!(name_change_0004.new_name.0, "0006_rebased_update_model");
}

#[test]
fn group_test_migration_group_create_migration_dependency_changes() {
    let (mut files, migrations_dir) = setup_test_env();
    let d = migrations_dir.as_str();

    create_test_migration_file(&mut files, d, 1, "initial", vec![]);
    create_test_migration_file(&mut files, d, 2, "add_field", vec![("test_app", "'0001_initial'")]);
    create_max_migration_file(&mut files, d, "0002_add_field\n");

    let tree = files.tree();
    let mut project = DjangoProject::from_tree(&tree).unwrap();
    let app = find_app(&mut project, "test_app");

    for migration in app.head_migrations.iter_mut() {
        if migration.file_path.ends_with("/0001_initial.py") {
            migration.name_change = Some(MigrationFileNameChange::new(
                name("0001_initial"),
                name("0003_initial"),
            ));
        }
        if migration.file_path.ends_with("/0002_add_field.py") {
            migration.from_rebased_branch = true;
        }
    }

    let lookup = vec![(
        "test_app".to_string(),
        vec![MigrationFileNameChange::new(
            name("0001_initial"),
            name("0003_initial"),
        )],
    )];

    app.create_migration_dependency_changes(true, &lookup);

    let migration_0002 = find_by_file(&app.head_migrations, "0002_add_field.py").unwrap();
    let dep_change = migration_0002.dependency_change.as_ref().unwrap();
    assert_eq!(dep_change.old_dependencies.len(), 1);
    assert_eq!(dep_change.old_dependencies[0].app, "test_app");
    assert_eq!(dep_change.old_dependencies[0].migration_file.0, "0001_initial");
    assert_eq!(dep_change.new_dependencies.len(), 1);
    assert_eq!(dep_change.new_dependencies[0].app, "test_app");
    assert_eq!(dep_change.new_dependencies[0].migration_file.0, "0003_initial");
}

#[test]
fn group_test_migration_group_create_migration_dependency_changes_cross_app() {
    let mut files = MemoryFiles::new();
    let a = "/tmp/project/app_a/migrations";
    let b = "/tmp/project/app_b/migrations";
    create_test_migration_file(&mut files, a, 1, "initial", vec![]);
    create_max_migration_file(&mut files, a, "0001_initial\n");
    create_test_migration_file(&mut files, b, 1, "depend_on_a", vec![("app_a", "'0001_initial'")]);
    create_max_migration_file(&mut files, b, "0001_depend_on_a\n");

    let mut project = DjangoProject::from_tree(&files.tree()).unwrap();
    let lookup = vec![(
        "app_a".to_string(),
        vec![MigrationFileNameChange::new(
            name("0001_initial"),
            name("0005_initial"),
        )],
    )];

    let app_b = find_app(&mut project, "app_b");
    app_b.create_migration_dependency_changes(false, &lookup);

    let migration_b = app_b
        .head_migrations
        .iter()
        .find(|m| m.file_name.0 == "0001_depend_on_a")
        .unwrap();
    let dep_change = migration_b.dependency_change.as_ref().unwrap();
    assert_eq!(dep_change.old_dependencies.len(), 1);
    assert_eq!(dep_change.old_dependencies[0].app, "app_a");
    assert_eq!(dep_change.old_dependencies[0].migration_file.0, "0001_initial");
    assert_eq!(dep_change.new_dependencies.len(), 1);
    assert_eq!(dep_change.new_dependencies[0].app, "app_a");
    assert_eq!(dep_change.new_dependencies[0].migration_file.0, "0005_initial");
}

fn conflicting_app() -> (MemoryFiles, String) {
    let (mut files, migrations_dir) = setup_test_env();
    let d = migrations_dir.as_str();
    create_test_migration_file(&mut files, d, 1, "initial", vec![]);
    create_test_migration_file(&mut files, d, 2, "add_field", vec![("test_app", "'0001_initial'")]);
    create_test_migration_file(&mut files, d, 3, "head_change", vec![("test_app", "'0002_add_field'")]);
    create_test_migration_file(&mut files, d, 3, "rebased_change", vec![("test_app", "'0002_add_field'")]);
    let conflict_content = r#"<<<<<<< HEAD
0003_head_change
=======
0003_rebased_change
>>>>>>> feature-branch"#;
    create_max_migration_file(&mut files, d, conflict_content);
    (files, migrations_dir)
}

fn planned_app(files: &MemoryFiles) -> DjangoApp {
    let tree = files.tree();
    let mut app = DjangoApp::create("/tmp/project/test_app", &tree.files).unwrap();
    if let MaxMigrationResult::Conflict(conflict) = &app.max_migration_result {
        let conflict = conflict.clone();
        app.set_last_common_migration(conflict.incoming_change.clone(), &tree.files)
            .unwrap();
        app.create_migration_name_changes(conflict, &tree.files).unwrap();
    }
    let empty_lookup = Vec::new();
    app.create_migration_dependency_changes(true, &empty_lookup);
    app
}

#[test]
fn test_django_app_apply_changes() {
    let (files, migrations_dir) = conflicting_app();
    let app = planned_app(&files);

    let rename = |a: String, b: String| files.rename(a, b);
    let read = |p: String| files.read(p);
    let write = |p: String, c: String| files.write(p, c);
    let result = app.apply_changes(&rename, &read, &write);
    assert!(result.is_ok(), "apply_changes should succeed");

    assert!(!files.has_file(&format!("{}/0003_rebased_change.py", migrations_dir)));
    assert!(files.has_file(&format!("{}/0004_rebased_change.py", migrations_dir)));

    let max_content = files.get(&format!("{}/max_migration.txt", migrations_dir)).unwrap();
    assert_eq!(max_content.trim(), "0004_rebased_change");

    let rewritten = files.get(&format!("{}/0004_rebased_change.py", migrations_dir)).unwrap();
    assert!(rewritten.contains("dependencies = [('test_app', '0003_head_change')]"));
}

#[test]
fn test_django_app_changes_summary() {
    let (files, _migrations_dir) = conflicting_app();
    let app = planned_app(&files);

    let table = get_table(TableOptions::MigrationChanges("test_app", &app));
    assert_eq!(table.rows.len(), 1);
    match &table.rows[0][1].value {
        CellValue::Text(t) => assert_eq!(t, "0003_rebased_change -> 0004_rebased_change"),
        other => panic!("unexpected {:?}", other),
    }
    match &table.rows[0][2].value {
        CellValue::Text(t) => assert_eq!(
            t,
            "[('test_app', '0002_add_field')] -> [('test_app', '0003_head_change')]"
        ),
        other => panic!("unexpected {:?}", other),
    }

    assert!(
        app.rebased_migrations
            .iter()
            .any(|m| m.name_change.is_some()),
        "Should have name changes"
    );
}

#[test]
fn test_django_app_try_from_valid_path() {
    let (mut files, migrations_dir) = setup_test_env();
    create_test_migration_file(&mut files, &migrations_dir, 1, "initial", vec![]);
    create_max_migration_file(&mut files, &migrations_dir, "0001_initial\n");

    let result = DjangoApp::try_from("/tmp/project/test_app", &files.tree());
    assert!(result.is_ok(), "Should successfully create DjangoApp");
    let app = result.unwrap();
    assert_eq!(app.head_migrations.len(), 1);
}

#[test]
fn test_django_app_try_from_no_migrations_folder() {
    let mut files = MemoryFiles::new();
    files.add_directory("/tmp/project/test_app");

    let result = DjangoApp::try_from("/tmp/project/test_app", &files.tree());
    assert!(result.is_err());
    assert_eq!(
        result.unwrap_err(),
        "Provided path does not contain migrations folder"
    );
}

#[test]
fn test_django_app_try_from_no_max_migration_txt() {
    let (files, _migrations_dir) = setup_test_env();

    let result = DjangoApp::try_from("/tmp/project/test_app", &files.tree());
    assert!(result.is_err());
    assert_eq!(
        result.unwrap_err(),
        "Provided path does not contain max_migrations.txt"
    );
}

#[test]
fn project_test_django_project_from_path() {
    let (mut files, migrations_dir) = setup_test_env();
    create_test_migration_file(&mut files, &migrations_dir, 1, "initial", vec![]);
    create_test_migration_file(&mut files, &migrations_dir, 2, "add_field", vec![("test_app", "'0001_initial'")]);
    create_max_migration_file(&mut files, &migrations_dir, "0002_add_field\n");

    let result = DjangoProject::from_tree(&files.tree());
    assert!(result.is_ok());

    let project = result.unwrap();
    assert_eq!(project.apps.len(), 1);
    assert_eq!(project.apps[0].0, "test_app");
    assert_eq!(project.apps[0].1.head_migrations.len(), 2);
}

#[test]
fn project_test_django_project_from_path_empty() {
    let mut files = MemoryFiles::new();
    files.add_directory("/tmp/project");

    let result = DjangoProject::from_tree(&files.tree());
    assert!(result.is_ok());
    assert_eq!(result.unwrap().apps.len(), 0);
}

#[test]
fn project_test_create_migration_dependency_changes() {
    let mut files = MemoryFiles::new();
    let a = "/tmp/project/app_a/migrations";
    let b = "/tmp/project/app_b/migrations";
    create_test_migration_file(&mut files, a, 1, "initial", vec![]);
    create_max_migration_file(&mut files, a, "0001_initial\n");
    create_test_migration_file(&mut files, b, 1, "depend_on_a", vec![("app_a", "'0001_initial'")]);
    create_max_migration_file(&mut files, b, "0001_depend_on_a\n");

    let mut project = DjangoProject::from_tree(&files.tree()).unwrap();

    let app_a = find_app(&mut project, "app_a");
    for migration in app_a.head_migrations.iter_mut() {
        if migration.file_path.ends_with("/0001_initial.py") {
            migration.name_change = Some(MigrationFileNameChange::new(
                name("0001_initial"),
                name("0005_initial"),
            ));
        }
    }

    project.create_migration_dependency_changes(false);

    let app_b = find_app(&mut project, "app_b");
    let migration_b = app_b
        .head_migrations
        .iter()
        .find(|m| m.file_name.0 == "0001_depend_on_a")
        .unwrap();
    let dep_change = migration_b.dependency_change.as_ref().unwrap();
    assert_eq!(dep_change.old_dependencies.len(), 1);
    assert_eq!(dep_change.old_dependencies[0].app, "app_a");
    assert_eq!(dep_change.old_dependencies[0].migration_file.0, "0001_initial");
    assert_eq!(dep_change.new_dependencies.len(), 1);
    assert_eq!(dep_change.new_dependencies[0].app, "app_a");
    assert_eq!(dep_change.new_dependencies[0].migration_file.0, "0005_initial");
}

#[test]
fn project_test_django_project_apply_changes() {
    let mut files = MemoryFiles::new();
    let d = "/tmp/project/myapp/migrations";
    create_test_migration_file(&mut files, d, 1, "initial", vec![]);
    create_test_migration_file(&mut files, d, 2, "add_field", vec![("myapp", "'0001_initial'")]);
    create_max_migration_file(&mut files, d, "0002_add_field\n");

    let mut project = DjangoProject::from_tree(&files.tree()).unwrap();
    let app = find_app(&mut project, "myapp");
    for migration in app.head_migrations.iter_mut() {
        if migration.file_path.ends_with("/0002_add_field.py") {
            migration.name_change = Some(MigrationFileNameChange::new(
                name("0002_add_field"),
                name("0003_add_field"),
            ));
        }
    }
    app.max_migration_result = MaxMigrationResult::Found(MaxMigrationFile {
        current_content: name("0002_add_field"),
        new_content: Some(name("0003_add_field")),
    });

    let rename = |a: String, b: String| files.rename(a, b);
    let read = |p: String| files.read(p);
    let write = |p: String, c: String| files.write(p, c);
    let result = project.apply_changes(&rename, &read, &write);
    assert!(result.is_ok());

    assert!(!files.has_file(&format!("{}/0002_add_field.py", d)));
    assert!(files.has_file(&format!("{}/0003_add_field.py", d)));
    let max_content = files.get(&format!("{}/max_migration.txt", d)).unwrap();
    assert_eq!(max_content.trim(), "0003_add_field");
}

#[test]
fn test_merge_migrations() {
    let (mut files, migrations_dir) = setup_test_env();
    let d = migrations_dir.as_str();
    create_test_migration_file(&mut files, d, 1, "initial", vec![]);
    create_test_migration_file(&mut files, d, 2, "add_field_branch_a", vec![("test_app", "'0001_initial'")]);
    create_test_migration_file(&mut files, d, 2, "add_field_branch_b", vec![("test_app", "'0001_initial'")]);
    create_test_migration_file(
        &mut files,
        d,
        3,
        "merge_migration_for_number_2",
        vec![
            ("test_app", "'0002_add_field_branch_a'"),
            ("test_app", "'0002_add_field_branch_b'"),
        ],
    );
    create_test_migration_file(&mut files, d, 4, "regular_migration", vec![("test_app", "'0003_merge_migration_for_number_2'")]);
    create_test_migration_file(
        &mut files,
        d,
        4,
        "to_be_rebased_migration",
        vec![("test_app", "'0003_merge_migration_for_number_2'")],
    );
    let conflict_content = r#"<<<<<<< HEAD
0004_regular_migration.py
=======
0004_to_be_rebased_migration.py
>>>>>>> feature-branch"#;
    create_max_migration_file(&mut files, d, conflict_content);

    run_rebase(&files, d).unwrap();

    let old_migration_path = format!("{}/0004_to_be_rebased_migration.py", d);
    let new_migration_path = format!("{}/0005_to_be_rebased_migration.py", d);
    assert!(!files.has_file(&old_migration_path), "Old migration file should be renamed");
    assert!(files.has_file(&new_migration_path), "New migration file should exist");

    let project = DjangoProject::from_tree(&files.tree()).unwrap();
    let app = &project.apps[0].1;

    let migration = app
        .head_migrations
        .iter()
        .find(|m| m.file_path == new_migration_path)
        .unwrap();
    assert_eq!(migration.file_name.number(), 5);
    assert_eq!(migration.file_name.name(), "to_be_rebased_migration");
    assert_eq!(migration.file_name.0, "0005_to_be_rebased_migration");
    assert_eq!(migration.dependencies.len(), 1);
    assert_eq!(migration.dependencies[0].app, "test_app");
    assert_eq!(migration.dependencies[0].migration_file.0, "0004_regular_migration");

    let regular_path = format!("{}/0004_regular_migration.py", d);
    let regular = app
        .head_migrations
        .iter()
        .find(|m| m.file_path == regular_path)
        .unwrap();
    assert_eq!(regular.file_name.number(), 4);
    assert_eq!(regular.file_name.name(), "regular_migration");
    assert_eq!(regular.file_name.0, "0004_regular_migration");
    assert_eq!(regular.dependencies.len(), 1);
    assert_eq!(regular.dependencies[0].app, "test_app");
    assert_eq!(
        regular.dependencies[0].migration_file.0,
        "0003_merge_migration_for_number_2"
    );

    let max_migration_content = files.get(&format!("{}/max_migration.txt", d)).unwrap();
    assert_eq!(max_migration_content.trim(), "0005_to_be_rebased_migration");
}

#[test]
fn test_multiple_head_merge_migrations() {
    let (mut files, migrations_dir) = setup_test_env();
    let d = migrations_dir.as_str();
    create_test_migration_file(&mut files, d, 1, "initial", vec![]);
    let shared = [
        (2, "shared_feature_a", "'0001_initial'"),
        (3, "shared_feature_b", "'0002_shared_feature_a'"),
        (4, "shared_feature_c", "'0003_shared_feature_b'"),
        (5, "shared_feature_d", "'0004_shared_feature_c'"),
        (6, "shared_feature_e", "'0005_shared_feature_d'"),
        (7, "shared_feature_f", "'0006_shared_feature_e'"),
    ];
    for (number, name, dep) in shared {
        create_test_migration_file(&mut files, d, number, name, vec![("test_app", dep)]);
    }
    for branch in ["a", "b"] {
        let first = format!("branch_{}_feature_1", branch);
        let second = format!("branch_{}_feature_2", branch);
        create_test_migration_file(&mut files, d, 8, &first, vec![("test_app", "'0007_shared_feature_f'")]);
        create_test_migration_file(&mut files, d, 8, &second, vec![("test_app", "'0007_shared_feature_f'")]);
        let first_dep = format!("'0008_{}'", first);
        let second_dep = format!("'0008_{}'", second);
        create_test_migration_file(
            &mut files,
            d,
            9,
            &format!("branch_{}_merge", branch),
            vec![("test_app", first_dep.as_str()), ("test_app", second_dep.as_str())],
        );
    }
    let conflict_content = r#"<<<<<<< HEAD
0009_branch_a_merge.py
=======
0009_branch_b_merge.py
>>>>>>> feature-branch"#;
    create_max_migration_file(&mut files, d, conflict_content);

    let result = run_rebase(&files, "/tmp/project");
    assert!(result.is_err());
    assert_eq!(
        result.unwrap_err(),
        "Merge migration detected in rebased migration: 0009_branch_b_merge. Currently, merge migrations cannot be resolved properly when they are not part of the HEAD branch. In fact, you can use this tool to avoid merge migrations by rebasing your feature branch on the latest HEAD migration."
    );
}

#[test]
fn rebased_chain_is_renumbered_in_order() {
    let (mut files, migrations_dir) = setup_test_env();
    let d = migrations_dir.as_str();
    create_test_migration_file(&mut files, d, 1, "initial", vec![]);
    create_test_migration_file(&mut files, d, 10, "existing", vec![("test_app", "'0001_initial'")]);
    create_test_migration_file(&mut files, d, 8, "new_feature", vec![("test_app", "'0001_initial'")]);
    create_test_migration_file(&mut files, d, 9, "another", vec![("test_app", "'0008_new_feature'")]);
    create_max_migration_file(
        &mut files,
        d,
        "<<<<<<< HEAD\n0010_existing\n=======\n0009_another\n>>>>>>> feature\n",
    );

    run_rebase(&files, "/tmp/project").unwrap();

    assert!(files.has_file(&format!("{}/0011_new_feature.py", d)));
    assert!(files.has_file(&format!("{}/0012_another.py", d)));
    assert!(!files.has_file(&format!("{}/0008_new_feature.py", d)));
    assert!(!files.has_file(&format!("{}/0009_another.py", d)));
    let first = files.get(&format!("{}/0011_new_feature.py", d)).unwrap();
    assert!(first.contains("dependencies = [('test_app', '0010_existing')]"));
    let second = files.get(&format!("{}/0012_another.py", d)).unwrap();
    assert!(second.contains("dependencies = [('test_app', '0011_new_feature')]"));
    let max = files.get(&format!("{}/max_migration.txt", d)).unwrap();
    assert_eq!(max, "0012_another\n");
}

#[test]
fn json_output_lists_only_apps_with_changes() {
    let (files, _migrations_dir) = conflicting_app();
    let mut other = MemoryFiles::new();
    create_test_migration_file(&mut other, "/tmp/project/quiet/migrations", 1, "initial", vec![]);
    create_max_migration_file(&mut other, "/tmp/project/quiet/migrations", "0001_initial\n");
    for (p, c) in other.files.borrow().iter() {
        files.put(p, c);
    }
    let mut tree = files.tree();
    tree.directories.extend(other.directories.clone());
    let mut project = DjangoProject::from_tree(&tree).unwrap();
    project.plan_changes(&tree.files).unwrap();
    let changes = JsonProjectChanges::try_from(&project).unwrap();
    assert_eq!(changes.apps.len(), 1);
    assert_eq!(changes.apps[0].0, "test_app");
    let json = changes.to_json().unwrap();
    let parsed: serde_json::Value = serde_json::from_str(&json).unwrap();
    assert_eq!(
        parsed["apps"]["test_app"]["max_migration_update"]["new"],
        "0004_rebased_change"
    );
    assert_eq!(
        parsed["apps"]["test_app"]["migration_changes"][0]["migration"],
        "0003_rebased_change"
    );
}

#[test]
fn unreadable_incoming_migration_is_reported() {
    let (files, migrations_dir) = conflicting_app();
    let mut tree = files.tree();
    let incoming = format!("{}/0003_rebased_change.py", migrations_dir);
    tree.files.retain(|f| f.path != incoming);
    let mut app = DjangoApp::create("/tmp/project/test_app", &tree.files).unwrap();
    let result = app.set_last_common_migration(name("0003_rebased_change"), &tree.files);
    assert_eq!(result.unwrap_err(), format!("Failed to read file {}", incoming));
    assert!(app.last_common_migration.is_none());
}

#[test]
fn skipped_directories() {
    assert!(is_skipped_directory("node_modules"));
    assert!(is_skipped_directory(".git"));
    assert!(is_skipped_directory("docs"));
    assert!(!is_skipped_directory("migrations"));
    assert!(!is_skipped_directory("myapp"));
}

fn in_memory_migration(file_name: &str, name_change: Option<MigrationFileNameChange>) -> Migration {
    Migration {
        file_name: name(file_name),
        file_path: format!("test/testapp/migrations/{}.py", file_name),
        app_name: "testapp".to_string(),
        dependencies: vec![],
        from_rebased_branch: false,
        name_change,
        dependency_change: None,
    }
}

fn count_cell(value: &CellValue) -> usize {
    match value {
        CellValue::Count(n) => *n,
        other => panic!("not a count: {:?}", other),
    }
}

#[test]
fn test_total_migrations_count_includes_all_migrations() {
    let mut head_migrations = vec![in_memory_migration(
        "0001_initial",
        Some(MigrationFileNameChange::new(name("0001_initial"), name("0005_initial"))),
    )];
    for i in 2..=5 {
        head_migrations.push(in_memory_migration(&format!("000{}_migration_{}", i, i), None));
    }
    let rebased_migrations = vec![
        in_memory_migration(
            "0006_rebased",
            Some(MigrationFileNameChange::new(name("0006_rebased"), name("0010_rebased"))),
        ),
        in_memory_migration("0007_rebased_2", None),
    ];
    let app = DjangoApp {
        directory: "test/testapp/migrations".to_string(),
        head_migrations,
        rebased_migrations,
        last_common_migration: None,
        max_migration_result: MaxMigrationResult::NotFound,
    };

    let changeset = rebase_migrations::migration::changeset::AppChangeSet::from(&app);
    assert_eq!(changeset.migration_changes.len(), 2);
    assert_eq!(app.head_migrations.len() + app.rebased_migrations.len(), 7);

    let table = get_table(TableOptions::SingleAppSummary("testapp", &app));
    assert_eq!(table.rows.len(), 1);
    assert_eq!(count_cell(&table.rows[0][1].value), 7);
    assert_eq!(count_cell(&table.rows[0][2].value), 2);
    match &table.rows[0][0].value {
        CellValue::Text(t) => assert_eq!(t, "testapp"),
        other => panic!("unexpected {:?}", other),
    }

    let apps = vec![("testapp".to_string(), app)];
    let table = get_table(TableOptions::Summary(&apps));
    assert_eq!(count_cell(&table.rows[0][1].value), 7);
}

#[test]
fn test_total_migrations_count_with_no_changes() {
    let head_migrations = (1..=3)
        .map(|i| in_memory_migration(&format!("000{}_migration", i), None))
        .collect();
    let app = DjangoApp {
        directory: "test/testapp/migrations".to_string(),
        head_migrations,
        rebased_migrations: vec![],
        last_common_migration: None,
        max_migration_result: MaxMigrationResult::NotFound,
    };

    let table = get_table(TableOptions::SingleAppSummary("testapp", &app));
    assert_eq!(count_cell(&table.rows[0][1].value), 3);
    assert_eq!(count_cell(&table.rows[0][2].value), 0);
    match &table.rows[0][4].value {
        CellValue::Text(t) => assert_eq!(t, "No"),
        other => panic!("unexpected {:?}", other),
    }

    let apps = vec![("testapp".to_string(), app)];
    let table = get_table(TableOptions::Summary(&apps));
    assert_eq!(count_cell(&table.rows[0][1].value), 3);

    let table = get_table(TableOptions::SingleAppMaxMigrationChanges("testapp", &apps[0].1));
    match &table.rows[0][0].value {
        CellValue::Text(t) => assert_eq!(t, "No changes"),
        other => panic!("unexpected {:?}", other),
    }
}

#[test]
fn parser_test_migration_parser_new() {
    let source = migration_source(&[]);
    let result = MigrationParser::new("/tmp/project/test_app/migrations/0001_initial.py", &source);
    assert!(result.is_ok());
    let parser = result.unwrap();
    assert_eq!(parser.file_path, "/tmp/project/test_app/migrations/0001_initial.py");
}

#[test]
fn parser_test_migration_parser_new_nonexistent_file() {
    let files: Vec<SourceFile> = Vec::new();
    let result = Migration::try_from("/tmp/project/test_app/migrations/0001_nonexistent.py", &files);
    assert!(result.is_err());
    assert!(result.unwrap_err().contains("Failed to read file"));
}

#[test]
fn parser_test_migration_parser_new_invalid_python() {
    let result = MigrationParser::new("invalid.py", "this is not valid python syntax $$$ %%%");
    assert!(result.is_err());
    if let Err(error) = result {
        assert!(error.contains("Failed to parse python statements"));
    }
}

#[test]
fn parser_test_migration_parser_get_dependencies_no_dependencies() {
    let parser = MigrationParser::new("0001_initial.py", &migration_source(&[])).unwrap();
    assert_eq!(parser.get_dependencies().len(), 0);
}

#[test]
fn parser_test_migration_parser_get_dependencies_single_dependency() {
    let source = migration_source(&[("myapp", "'0001_initial'")]);
    let parser = MigrationParser::new("0002_add_field.py", &source).unwrap();
    let dependencies = parser.get_dependencies();
    assert_eq!(dependencies.len(), 1);
    assert_eq!(dependencies[0].app, "myapp");
    assert_eq!(dependencies[0].migration_file.0, "0001_initial");
}

#[test]
fn parser_test_migration_parser_get_dependencies_multiple_dependencies() {
    let source = migration_source(&[
        ("myapp", "'0001_initial'"),
        ("otherapp", "'0002_create_model'"),
        ("thirdapp", "'0001_setup'"),
    ]);
    let parser = MigrationParser::new("0003_complex.py", &source).unwrap();
    let dependencies = parser.get_dependencies();
    assert_eq!(dependencies.len(), 3);
    assert_eq!(dependencies[0].app, "myapp");
    assert_eq!(dependencies[0].migration_file.0, "0001_initial");
    assert_eq!(dependencies[1].app, "otherapp");
    assert_eq!(dependencies[1].migration_file.0, "0002_create_model");
    assert_eq!(dependencies[2].app, "thirdapp");
    assert_eq!(dependencies[2].migration_file.0, "0001_setup");
}

#[test]
fn parser_test_migration_parser_get_dependencies_cross_app() {
    let source = migration_source(&[
        ("auth", "'0012_alter_user_first_name_max_length'"),
        ("contenttypes", "'0002_remove_content_type_name'"),
    ]);
    let parser = MigrationParser::new("0001_depend_on_auth.py", &source).unwrap();
    let dependencies = parser.get_dependencies();
    assert_eq!(dependencies.len(), 2);
    assert_eq!(dependencies[0].app, "auth");
    assert_eq!(dependencies[0].migration_file.0, "0012_alter_user_first_name_max_length");
    assert_eq!(dependencies[1].app, "contenttypes");
    assert_eq!(dependencies[1].migration_file.0, "0002_remove_content_type_name");
}

#[test]
fn parser_test_migration_parser_get_dependencies_malformed_file() {
    let content = r#"
# This is not a proper Django migration
def some_function():
    pass

class NotAMigration:
    def do_something(self):
        return []
"#;
    let parser = MigrationParser::new("malformed.py", content).unwrap();
    assert_eq!(parser.get_dependencies().len(), 0);
}

#[test]
fn dependency_location_is_the_assignment() {
    let source = migration_source(&[("myapp", "'0001_initial'")]);
    let parser = MigrationParser::new("0002_add_field.py", &source).unwrap();
    let (start, end) = parser.find_dependency_location().unwrap();
    let text = &source.as_bytes()[start as usize..end as usize];
    let text = String::from_utf8(text.to_vec()).unwrap();
    assert!(text.starts_with("dependencies = ["));
    assert!(text.ends_with("]"));
}

#[test]
fn change_test_migration_filename_change_apply_change() {
    let (mut files, migrations_dir) = setup_test_env();
    create_test_migration_file(&mut files, &migrations_dir, 1, "initial", vec![]);
    let change = MigrationFileNameChange::new(name("0001_initial"), name("0002_initial"));
    let rename = |a: String, b: String| files.rename(a, b);
    let result = change.apply_change(&migrations_dir, &rename);
    assert!(result.is_ok());
    assert!(!files.has_file(&format!("{}/0001_initial.py", migrations_dir)));
    assert!(files.has_file(&format!("{}/0002_initial.py", migrations_dir)));
    assert_eq!(change.to_string(), "0001_initial -> 0002_initial");
}

#[test]
fn change_test_migration_filename_change_apply_change_nonexistent_file() {
    let (files, migrations_dir) = setup_test_env();
    let change = MigrationFileNameChange::new(name("0001_nonexistent"), name("0002_nonexistent"));
    let rename = |a: String, b: String| files.rename(a, b);
    let result = change.apply_change(&migrations_dir, &rename);
    assert!(result.is_err());
    assert!(result.unwrap_err().contains("Failed to rename file"));
}

#[test]
fn change_test_migration_dependency_change_apply_change() {
    let (mut files, migrations_dir) = setup_test_env();
    let path = create_test_migration_file(
        &mut files,
        &migrations_dir,
        2,
        "add_field",
        vec![("test_app", "'0001_initial'"), ("other_app", "'0003_other'")],
    );
    let change = MigrationDependencyChange::new(
        vec![
            MigrationDependency { app: "test_app".to_string(), migration_file: name("0001_initial") },
            MigrationDependency { app: "other_app".to_string(), migration_file: name("0003_other") },
        ],
        vec![
            MigrationDependency { app: "test_app".to_string(), migration_file: name("0005_initial") },
            MigrationDependency { app: "other_app".to_string(), migration_file: name("0007_other") },
        ],
    );
    let read = |p: String| files.read(p);
    let write = |p: String, c: String| files.write(p, c);
    let result = change.apply_change(&path, &read, &write);
    assert!(result.is_ok());
    let content = files.get(&path).unwrap();
    assert!(content.contains(
        "dependencies = [('test_app', '0005_initial'), ('other_app', '0007_other')]"
    ));
    assert!(content.contains("operations = []"));
    let parser = MigrationParser::new(&path, &content).unwrap();
    let dependencies = parser.get_dependencies();
    assert_eq!(dependencies.len(), 2);
    assert_eq!(dependencies[0].migration_file.0, "0005_initial");
    assert_eq!(dependencies[1].migration_file.0, "0007_other");
    assert_eq!(
        change.to_string(),
        "[('test_app', '0001_initial'), ('other_app', '0003_other')] -> [('test_app', '0005_initial'), ('other_app', '0007_other')]"
    );
}

#[test]
fn change_test_migration_dependency_change_apply_change_empty_dependencies() {
    let (mut files, migrations_dir) = setup_test_env();
    let path = create_test_migration_file(&mut files, &migrations_dir, 2, "add_field", vec![("test_app", "'0001_initial'")]);
    let change = MigrationDependencyChange::new(
        vec![MigrationDependency { app: "test_app".to_string(), migration_file: name("0001_initial") }],
        vec![],
    );
    let read = |p: String| files.read(p);
    let write = |p: String, c: String| files.write(p, c);
    assert!(change.apply_change(&path, &read, &write).is_ok());
    let content = files.get(&path).unwrap();
    assert!(content.contains("dependencies = []"));
}

#[test]
fn change_test_migration_dependency_change_apply_change_nonexistent_file() {
    let (files, migrations_dir) = setup_test_env();
    let path = format!("{}/0009_missing.py", migrations_dir);
    let change = MigrationDependencyChange::new(vec![], vec![]);
    let read = |p: String| files.read(p);
    let write = |p: String, c: String| files.write(p, c);
    let result = change.apply_change(&path, &read, &write);
    assert!(result.is_err());
    assert!(result.unwrap_err().contains("Failed to read file"));
}

#[test]
fn test_replace_range_in_file() {
    let content = "Hello, world! This is a test file.";
    let new_content = replace_range(content, 7, 12, "Rust");
    assert_eq!(new_content, "Hello, Rust! This is a test file.");
}

#[test]
fn migration_paths() {
    let migration = Migration {
        file_name: name("0003_rebased"),
        file_path: "/p/app/migrations/0003_rebased.py".to_string(),
        app_name: "app".to_string(),
        dependencies: vec![
            MigrationDependency { app: "app".to_string(), migration_file: name("0002_a") },
            MigrationDependency { app: "app".to_string(), migration_file: name("0002_b") },
        ],
        from_rebased_branch: true,
        name_change: Some(MigrationFileNameChange::new(name("0003_rebased"), name("0007_rebased"))),
        dependency_change: None,
    };
    assert_eq!(
        migration.new_full_path("/p/app/migrations"),
        Some("/p/app/migrations/0007_rebased.py".to_string())
    );
    assert!(migration.is_merge_migration().is_err());
}

#[test]
fn rebase_test_django_project_from_path_empty() {
    project_test_django_project_from_path_empty();
}

#[test]
fn rebase_test_migration_parser_new() {
    parser_test_migration_parser_new();
}

#[test]
fn rebase_test_migration_parser_new_nonexistent_file() {
    parser_test_migration_parser_new_nonexistent_file();
}

#[test]
fn rebase_test_migration_parser_new_invalid_python() {
    parser_test_migration_parser_new_invalid_python();
}

#[test]
fn rebase_test_migration_parser_get_dependencies_no_dependencies() {
    parser_test_migration_parser_get_dependencies_no_dependencies();
}

#[test]
fn rebase_test_migration_parser_get_dependencies_single_dependency() {
    parser_test_migration_parser_get_dependencies_single_dependency();
}

#[test]
fn rebase_test_migration_parser_get_dependencies_multiple_dependencies() {
    parser_test_migration_parser_get_dependencies_multiple_dependencies();
}

#[test]
fn rebase_test_migration_parser_get_dependencies_cross_app() {
    parser_test_migration_parser_get_dependencies_cross_app();
}

#[test]
fn rebase_test_migration_parser_get_dependencies_malformed_file() {
    parser_test_migration_parser_get_dependencies_malformed_file();
}

#[test]
fn rebase_test_migration_filename_change_apply_change() {
    change_test_migration_filename_change_apply_change();
}

#[test]
fn rebase_test_migration_filename_change_apply_change_nonexistent_file() {
    change_test_migration_filename_change_apply_change_nonexistent_file();
}

#[test]
fn rebase_test_migration_dependency_change_apply_change() {
    change_test_migration_dependency_change_apply_change();
}

#[test]
fn rebase_test_migration_dependency_change_apply_change_empty_dependencies() {
    change_test_migration_dependency_change_apply_change_empty_dependencies();
}

#[test]
fn rebase_test_migration_dependency_change_apply_change_nonexistent_file() {
    change_test_migration_dependency_change_apply_change_nonexistent_file();
}
