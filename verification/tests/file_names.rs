use std::cell::RefCell;

use rebase_migrations::migration::file::{
    MaxMigrationFile, MaxMigrationResult, MergeConflict, MigrationDependency, MigrationFileName,
};
use rebase_migrations::migration::parser::{PyAtom, PyExpr};

/// Files written through the `write` operation, for the tests.
struct Written {
    files: RefCell<Vec<(String, String)>>,
    existing_dirs: Vec<String>,
}

impl Written {
    fn new(existing_dirs: &[&str]) -> Written {
        Written {
            files: RefCell::new(Vec::new()),
            existing_dirs: existing_dirs.iter().map(|d| d.to_string()).collect(),
        }
    }

    fn write(&self, path: String, content: String) -> Result<(), String> {
        let dir = match path.rfind('/') {
            Some(i) => path[..i].to_string(),
            None => String::new(),
        };
        if !self.existing_dirs.contains(&dir) {
            return Err("No such file or directory (os error 2)".to_string());
        }
        let mut files = self.files.borrow_mut();
        files.retain(|(p, _)| *p != path);
        files.push((path, content));
        Ok(())
    }

    fn content(&self, path: &str) -> Option<String> {
        self.files
            .borrow()
            .iter()
            .find(|(p, _)| p == path)
            .map(|(_, c)| c.clone())
    }
}

fn check_valid_names() {
    let result = MigrationFileName::try_from("0001_initial".to_string());
    assert!(result.is_ok());
    assert_eq!(result.unwrap().0, "0001_initial");

    let result = MigrationFileName::try_from("0002_add_field".to_string());
    assert!(result.is_ok());
    assert_eq!(result.unwrap().0, "0002_add_field");

    let result = MigrationFileName::try_from("0123_complex_migration_name".to_string());
    assert!(result.is_ok());
    assert_eq!(result.unwrap().0, "0123_complex_migration_name");
}

fn check_py_extension() {
    let result = MigrationFileName::try_from("0001_initial.py".to_string());
    assert!(result.is_ok());
    assert_eq!(result.unwrap().0, "0001_initial");

    let result = MigrationFileName::try_from("0042_remove_field.py".to_string());
    assert!(result.is_ok());
    assert_eq!(result.unwrap().0, "0042_remove_field");
}

fn check_invalid_names() {
    for name in ["0001initial", "_initial", "abc_initial", "001a_initial", "_0001_initial"] {
        let result = MigrationFileName::try_from(name.to_string());
        assert!(result.is_err());
        assert!(result.unwrap_err().contains("Invalid migration file name"));
    }
}

fn check_edge_cases() {
    for name in ["1_test", "12_test", "123_test", "12345_test", "0001_"] {
        let result = MigrationFileName::try_from(name.to_string());
        assert!(result.is_err());
        assert!(result.unwrap_err().contains("Invalid migration file name"));
    }
}

fn check_complex_names() {
    let result = MigrationFileName::try_from("0001_test_with_underscores".to_string());
    assert!(result.is_ok());
    assert_eq!(result.unwrap().0, "0001_test_with_underscores");

    let result =
        MigrationFileName::try_from("0042_add_user_profile_and_update_permissions".to_string());
    assert!(result.is_ok());
    assert_eq!(
        result.unwrap().0,
        "0042_add_user_profile_and_update_permissions"
    );
}

fn check_invalid_directory() {
    let invalid_dir = "/nonexistent/invalid/path/migrations";
    let written = Written::new(&[]);
    let write = |p: String, c: String| written.write(p, c);

    let max_migration_file = MaxMigrationFile {
        current_content: MigrationFileName("0001_initial".to_string()),
        new_content: Some(MigrationFileName("0005_updated".to_string())),
    };

    let result = max_migration_file.apply_change(invalid_dir, &write);
    assert!(result.is_err());
    assert!(
        result
            .unwrap_err()
            .contains("Failed to write max migration file")
    );
}

#[test]
fn file_test_migration_filename_try_from_string_valid() {
    check_valid_names();
}

#[test]
fn file_test_migration_filename_try_from_string_with_py_extension() {
    check_py_extension();
}

#[test]
fn file_test_migration_filename_try_from_string_invalid() {
    check_invalid_names();
}

#[test]
fn file_test_migration_filename_try_from_string_edge_cases() {
    check_edge_cases();
}

#[test]
fn file_test_migration_filename_try_from_string_valid_complex_names() {
    check_complex_names();
}

#[test]
fn rebase_test_migration_filename_try_from_string_valid() {
    check_valid_names();
}

#[test]
fn rebase_test_migration_filename_try_from_string_with_py_extension() {
    check_py_extension();
}

#[test]
fn rebase_test_migration_filename_try_from_string_invalid() {
    check_invalid_names();
}

#[test]
fn rebase_test_migration_filename_try_from_string_edge_cases() {
    check_edge_cases();
}

#[test]
fn rebase_test_migration_filename_try_from_string_valid_complex_names() {
    check_complex_names();
}

#[test]
fn file_test_max_migration_file_apply_change_invalid_directory() {
    check_invalid_directory();
}

#[test]
fn rebase_test_max_migration_file_apply_change_invalid_directory() {
    check_invalid_directory();
}

#[test]
fn file_test_max_migration_file_apply_change() {
    let migrations_dir = "/tmp/project/migrations";
    let written = Written::new(&[migrations_dir]);
    let write = |p: String, c: String| written.write(p, c);

    let max_migration_file = MaxMigrationFile {
        current_content: MigrationFileName("0001_initial".to_string()),
        new_content: Some(MigrationFileName("0005_updated".to_string())),
    };

    let result = max_migration_file.apply_change(migrations_dir, &write);
    assert!(result.is_ok());
    assert_eq!(
        written.content("/tmp/project/migrations/max_migration.txt"),
        Some("0005_updated\n".to_string())
    );
}

#[test]
fn file_test_max_migration_file_apply_change_overwrite_existing() {
    let migrations_dir = "/tmp/project/migrations";
    let written = Written::new(&[migrations_dir]);
    written
        .write(
            "/tmp/project/migrations/max_migration.txt".to_string(),
            "0003_old_content\n".to_string(),
        )
        .unwrap();
    let write = |p: String, c: String| written.write(p, c);

    let max_migration_file = MaxMigrationFile {
        current_content: MigrationFileName("0003_old_content".to_string()),
        new_content: Some(MigrationFileName("0007_new_content".to_string())),
    };

    let result = max_migration_file.apply_change(migrations_dir, &write);
    assert!(result.is_ok());
    assert_eq!(
        written.content("/tmp/project/migrations/max_migration.txt"),
        Some("0007_new_content\n".to_string())
    );
}

#[test]
fn file_test_max_migration_file_apply_change_no_new_content() {
    let migrations_dir = "/tmp/project/migrations";
    let written = Written::new(&[migrations_dir]);
    let write = |p: String, c: String| written.write(p, c);

    let max_migration_file = MaxMigrationFile {
        current_content: MigrationFileName("0001_initial".to_string()),
        new_content: None,
    };

    let result = max_migration_file.apply_change(migrations_dir, &write);
    assert!(result.is_ok());
    assert_eq!(
        written.content("/tmp/project/migrations/max_migration.txt"),
        None
    );
}

#[test]
fn test_merge_conflict_try_from_valid() {
    let conflict_content = r#"<<<<<<< HEAD
0001_initial.py
=======
0002_add_field.py
>>>>>>> feature-branch"#;

    let result = MergeConflict::try_from(conflict_content.to_string());
    assert!(result.is_ok());

    let conflict = result.unwrap();
    assert_eq!(conflict.head.0, "0001_initial");
    assert_eq!(conflict.incoming_change.0, "0002_add_field");
}

#[test]
fn test_merge_conflict_try_from_with_whitespace() {
    let conflict_content = "<<<<<<< HEAD\n  0003_remove_field.py  \n=======\n  0004_modify_model.py  \n>>>>>>> refactor-branch";

    let result = MergeConflict::try_from(conflict_content.to_string());
    assert!(result.is_ok());

    let conflict = result.unwrap();
    assert_eq!(conflict.head.0, "0003_remove_field");
    assert_eq!(conflict.incoming_change.0, "0004_modify_model");
}

#[test]
fn test_merge_conflict_try_from_missing_head_marker() {
    let conflict_content = r#"0001_initial.py
=======
0002_add_field.py
>>>>>>> feature-branch"#;

    let result = MergeConflict::try_from(conflict_content.to_string());
    assert!(result.is_err());
    assert!(result.unwrap_err().contains("No merge conflict found"));
}

#[test]
fn test_merge_conflict_try_from_missing_separator() {
    let conflict_content = r#"<<<<<<< HEAD
0001_initial.py
0002_add_field.py
>>>>>>> feature-branch"#;

    let result = MergeConflict::try_from(conflict_content.to_string());
    assert!(result.is_err());
    assert!(result.unwrap_err().contains("No merge conflict found"));
}

#[test]
fn test_merge_conflict_try_from_missing_end_marker() {
    let conflict_content = r#"<<<<<<< HEAD
0001_initial.py
=======
0002_add_field.py"#;

    let result = MergeConflict::try_from(conflict_content.to_string());
    assert!(result.is_err());
    assert!(result.unwrap_err().contains("No merge conflict found"));
}

#[test]
fn test_merge_conflict_try_from_empty_content() {
    let result = MergeConflict::try_from(String::new());
    assert!(result.is_err());
    assert!(result.unwrap_err().contains("No merge conflict found"));
}

#[test]
fn test_merge_conflict_try_from_multiline_content() {
    let conflict_content = r#"Some other content before
<<<<<<< HEAD
0005_complex_migration.py
Additional content
=======
0006_new_migration.py
More content here
>>>>>>> complex-feature
Some content after"#;

    let result = MergeConflict::try_from(conflict_content.to_string());
    assert!(result.is_ok());

    let conflict = result.unwrap();
    assert_eq!(
        conflict.head.0,
        "0005_complex_migration.py\nAdditional content"
    );
    assert_eq!(
        conflict.incoming_change.0,
        "0006_new_migration.py\nMore content here"
    );
}

fn tuple(elements: Vec<PyAtom>) -> PyExpr {
    PyExpr::Tuple(elements)
}

fn string(s: &str) -> PyAtom {
    PyAtom::Str(s.to_string())
}

#[test]
fn file_test_migration_dependency_try_from_valid() {
    let expr = tuple(vec![string("app_name"), string("0001_initial")]);

    let result = MigrationDependency::try_from_expr(&expr);
    assert!(result.is_ok());

    let dependency = result.unwrap();
    assert_eq!(dependency.app, "app_name");
    assert_eq!(dependency.migration_file.0, "0001_initial");
}

#[test]
fn file_test_migration_dependency_try_from_valid_complex() {
    let expr = tuple(vec![
        string("my_complex_app"),
        string("0042_add_user_profile_and_permissions"),
    ]);

    let result = MigrationDependency::try_from_expr(&expr);
    assert!(result.is_ok());

    let dependency = result.unwrap();
    assert_eq!(dependency.app, "my_complex_app");
    assert_eq!(
        dependency.migration_file.0,
        "0042_add_user_profile_and_permissions"
    );
}

#[test]
fn file_test_migration_dependency_try_from_invalid_not_tuple() {
    let expr = PyExpr::Other;

    let result = MigrationDependency::try_from_expr(&expr);
    assert!(result.is_err());
    assert_eq!(result.unwrap_err(), "Expression is not a tuple");
}

#[test]
fn file_test_migration_dependency_try_from_invalid_tuple_length() {
    let expr = tuple(vec![string("app_name")]);

    let result = MigrationDependency::try_from_expr(&expr);
    assert!(result.is_err());
    assert_eq!(result.unwrap_err(), "Tuple must have exactly 2 elements");

    let expr = tuple(vec![
        string("app_name"),
        string("0001_initial"),
        string("extra"),
    ]);

    let result = MigrationDependency::try_from_expr(&expr);
    assert!(result.is_err());
    assert_eq!(result.unwrap_err(), "Tuple must have exactly 2 elements");
}

#[test]
fn file_test_migration_dependency_try_from_invalid_app_name() {
    let expr = tuple(vec![PyAtom::NonStrConstant, string("0001_initial")]);

    let result = MigrationDependency::try_from_expr(&expr);
    assert!(result.is_err());
    assert!(
        result
            .unwrap_err()
            .contains("First tuple element is not a string constant")
    );
}

#[test]
fn file_test_migration_dependency_try_from_invalid_migration_name() {
    let expr = tuple(vec![string("app_name"), string("invalid_migration")]);

    let result = MigrationDependency::try_from_expr(&expr);
    assert!(result.is_err());
    assert!(result.unwrap_err().contains("Invalid migration file name"));
}

#[test]
fn migration_file_name_number_and_name() {
    let name = MigrationFileName::try_from("0042_add_field".to_string()).unwrap();
    assert_eq!(name.number(), 42);
    assert_eq!(name.name(), "add_field");

    let built = MigrationFileName::from_number_and_name(7, "rebased_change");
    assert_eq!(built.0, "0007_rebased_change");
    assert_eq!(built.number(), 7);
    assert_eq!(built.name(), "rebased_change");

    let built = MigrationFileName::from_number_and_name(1234, "x");
    assert_eq!(built.0, "1234_x");
}

#[test]
fn max_migration_content_is_read() {
    match MaxMigrationResult::from_content("  0004_latest\n") {
        MaxMigrationResult::Found(f) => {
            assert_eq!(f.current_content.0, "0004_latest");
            assert!(f.new_content.is_none());
        }
        other => panic!("unexpected {:?}", other),
    }
    match MaxMigrationResult::from_content(
        "<<<<<<< HEAD\n0003_a.py\n=======\n0003_b.py\n>>>>>>> branch\n",
    ) {
        MaxMigrationResult::Conflict(c) => {
            assert_eq!(c.head.0, "0003_a");
            assert_eq!(c.incoming_change.0, "0003_b");
        }
        other => panic!("unexpected {:?}", other),
    }
    assert!(matches!(
        MaxMigrationResult::from_content("   \n"),
        MaxMigrationResult::NotFound
    ));
    assert!(matches!(
        MaxMigrationResult::from_content("not a migration"),
        MaxMigrationResult::NotFound
    ));
}

#[test]
fn max_migration_written_reads_back() {
    let migrations_dir = "/tmp/project/migrations";
    let written = Written::new(&[migrations_dir]);
    let write = |p: String, c: String| written.write(p, c);
    let max_migration_file = MaxMigrationFile {
        current_content: MigrationFileName("0004_old".to_string()),
        new_content: Some(MigrationFileName("0009_new".to_string())),
    };
    max_migration_file.apply_change(migrations_dir, &write).unwrap();
    let content = written
        .content("/tmp/project/migrations/max_migration.txt")
        .unwrap();
    match MaxMigrationResult::from_content(&content) {
        MaxMigrationResult::Found(f) => assert_eq!(f.current_content.0, "0009_new"),
        other => panic!("unexpected {:?}", other),
    }
}

#[test]
fn rebase_test_migration_dependency_try_from_valid() {
    file_test_migration_dependency_try_from_valid();
}

#[test]
fn rebase_test_migration_dependency_try_from_valid_complex() {
    file_test_migration_dependency_try_from_valid_complex();
}

#[test]
fn rebase_test_migration_dependency_try_from_invalid_not_tuple() {
    file_test_migration_dependency_try_from_invalid_not_tuple();
}

#[test]
fn rebase_test_migration_dependency_try_from_invalid_tuple_length() {
    file_test_migration_dependency_try_from_invalid_tuple_length();
}

#[test]
fn rebase_test_migration_dependency_try_from_invalid_app_name() {
    file_test_migration_dependency_try_from_invalid_app_name();
}

#[test]
fn rebase_test_migration_dependency_try_from_invalid_migration_name() {
    file_test_migration_dependency_try_from_invalid_migration_name();
}

#[test]
fn rebase_test_max_migration_file_apply_change() {
    file_test_max_migration_file_apply_change();
}

#[test]
fn rebase_test_max_migration_file_apply_change_overwrite_existing() {
    file_test_max_migration_file_apply_change_overwrite_existing();
}

#[test]
fn rebase_test_max_migration_file_apply_change_no_new_content() {
    file_test_max_migration_file_apply_change_no_new_content();
}
