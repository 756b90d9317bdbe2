use rebase_migrations::json::to_json_text;
use rebase_migrations::migration::change::{MigrationDependencyChange, MigrationFileNameChange};
use rebase_migrations::migration::changeset::{
    AppChangeSet, MaxMigrationChangeSet, MigrationChangeSet, ProjectChangeSet,
};
use rebase_migrations::migration::file::{
    MaxMigrationFile, MaxMigrationResult, Migration, MigrationDependency, MigrationFileName,
};
use rebase_migrations::migration::group::DjangoApp;
use rebase_migrations::migration::project::DjangoProject;

fn name(s: &str) -> MigrationFileName {
    MigrationFileName::try_from(s.to_string()).unwrap()
}

fn create_in_memory_migration(
    file_name: &str,
    app_name: &str,
    name_change: Option<MigrationFileNameChange>,
    dependency_change: Option<MigrationDependencyChange>,
) -> Migration {
    Migration {
        file_name: name(file_name),
        file_path: format!("/test/{}/migrations/{}.py", app_name, file_name),
        app_name: app_name.to_string(),
        dependencies: vec![],
        from_rebased_branch: false,
        name_change,
        dependency_change,
    }
}

fn app(directory: &str) -> DjangoApp {
    DjangoApp {
        directory: directory.to_string(),
        head_migrations: vec![],
        rebased_migrations: vec![],
        last_common_migration: None,
        max_migration_result: MaxMigrationResult::NotFound,
    }
}

fn dependency_change() -> MigrationDependencyChange {
    MigrationDependencyChange::new(
        vec![MigrationDependency {
            app: "app1".to_string(),
            migration_file: name("0001_old"),
        }],
        vec![MigrationDependency {
            app: "app1".to_string(),
            migration_file: name("0002_new"),
        }],
    )
}

#[test]
fn test_migration_changeset_try_from_with_both_changes() {
    let name_change = MigrationFileNameChange::new(name("0001_initial"), name("0003_initial"));
    let dep_change = dependency_change();

    let migration = create_in_memory_migration(
        "0001_initial",
        "testapp",
        Some(name_change.clone()),
        Some(dep_change.clone()),
    );

    let result = MigrationChangeSet::try_from(&migration);
    assert!(result.is_ok());

    let changeset = result.unwrap();
    assert_eq!(changeset.migration_file_name.0, "0001_initial");
    assert!(changeset.file_rename.is_some());
    assert_eq!(changeset.file_rename.unwrap(), name_change);
    assert!(changeset.dependency_updates.is_some());
    assert_eq!(changeset.dependency_updates.unwrap(), dep_change);
}

#[test]
fn test_migration_changeset_try_from_with_only_name_change() {
    let name_change = MigrationFileNameChange::new(name("0001_initial"), name("0003_initial"));

    let migration =
        create_in_memory_migration("0001_initial", "testapp", Some(name_change.clone()), None);

    let result = MigrationChangeSet::try_from(&migration);
    assert!(result.is_ok());

    let changeset = result.unwrap();
    assert_eq!(changeset.migration_file_name.0, "0001_initial");
    assert!(changeset.file_rename.is_some());
    assert_eq!(changeset.file_rename.unwrap(), name_change);
    assert!(changeset.dependency_updates.is_none());
}

#[test]
fn test_migration_changeset_try_from_with_only_dependency_change() {
    let dep_change = dependency_change();

    let migration =
        create_in_memory_migration("0001_initial", "testapp", None, Some(dep_change.clone()));

    let result = MigrationChangeSet::try_from(&migration);
    assert!(result.is_ok());

    let changeset = result.unwrap();
    assert_eq!(changeset.migration_file_name.0, "0001_initial");
    assert!(changeset.file_rename.is_none());
    assert!(changeset.dependency_updates.is_some());
    assert_eq!(changeset.dependency_updates.unwrap(), dep_change);
}

#[test]
fn test_migration_changeset_try_from_no_changes() {
    let migration = create_in_memory_migration("0001_initial", "testapp", None, None);

    let result = MigrationChangeSet::try_from(&migration);
    assert!(result.is_err());
    assert_eq!(result.unwrap_err(), "Migration has no changes");
}

#[test]
fn test_app_changeset_to_json() {
    let changeset = AppChangeSet {
        app_name: "testapp".to_string(),
        last_common_migration: Some(name("0001_initial")),
        migration_changes: vec![],
        max_migration_update: None,
    };

    let result = changeset.to_json();
    assert!(result.is_ok());

    let json = result.unwrap();
    let expected = r#"{
  "app_name": "testapp",
  "last_common_migration": "0001_initial"
}"#;
    assert_eq!(json, expected);
}

#[test]
fn test_app_changeset_to_json_with_changes() {
    let name_change = MigrationFileNameChange::new(name("0001_initial"), name("0003_initial"));

    let migration = create_in_memory_migration("0001_initial", "testapp", Some(name_change), None);
    let migration_changeset = MigrationChangeSet::try_from(&migration).unwrap();

    let max_migration_changeset = MaxMigrationChangeSet {
        old: name("0001_initial"),
        new: name("0003_initial"),
    };

    let changeset = AppChangeSet {
        app_name: "testapp".to_string(),
        last_common_migration: Some(name("0001_base")),
        migration_changes: vec![migration_changeset],
        max_migration_update: Some(max_migration_changeset),
    };

    let result = changeset.to_json();
    assert!(result.is_ok());

    let json = result.unwrap();
    let expected = r#"{
  "app_name": "testapp",
  "last_common_migration": "0001_base",
  "migration_changes": [
    {
      "migration_file_name": "0001_initial",
      "file_rename": {
        "old_name": "0001_initial",
        "new_name": "0003_initial"
      }
    }
  ],
  "max_migration_update": {
    "old": "0001_initial",
    "new": "0003_initial"
  }
}"#;
    assert_eq!(json, expected);
}

#[test]
fn test_app_changeset_to_json_skips_empty_fields() {
    let changeset = AppChangeSet {
        app_name: "testapp".to_string(),
        last_common_migration: None,
        migration_changes: vec![],
        max_migration_update: None,
    };

    let result = changeset.to_json();
    assert!(result.is_ok());

    let json = result.unwrap();
    let expected = r#"{
  "app_name": "testapp"
}"#;
    assert_eq!(json, expected);
}

#[test]
fn test_project_changeset_to_json() {
    let app_changeset = AppChangeSet {
        app_name: "testapp".to_string(),
        last_common_migration: None,
        migration_changes: vec![],
        max_migration_update: None,
    };

    let project_changeset = ProjectChangeSet {
        apps: vec![("testapp".to_string(), app_changeset)],
    };

    let result = project_changeset.to_json();
    assert!(result.is_ok());

    let json = result.unwrap();
    let expected = r#"{
  "apps": {
    "testapp": {
      "app_name": "testapp"
    }
  }
}"#;
    assert_eq!(json, expected);
}

#[test]
fn test_project_changeset_to_json_multiple_apps() {
    let app1 = AppChangeSet {
        app_name: "app1".to_string(),
        last_common_migration: Some(name("0001_initial")),
        migration_changes: vec![],
        max_migration_update: None,
    };

    let app2 = AppChangeSet {
        app_name: "app2".to_string(),
        last_common_migration: Some(name("0002_base")),
        migration_changes: vec![],
        max_migration_update: None,
    };

    let project_changeset = ProjectChangeSet {
        apps: vec![("app1".to_string(), app1), ("app2".to_string(), app2)],
    };

    let result = project_changeset.to_json();
    assert!(result.is_ok());

    let json = result.unwrap();
    let parsed: serde_json::Value = serde_json::from_str(&json).unwrap();
    assert!(parsed["apps"]["app1"].is_object());
    assert!(parsed["apps"]["app2"].is_object());
    assert_eq!(parsed["apps"]["app1"]["app_name"], "app1");
    assert_eq!(parsed["apps"]["app2"]["app_name"], "app2");
    assert_eq!(parsed["apps"]["app1"]["last_common_migration"], "0001_initial");
    assert_eq!(parsed["apps"]["app2"]["last_common_migration"], "0002_base");
}

#[test]
fn test_migration_changeset_serialization() {
    let changeset = MigrationChangeSet {
        migration_file_name: name("0001_initial"),
        file_rename: Some(MigrationFileNameChange::new(
            name("0001_initial"),
            name("0003_initial"),
        )),
        dependency_updates: None,
    };

    let json = to_json_text(&changeset.json_value()).unwrap();
    let expected = r#"{
  "migration_file_name": "0001_initial",
  "file_rename": {
    "old_name": "0001_initial",
    "new_name": "0003_initial"
  }
}"#;
    assert_eq!(json, expected);
}

#[test]
fn test_max_migration_changeset_serialization() {
    let changeset = MaxMigrationChangeSet {
        old: name("0001_initial"),
        new: name("0005_updated"),
    };

    let json = to_json_text(&changeset.json_value()).unwrap();
    let expected = r#"{
  "old": "0001_initial",
  "new": "0005_updated"
}"#;
    assert_eq!(json, expected);
}

#[test]
fn dependency_change_serialization() {
    let changeset = MigrationChangeSet {
        migration_file_name: name("0002_add_field"),
        file_rename: None,
        dependency_updates: Some(dependency_change()),
    };

    let json = to_json_text(&changeset.json_value()).unwrap();
    let expected = r#"{
  "migration_file_name": "0002_add_field",
  "dependency_updates": {
    "old_dependencies": [
      {
        "app": "app1",
        "migration_file": "0001_old"
      }
    ],
    "new_dependencies": [
      {
        "app": "app1",
        "migration_file": "0002_new"
      }
    ]
  }
}"#;
    assert_eq!(json, expected);
}

#[test]
fn test_app_changeset_from_django_app_empty() {
    let app = app("/test/myapp/migrations");

    let changeset = AppChangeSet::from(&app);
    assert_eq!(changeset.app_name, "myapp");
    assert!(changeset.last_common_migration.is_none());
    assert!(changeset.migration_changes.is_empty());
    assert!(changeset.max_migration_update.is_none());
}

#[test]
fn test_app_changeset_from_django_app_with_head_migrations() {
    let name_change = MigrationFileNameChange::new(name("0001_initial"), name("0003_initial"));

    let migration = create_in_memory_migration("0001_initial", "myapp", Some(name_change), None);

    let mut app = app("/test/myapp/migrations");
    app.head_migrations = vec![migration];

    let changeset = AppChangeSet::from(&app);
    assert_eq!(changeset.app_name, "myapp");
    assert_eq!(changeset.migration_changes.len(), 1);
    assert_eq!(
        changeset.migration_changes[0].migration_file_name.0,
        "0001_initial"
    );
}

#[test]
fn test_app_changeset_from_django_app_with_rebased_migrations() {
    let name_change = MigrationFileNameChange::new(name("0002_add_field"), name("0005_add_field"));

    let migration = create_in_memory_migration("0002_add_field", "myapp", Some(name_change), None);

    let mut app = app("/test/myapp/migrations");
    app.rebased_migrations = vec![migration];
    app.last_common_migration = Some(name("0001_base"));

    let changeset = AppChangeSet::from(&app);
    assert_eq!(changeset.app_name, "myapp");
    assert_eq!(changeset.migration_changes.len(), 1);
    assert_eq!(
        changeset.migration_changes[0].migration_file_name.0,
        "0002_add_field"
    );
    assert_eq!(changeset.last_common_migration.unwrap().0, "0001_base");
}

#[test]
fn test_app_changeset_from_django_app_with_max_migration_update() {
    let max_file = MaxMigrationFile {
        current_content: name("0003_old"),
        new_content: Some(name("0007_new")),
    };

    let mut app = app("/test/myapp/migrations");
    app.max_migration_result = MaxMigrationResult::Found(max_file);

    let changeset = AppChangeSet::from(&app);
    assert_eq!(changeset.app_name, "myapp");
    assert!(changeset.max_migration_update.is_some());
    let max_update = changeset.max_migration_update.unwrap();
    assert_eq!(max_update.old.0, "0003_old");
    assert_eq!(max_update.new.0, "0007_new");
}

#[test]
fn test_app_changeset_from_django_app_max_migration_no_new_content() {
    let max_file = MaxMigrationFile {
        current_content: name("0003_current"),
        new_content: None,
    };

    let mut app = app("/test/myapp/migrations");
    app.max_migration_result = MaxMigrationResult::Found(max_file);

    let changeset = AppChangeSet::from(&app);
    assert!(changeset.max_migration_update.is_none());
}

#[test]
fn test_app_changeset_from_django_app_ignores_migrations_without_changes() {
    let migration_no_changes = create_in_memory_migration("0001_initial", "myapp", None, None);

    let name_change = MigrationFileNameChange::new(name("0002_add_field"), name("0004_add_field"));
    let migration_with_changes =
        create_in_memory_migration("0002_add_field", "myapp", Some(name_change), None);

    let mut app = app("/test/myapp/migrations");
    app.head_migrations = vec![migration_no_changes, migration_with_changes];

    let changeset = AppChangeSet::from(&app);
    assert_eq!(changeset.migration_changes.len(), 1);
    assert_eq!(
        changeset.migration_changes[0].migration_file_name.0,
        "0002_add_field"
    );
}

#[test]
fn test_project_changeset_from_django_project_empty() {
    let project = DjangoProject { apps: vec![] };

    let changeset = ProjectChangeSet::from(&project);
    assert!(changeset.apps.is_empty());
}

#[test]
fn test_project_changeset_from_django_project_multiple_apps() {
    let mut app1 = app("/test/app1/migrations");
    app1.last_common_migration = Some(name("0001_initial"));
    let mut app2 = app("/test/app2/migrations");
    app2.last_common_migration = Some(name("0002_base"));

    let project = DjangoProject {
        apps: vec![("app1".to_string(), app1), ("app2".to_string(), app2)],
    };

    let changeset = ProjectChangeSet::from(&project);
    assert_eq!(changeset.apps.len(), 2);
    let get = |key: &str| {
        changeset
            .apps
            .iter()
            .find(|(k, _)| k == key)
            .map(|(_, v)| v.clone())
    };
    assert!(get("app1").is_some());
    assert!(get("app2").is_some());
    assert_eq!(get("app1").unwrap().app_name, "app1");
    assert_eq!(get("app2").unwrap().app_name, "app2");
}

#[test]
fn app_without_changes_gives_empty_json_object() {
    let a = app("/test/myapp/migrations");
    assert_eq!(a.to_json(), Ok("{}".to_string()));
}

#[test]
fn cross_app_update_needs_no_head_migration() {
    let mut a = app("/test/myapp/migrations");
    let mut m = create_in_memory_migration("0002_use_other", "myapp", None, None);
    m.dependencies = vec![
        MigrationDependency { app: "myapp".to_string(), migration_file: name("0001_initial") },
        MigrationDependency { app: "other".to_string(), migration_file: name("0003_old") },
    ];
    a.head_migrations.push(m);
    assert!(a.find_highest_migration(true).is_err());
    let lookup = vec![(
        "other".to_string(),
        vec![MigrationFileNameChange::new(name("0003_old"), name("0005_old"))],
    )];
    a.create_migration_dependency_changes(false, &lookup);
    let change = a.head_migrations[0].dependency_change.as_ref().unwrap();
    assert_eq!(change.new_dependencies[0].migration_file.0, "0001_initial");
    assert_eq!(change.new_dependencies[1].app, "other");
    assert_eq!(change.new_dependencies[1].migration_file.0, "0005_old");
    a.create_migration_dependency_changes(true, &lookup);
}
