use rebase_migrations::migration::change::MigrationFileNameChange;
use rebase_migrations::migration::file::{
    MaxMigrationResult, Migration, MigrationFileName, SourceFile,
};
use rebase_migrations::migration::group::DjangoApp;
use rebase_migrations::migration::project::DjangoProject;

fn source(dependencies: &[(&str, &str)]) -> String {
    let lines = dependencies
        .iter()
        .map(|(app, name)| format!("        ('{}', '{}'),", app, name))
        .collect::<Vec<_>>()
        .join("\n");
    format!(
        "from django.db import migrations\n\nclass Migration(migrations.Migration):\n    dependencies = [\n{}\n    ]\n\n    operations = []\n",
        lines
    )
}

fn file(name: &str, dependencies: &[(&str, &str)]) -> SourceFile {
    SourceFile {
        path: format!("/p/shop/migrations/{}.py", name),
        content: source(dependencies),
    }
}

fn name(s: &str) -> MigrationFileName {
    MigrationFileName::try_from(s.to_string()).unwrap()
}

fn diamond() -> Vec<SourceFile> {
    vec![
        file("0001_initial", &[]),
        file("0002_a", &[("shop", "0001_initial")]),
        file("0002_b", &[("shop", "0001_initial"), ("auth", "0001_initial")]),
        file("0003_merge", &[("shop", "0002_a"), ("shop", "0002_b")]),
        file("0004_top", &[("shop", "0003_merge")]),
        SourceFile {
            path: "/p/shop/migrations/max_migration.txt".to_string(),
            content: "0004_top\n".to_string(),
        },
    ]
}

#[test]
fn walk_starts_at_its_migration_and_meets_each_once() {
    let files = diamond();
    let start = Migration::try_from("/p/shop/migrations/0004_top.py", &files).unwrap();
    let walked = start.walk(&files);
    let names: Vec<String> = walked.iter().map(|m| m.file_name.0.clone()).collect();
    assert_eq!(
        names,
        vec!["0004_top", "0003_merge", "0002_a", "0001_initial", "0002_b"]
    );
}

#[test]
fn iterator_yields_the_walk() {
    let files = diamond();
    let start = Migration::try_from("/p/shop/migrations/0004_top.py", &files).unwrap();
    let mut it = start.iter();
    let mut names = Vec::new();
    while let Some(m) = it.next(&files) {
        names.push(m.file_name.0.clone());
    }
    let walked: Vec<String> = start.walk(&files).iter().map(|m| m.file_name.0.clone()).collect();
    assert_eq!(names, walked);
}

#[test]
fn parsing_a_parsed_name_gives_it_back() {
    let once = MigrationFileName::try_from("0003_add_index.py".to_string()).unwrap();
    let twice = MigrationFileName::try_from(once.0.clone()).unwrap();
    assert_eq!(once, twice);
    assert_eq!(twice.0, "0003_add_index");
}

#[test]
fn numbered_name_gives_back_number_and_name() {
    for (number, descriptive) in [(0, "initial"), (9, "x"), (57, "add_field"), (9999, "last")] {
        let built = MigrationFileName::from_number_and_name(number, descriptive);
        assert_eq!(built.number(), number);
        assert_eq!(built.name(), descriptive);
    }
}

#[test]
fn last_common_migration_is_first_head_migration_on_the_walk() {
    let mut files = diamond();
    files.push(file("0004_feature", &[("shop", "0003_merge")]));
    files.push(file("0005_feature_more", &[("shop", "0004_feature")]));
    let mut app = DjangoApp::create("/p/shop", &files).unwrap();
    app.set_last_common_migration(name("0005_feature_more"), &files)
        .unwrap();
    assert_eq!(app.last_common_migration.unwrap().0, "0003_merge");
}

#[test]
fn rebased_migrations_follow_the_latest_head_migration() {
    let mut files = diamond();
    files.push(file("0002_feature", &[("shop", "0001_initial")]));
    files.push(file("0003_feature_more", &[("shop", "0002_feature")]));
    files.push(file("0001_other", &[]));
    files.retain(|f| !f.path.ends_with("max_migration.txt"));
    files.push(SourceFile {
        path: "/p/shop/migrations/max_migration.txt".to_string(),
        content: "<<<<<<< HEAD\n0004_top\n=======\n0003_feature_more\n>>>>>>> feature\n".to_string(),
    });
    let mut app = DjangoApp::create("/p/shop", &files).unwrap();
    let conflict = match &app.max_migration_result {
        MaxMigrationResult::Conflict(c) => c.clone(),
        other => panic!("unexpected {:?}", other),
    };
    app.set_last_common_migration(conflict.incoming_change.clone(), &files)
        .unwrap();
    assert_eq!(app.last_common_migration.as_ref().unwrap().0, "0001_initial");
    app.create_migration_name_changes(conflict, &files).unwrap();

    let renames: Vec<(String, String)> = app
        .rebased_migrations
        .iter()
        .map(|m| {
            let c = m.name_change.as_ref().unwrap();
            (c.old_name.0.clone(), c.new_name.0.clone())
        })
        .collect();
    assert_eq!(
        renames,
        vec![
            ("0002_feature".to_string(), "0005_feature".to_string()),
            ("0003_feature_more".to_string(), "0006_feature_more".to_string()),
        ]
    );
    assert!(app.rebased_migrations.iter().all(|m| m.from_rebased_branch));
    match &app.max_migration_result {
        MaxMigrationResult::Found(f) => {
            assert_eq!(f.current_content.0, "0004_top");
            assert_eq!(f.new_content.as_ref().unwrap().0, "0006_feature_more");
        }
        other => panic!("unexpected {:?}", other),
    }

    let lookup = vec![(
        "shop".to_string(),
        app.rebased_migrations
            .iter()
            .map(|m| m.name_change.clone().unwrap())
            .collect::<Vec<MigrationFileNameChange>>(),
    )];
    let before: Vec<(String, String)> = app
        .rebased_migrations
        .iter()
        .map(|m| (m.file_name.0.clone(), m.file_path.clone()))
        .collect();
    app.create_migration_dependency_changes(true, &lookup);
    let after: Vec<(String, String)> = app
        .rebased_migrations
        .iter()
        .map(|m| (m.file_name.0.clone(), m.file_path.clone()))
        .collect();
    assert_eq!(before, after);

    let first = &app.rebased_migrations[0];
    let change = first.dependency_change.as_ref().unwrap();
    assert_eq!(change.old_dependencies[0].migration_file.0, "0001_initial");
    assert_eq!(change.new_dependencies[0].migration_file.0, "0004_top");
    let second = &app.rebased_migrations[1];
    let change = second.dependency_change.as_ref().unwrap();
    assert_eq!(change.new_dependencies[0].migration_file.0, "0005_feature");
}

#[test]
fn renumbering_past_four_digits_is_refused() {
    let files = vec![
        file("0001_initial", &[]),
        file("9999_top", &[("shop", "0001_initial")]),
        file("0002_feature", &[("shop", "0001_initial")]),
        SourceFile {
            path: "/p/shop/migrations/max_migration.txt".to_string(),
            content: "<<<<<<< HEAD\n9999_top\n=======\n0002_feature\n>>>>>>> feature\n".to_string(),
        },
    ];
    let mut app = DjangoApp::create("/p/shop", &files).unwrap();
    let conflict = match &app.max_migration_result {
        MaxMigrationResult::Conflict(c) => c.clone(),
        other => panic!("unexpected {:?}", other),
    };
    app.set_last_common_migration(conflict.incoming_change.clone(), &files)
        .unwrap();
    let result = app.create_migration_name_changes(conflict, &files);
    assert_eq!(
        result.unwrap_err(),
        "Migration 0002_feature cannot be renumbered past 9999"
    );
    assert!(app.rebased_migrations.is_empty());
}

#[test]
fn nothing_planned_touches_no_file() {
    let files = diamond();
    let app = DjangoApp::create("/p/shop", &files).unwrap();
    let rename = |_: String, _: String| -> Result<(), String> { panic!("no rename expected") };
    let read = |_: String| -> Result<String, String> { panic!("no read expected") };
    let write = |_: String, _: String| -> Result<(), String> { panic!("no write expected") };
    assert!(app.apply_changes(&rename, &read, &write).is_ok());
}

#[test]
fn first_failing_change_stops_the_rest() {
    let mut files = diamond();
    files.push(file("0002_feature", &[("shop", "0001_initial")]));
    files.retain(|f| !f.path.ends_with("max_migration.txt"));
    files.push(SourceFile {
        path: "/p/shop/migrations/max_migration.txt".to_string(),
        content: "<<<<<<< HEAD\n0004_top\n=======\n0002_feature\n>>>>>>> feature\n".to_string(),
    });
    let mut app = DjangoApp::create("/p/shop", &files).unwrap();
    let conflict = match &app.max_migration_result {
        MaxMigrationResult::Conflict(c) => c.clone(),
        other => panic!("unexpected {:?}", other),
    };
    app.set_last_common_migration(conflict.incoming_change.clone(), &files)
        .unwrap();
    app.create_migration_name_changes(conflict, &files).unwrap();
    let rename = |_: String, _: String| -> Result<(), String> { Err("disk full".to_string()) };
    let read = |_: String| -> Result<String, String> { panic!("no read expected") };
    let write = |_: String, _: String| -> Result<(), String> { panic!("no write expected") };
    assert_eq!(
        app.apply_changes(&rename, &read, &write).unwrap_err(),
        "Failed to rename file: disk full"
    );
}

#[test]
fn readme_example_renumbers_after_the_latest_migration() {
    let files = vec![
        file("0001_initial", &[]),
        file("0010_existing", &[("shop", "0001_initial")]),
        file("0008_new_feature", &[("shop", "0001_initial")]),
        file("0009_another", &[("shop", "0008_new_feature")]),
        SourceFile {
            path: "/p/shop/migrations/max_migration.txt".to_string(),
            content: "<<<<<<< HEAD\n0010_existing\n=======\n0009_another\n>>>>>>> feature\n"
                .to_string(),
        },
    ];
    let mut app = DjangoApp::create("/p/shop", &files).unwrap();
    let conflict = match &app.max_migration_result {
        MaxMigrationResult::Conflict(c) => c.clone(),
        other => panic!("unexpected {:?}", other),
    };
    app.set_last_common_migration(conflict.incoming_change.clone(), &files)
        .unwrap();
    app.create_migration_name_changes(conflict, &files).unwrap();
    let renames: Vec<(String, String)> = app
        .rebased_migrations
        .iter()
        .map(|m| {
            let c = m.name_change.as_ref().unwrap();
            (c.old_name.0.clone(), c.new_name.0.clone())
        })
        .collect();
    assert_eq!(
        renames,
        vec![
            ("0008_new_feature".to_string(), "0011_new_feature".to_string()),
            ("0009_another".to_string(), "0012_another".to_string()),
        ]
    );
}

#[test]
fn changes_are_reported_once_planned() {
    let files = vec![
        file("0001_initial", &[]),
        file("0010_existing", &[("shop", "0001_initial")]),
        file("0008_new_feature", &[("shop", "0001_initial")]),
        SourceFile {
            path: "/p/shop/migrations/max_migration.txt".to_string(),
            content: "<<<<<<< HEAD\n0010_existing\n=======\n0008_new_feature\n>>>>>>> feature\n"
                .to_string(),
        },
    ];
    let mut app = DjangoApp::create("/p/shop", &files).unwrap();
    assert!(!app.has_migration_changes());
    assert!(!app.has_max_migration_change());
    let conflict = match &app.max_migration_result {
        MaxMigrationResult::Conflict(c) => c.clone(),
        other => panic!("unexpected {:?}", other),
    };
    app.set_last_common_migration(conflict.incoming_change.clone(), &files)
        .unwrap();
    app.create_migration_name_changes(conflict, &files).unwrap();
    assert!(app.has_migration_changes());
    assert!(app.has_max_migration_change());
    let project = DjangoProject {
        apps: vec![("shop".to_string(), app)],
    };
    assert!(project.has_max_migration_changes());
    let empty = DjangoProject { apps: vec![] };
    assert!(!empty.has_max_migration_changes());
}

#[test]
fn max_migration_file_is_loaded_by_its_content() {
    let dir = "/p/shop/migrations";
    let missing = DjangoApp::load_max_migration_file(dir, &vec![]);
    assert!(matches!(missing, MaxMigrationResult::NotFound));
    let found = DjangoApp::load_max_migration_file(
        dir,
        &vec![SourceFile {
            path: "/p/shop/migrations/max_migration.txt".to_string(),
            content: "  0004_top\n".to_string(),
        }],
    );
    match found {
        MaxMigrationResult::Found(f) => {
            assert_eq!(f.current_content.0, "0004_top");
            assert!(f.new_content.is_none());
        }
        other => panic!("unexpected {:?}", other),
    }
    let conflict = DjangoApp::load_max_migration_file(
        dir,
        &vec![SourceFile {
            path: "/p/shop/migrations/max_migration.txt".to_string(),
            content: "<<<<<<< HEAD\n0004_top\n=======\n0003_feature\n>>>>>>> feature\n".to_string(),
        }],
    );
    match conflict {
        MaxMigrationResult::Conflict(c) => {
            assert_eq!(c.head.0, "0004_top");
            assert_eq!(c.incoming_change.0, "0003_feature");
        }
        other => panic!("unexpected {:?}", other),
    }
    let empty = DjangoApp::load_max_migration_file(
        dir,
        &vec![SourceFile {
            path: "/p/shop/migrations/max_migration.txt".to_string(),
            content: "\n".to_string(),
        }],
    );
    assert!(matches!(empty, MaxMigrationResult::NotFound));
}

#[test]
fn created_app_holds_one_head_migration_per_file() {
    let files = diamond();
    let app = DjangoApp::create("/p/shop", &files).unwrap();
    let mut paths: Vec<String> = app.head_migrations.iter().map(|m| m.file_path.clone()).collect();
    let n = paths.len();
    paths.sort();
    paths.dedup();
    assert_eq!(paths.len(), n);
    assert_eq!(n, 5);
}
