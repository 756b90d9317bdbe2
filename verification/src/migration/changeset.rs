//! The changes planned for an app or a project, as a summary that can be
//! shown or written as JSON.

use vstd::prelude::*;
use vstd::string::*;
use crate::json::{
    items_view, json_string, members_view, optional_member, pretty_json, push_item, push_member,
    to_json_text, JsonValue, JsonView,
};
use crate::migration::change::{MigrationDependencyChange, MigrationFileNameChange};
use crate::migration::file::{
    dependencies_view, duplicate_dependencies, MaxMigrationResult, MaxMigrationView, Migration,
    MigrationDependency, MigrationFileName, MigrationView,
};
use crate::migration::group::{app_name_of, has_app_name, name_view, AppView, DjangoApp};
use crate::migration::project::{keys_distinct, lemma_same_keys_distinct, DjangoProject, ProjectView};

verus! {

/// What a migration's planned changes are: its name, its rename and its
/// new dependencies, where there are any.
pub struct MigrationChangeView {
    pub migration_file_name: Seq<char>,
    pub file_rename: Option<(Seq<char>, Seq<char>)>,
    pub dependency_updates: Option<(Seq<(Seq<char>, Seq<char>)>, Seq<(Seq<char>, Seq<char>)>)>,
}

/// The changes planned for one migration.
#[derive(Debug, Clone)]
pub struct MigrationChangeSet {
    pub migration_file_name: MigrationFileName,
    pub file_rename: Option<MigrationFileNameChange>,
    pub dependency_updates: Option<MigrationDependencyChange>,
}

impl View for MigrationChangeSet {
    type V = MigrationChangeView;

    open spec fn view(&self) -> MigrationChangeView {
        MigrationChangeView {
            migration_file_name: self.migration_file_name@,
            file_rename: match &self.file_rename {
                Some(c) => Some((c.old_name@, c.new_name@)),
                None => None,
            },
            dependency_updates: match &self.dependency_updates {
                Some(c) => Some((dependencies_view(c.old_dependencies@), dependencies_view(c.new_dependencies@))),
                None => None,
            },
        }
    }
}

/// A migration has a rename or new dependencies planned.
pub open spec fn has_changes(m: MigrationView) -> bool {
    m.name_change is Some || m.dependency_change is Some
}

/// The planned changes of a migration.
pub open spec fn change_of(m: MigrationView) -> MigrationChangeView {
    MigrationChangeView {
        migration_file_name: m.file_name,
        file_rename: m.name_change,
        dependency_updates: m.dependency_change,
    }
}

impl MigrationChangeSet {
    /// The changes planned for `migration`; a migration without any is
    /// refused.
    pub fn try_from(migration: &Migration) -> (r: Result<MigrationChangeSet, String>)
        ensures
            match r {
                Ok(c) => has_changes(migration@) && c@ == change_of(migration@),
                Err(e) => !has_changes(migration@) && e@ == "Migration has no changes"@,
            },
    {
        if migration.name_change.is_none() && migration.dependency_change.is_none() {
            return Err(String::from_str("Migration has no changes"));
        }
        Ok(
            MigrationChangeSet {
                migration_file_name: migration.file_name.duplicate(),
                file_rename: match &migration.name_change {
                    Some(c) => Some(c.duplicate()),
                    None => None,
                },
                dependency_updates: match &migration.dependency_change {
                    Some(c) => Some(c.duplicate()),
                    None => None,
                },
            },
        )
    }
}

/// The change of `max_migration.txt`.
#[derive(Debug, Clone)]
pub struct MaxMigrationChangeSet {
    pub old: MigrationFileName,
    pub new: MigrationFileName,
}

/// What the changes planned for an app are: its name, the last migration
/// that both branches share, the changes of each migration that has any,
/// and the change of `max_migration.txt`.
pub struct AppChangeView {
    pub app_name: Seq<char>,
    pub last_common_migration: Option<Seq<char>>,
    pub migration_changes: Seq<MigrationChangeView>,
    pub max_migration_update: Option<(Seq<char>, Seq<char>)>,
}

/// The changes planned for an app.
#[derive(Debug, Clone)]
pub struct AppChangeSet {
    pub app_name: String,
    pub last_common_migration: Option<MigrationFileName>,
    pub migration_changes: Vec<MigrationChangeSet>,
    pub max_migration_update: Option<MaxMigrationChangeSet>,
}

/// The views of a list of migration changes.
pub open spec fn changes_view(v: Seq<MigrationChangeSet>) -> Seq<MigrationChangeView> {
    v.map_values(|c: MigrationChangeSet| c@)
}

impl View for AppChangeSet {
    type V = AppChangeView;

    open spec fn view(&self) -> AppChangeView {
        AppChangeView {
            app_name: self.app_name@,
            last_common_migration: name_view(self.last_common_migration),
            migration_changes: changes_view(self.migration_changes@),
            max_migration_update: match &self.max_migration_update {
                Some(m) => Some((m.old@, m.new@)),
                None => None,
            },
        }
    }
}

/// The changes of the migrations of `ms` that have any, in their order.
pub open spec fn migration_changes_of(ms: Seq<MigrationView>) -> Seq<MigrationChangeView>
    decreases ms.len(),
{
    if ms.len() == 0 {
        Seq::empty()
    } else {
        let rest = migration_changes_of(ms.drop_last());
        if has_changes(ms.last()) {
            rest.push(change_of(ms.last()))
        } else {
            rest
        }
    }
}

/// The change of `max_migration.txt` that is planned: from the latest
/// migration it holds to its replacement.
pub open spec fn max_update_of(max: MaxMigrationView) -> Option<(Seq<char>, Seq<char>)> {
    match max {
        MaxMigrationView::Found(current, Some(new)) => Some((current, new)),
        _ => None,
    }
}

/// The changes planned for app `a`: those of its HEAD migrations, then
/// those of its rebased migrations.
pub open spec fn app_changes(a: AppView) -> AppChangeView {
    AppChangeView {
        app_name: app_name_of(a.directory),
        last_common_migration: a.last_common,
        migration_changes: migration_changes_of(a.heads + a.rebased),
        max_migration_update: max_update_of(a.max),
    }
}

/// The changes of the migrations of `a + b` are those of `a`, then those
/// of `b`.
pub proof fn lemma_changes_append(a: Seq<MigrationView>, b: Seq<MigrationView>)
    ensures
        migration_changes_of(a + b) == migration_changes_of(a) + migration_changes_of(b),
    decreases b.len(),
{
    if b.len() == 0 {
        assert(a + b =~= a);
        assert(migration_changes_of(a) + Seq::<MigrationChangeView>::empty() =~= migration_changes_of(a));
    } else {
        assert((a + b).drop_last() =~= a + b.drop_last());
        assert((a + b).last() == b.last());
        lemma_changes_append(a, b.drop_last());
        if has_changes(b.last()) {
            assert(migration_changes_of(a) + migration_changes_of(b.drop_last()).push(change_of(b.last()))
                =~= (migration_changes_of(a) + migration_changes_of(b.drop_last())).push(change_of(b.last())));
        }
    }
}

/// Adds the changes of the migrations of `ms` that have any.
fn collect_changes(out: &mut Vec<MigrationChangeSet>, ms: &Vec<Migration>)
    ensures
        changes_view(final(out)@) == changes_view(old(out)@) + migration_changes_of(
            crate::migration::file::migrations_view(ms@),
        ),
{
    let ghost start = changes_view(out@);
    let ghost v = crate::migration::file::migrations_view(ms@);
    let mut i: usize = 0;
    assert(v.take(0) =~= Seq::<MigrationView>::empty());
    assert(start + Seq::<MigrationChangeView>::empty() =~= start);
    while i < ms.len()
        invariant
            i <= ms.len(),
            v == crate::migration::file::migrations_view(ms@),
            changes_view(out@) == start + migration_changes_of(v.take(i as int)),
        decreases ms.len() - i,
    {
        proof {
            assert(v.take(i + 1).drop_last() =~= v.take(i as int));
            assert(v.take(i + 1).last() == ms@[i as int]@);
        }
        let ghost before = changes_view(out@);
        match MigrationChangeSet::try_from(&ms[i]) {
            Ok(c) => {
                out.push(c);
                assert(changes_view(out@) =~= before.push(c@));
                assert(start + migration_changes_of(v.take(i as int)).push(c@) =~= (start + migration_changes_of(
                    v.take(i as int),
                )).push(c@));
            },
            Err(_) => {},
        }
        i = i + 1;
    }
    assert(v.take(ms.len() as int) =~= v);
}

impl AppChangeSet {
    /// The changes planned for `app`: those of its HEAD migrations that
    /// have any, then those of its rebased migrations, and the change of
    /// `max_migration.txt` where one is planned.
    pub fn from(app: &DjangoApp) -> (r: AppChangeSet)
        requires
            has_app_name(app.directory@),
        ensures
            r@ == app_changes(app@),
    {
        let mut migration_changes: Vec<MigrationChangeSet> = Vec::new();
        collect_changes(&mut migration_changes, &app.head_migrations);
        collect_changes(&mut migration_changes, &app.rebased_migrations);
        proof {
            lemma_changes_append(app@.heads, app@.rebased);
            assert(Seq::<MigrationChangeView>::empty() + migration_changes_of(app@.heads) =~= migration_changes_of(
                app@.heads,
            ));
        }
        let max_migration_update = match &app.max_migration_result {
            MaxMigrationResult::Found(max_file) => match &max_file.new_content {
                Some(new_content) => Some(
                    MaxMigrationChangeSet { old: max_file.current_content.duplicate(), new: new_content.duplicate() },
                ),
                None => None,
            },
            _ => None,
        };
        AppChangeSet {
            app_name: app.get_app_name(),
            last_common_migration: match &app.last_common_migration {
                Some(n) => Some(n.duplicate()),
                None => None,
            },
            migration_changes,
            max_migration_update,
        }
    }
}

/// A rename as JSON: its old and its new name.
pub open spec fn rename_json(c: (Seq<char>, Seq<char>)) -> JsonView {
    JsonView::Object(seq![("old_name"@, JsonView::Str(c.0)), ("new_name"@, JsonView::Str(c.1))])
}

/// A dependency as JSON: its app and its migration.
pub open spec fn dependency_json(d: (Seq<char>, Seq<char>)) -> JsonView {
    JsonView::Object(seq![("app"@, JsonView::Str(d.0)), ("migration_file"@, JsonView::Str(d.1))])
}

/// A list of dependencies as a JSON array.
pub open spec fn dependencies_json(ds: Seq<(Seq<char>, Seq<char>)>) -> JsonView {
    JsonView::Array(ds.map_values(|d: (Seq<char>, Seq<char>)| dependency_json(d)))
}

/// A change of dependencies as JSON: the old and the new ones.
pub open spec fn dependency_change_json(
    c: (Seq<(Seq<char>, Seq<char>)>, Seq<(Seq<char>, Seq<char>)>),
) -> JsonView {
    JsonView::Object(seq![("old_dependencies"@, dependencies_json(c.0)), ("new_dependencies"@, dependencies_json(c.1))])
}

/// The JSON of a rename, where there is one.
pub open spec fn optional_rename_json(c: Option<(Seq<char>, Seq<char>)>) -> Option<JsonView> {
    match c {
        Some(r) => Some(rename_json(r)),
        None => None,
    }
}

/// The JSON of a change of dependencies, where there is one.
pub open spec fn optional_dependency_change_json(
    c: Option<(Seq<(Seq<char>, Seq<char>)>, Seq<(Seq<char>, Seq<char>)>)>,
) -> Option<JsonView> {
    match c {
        Some(d) => Some(dependency_change_json(d)),
        None => None,
    }
}

/// The changes of a migration as JSON, under `name_key` for its name; the
/// rename and the dependency update only where there are any.
pub open spec fn migration_change_json(c: MigrationChangeView, name_key: Seq<char>) -> JsonView {
    JsonView::Object(
        seq![(name_key, JsonView::Str(c.migration_file_name))] + optional_member(
            "file_rename"@,
            optional_rename_json(c.file_rename),
        ) + optional_member("dependency_updates"@, optional_dependency_change_json(c.dependency_updates)),
    )
}

/// The change of `max_migration.txt` as JSON: the old and the new name.
pub open spec fn max_change_json(c: (Seq<char>, Seq<char>)) -> JsonView {
    JsonView::Object(seq![("old"@, JsonView::Str(c.0)), ("new"@, JsonView::Str(c.1))])
}

/// The JSON of a change of `max_migration.txt`, where there is one.
pub open spec fn optional_max_change_json(c: Option<(Seq<char>, Seq<char>)>) -> Option<JsonView> {
    match c {
        Some(m) => Some(max_change_json(m)),
        None => None,
    }
}

/// The list of migration changes as a member, left out where it is empty.
pub open spec fn changes_member(cs: Seq<MigrationChangeView>, name_key: Seq<char>) -> Seq<(Seq<char>, JsonView)> {
    if cs.len() == 0 {
        Seq::empty()
    } else {
        seq![
            (
                "migration_changes"@,
                JsonView::Array(cs.map_values(|c: MigrationChangeView| migration_change_json(c, name_key))),
            ),
        ]
    }
}

/// The changes of an app as JSON: its name, the last common migration, the
/// migration changes and the change of `max_migration.txt`, each left out
/// where there is none.
pub open spec fn app_changes_json(a: AppChangeView) -> JsonView {
    JsonView::Object(
        seq![("app_name"@, JsonView::Str(a.app_name))] + optional_member(
            "last_common_migration"@,
            match a.last_common_migration {
                Some(n) => Some(JsonView::Str(n)),
                None => None,
            },
        ) + changes_member(a.migration_changes, "migration_file_name"@) + optional_member(
            "max_migration_update"@,
            optional_max_change_json(a.max_migration_update),
        ),
    )
}

/// A rename as JSON.
fn rename_value(c: &MigrationFileNameChange) -> (r: JsonValue)
    ensures
        r@ == rename_json((c.old_name@, c.new_name@)),
{
    let mut members: Vec<(String, JsonValue)> = Vec::new();
    push_member(&mut members, "old_name", json_string(c.old_name.0.as_str()));
    push_member(&mut members, "new_name", json_string(c.new_name.0.as_str()));
    let r = JsonValue::Object(members);
    assert(r@ == JsonView::Object(members_view(members@)));
    assert(members_view(members@) =~= seq![("old_name"@, JsonView::Str(c.old_name@)), ("new_name"@, JsonView::Str(c.new_name@))]);
    r
}

/// A dependency as JSON.
fn dependency_value(d: &MigrationDependency) -> (r: JsonValue)
    ensures
        r@ == dependency_json(d@),
{
    let mut members: Vec<(String, JsonValue)> = Vec::new();
    push_member(&mut members, "app", json_string(d.app.as_str()));
    push_member(&mut members, "migration_file", json_string(d.migration_file.0.as_str()));
    let r = JsonValue::Object(members);
    assert(members_view(members@) =~= seq![("app"@, JsonView::Str(d.app@)), ("migration_file"@, JsonView::Str(d.migration_file@))]);
    r
}

/// A list of dependencies as a JSON array.
fn dependencies_value(ds: &Vec<MigrationDependency>) -> (r: JsonValue)
    ensures
        r@ == dependencies_json(dependencies_view(ds@)),
{
    let ghost v = dependencies_view(ds@);
    let mut items: Vec<JsonValue> = Vec::new();
    let mut i: usize = 0;
    while i < ds.len()
        invariant
            i <= ds.len(),
            v == dependencies_view(ds@),
            items_view(items@) =~= v.take(i as int).map_values(|d: (Seq<char>, Seq<char>)| dependency_json(d)),
        decreases ds.len() - i,
    {
        let x = dependency_value(&ds[i]);
        push_item(&mut items, x);
        assert(v[i as int] == ds@[i as int]@);
        i = i + 1;
    }
    assert(v.take(ds.len() as int) =~= v);
    JsonValue::Array(items)
}

/// A change of dependencies as JSON.
fn dependency_change_value(c: &MigrationDependencyChange) -> (r: JsonValue)
    ensures
        r@ == dependency_change_json((dependencies_view(c.old_dependencies@), dependencies_view(c.new_dependencies@))),
{
    let mut members: Vec<(String, JsonValue)> = Vec::new();
    push_member(&mut members, "old_dependencies", dependencies_value(&c.old_dependencies));
    push_member(&mut members, "new_dependencies", dependencies_value(&c.new_dependencies));
    let r = JsonValue::Object(members);
    assert(members_view(members@) =~= seq![
        ("old_dependencies"@, dependencies_json(dependencies_view(c.old_dependencies@))),
        ("new_dependencies"@, dependencies_json(dependencies_view(c.new_dependencies@))),
    ]);
    r
}

/// The changes of a migration as JSON, with its name under `name_key`.
pub fn migration_change_value(
    name_key: &str,
    name: &MigrationFileName,
    file_rename: &Option<MigrationFileNameChange>,
    dependency_updates: &Option<MigrationDependencyChange>,
) -> (r: JsonValue)
    ensures
        r@ == migration_change_json(
            MigrationChangeView {
                migration_file_name: name@,
                file_rename: match file_rename {
                    Some(c) => Some((c.old_name@, c.new_name@)),
                    None => None,
                },
                dependency_updates: match dependency_updates {
                    Some(c) => Some((dependencies_view(c.old_dependencies@), dependencies_view(c.new_dependencies@))),
                    None => None,
                },
            },
            name_key@,
        ),
{
    let mut members: Vec<(String, JsonValue)> = Vec::new();
    push_member(&mut members, name_key, json_string(name.0.as_str()));
    let ghost first = members_view(members@);
    match file_rename {
        Some(c) => push_member(&mut members, "file_rename", rename_value(c)),
        None => {},
    }
    let ghost second = members_view(members@);
    match dependency_updates {
        Some(c) => push_member(&mut members, "dependency_updates", dependency_change_value(c)),
        None => {},
    }
    let ghost rename_part = optional_member(
        "file_rename"@,
        optional_rename_json(
            match file_rename {
                Some(c) => Some((c.old_name@, c.new_name@)),
                None => None,
            },
        ),
    );
    let ghost deps_part = optional_member(
        "dependency_updates"@,
        optional_dependency_change_json(
            match dependency_updates {
                Some(c) => Some((dependencies_view(c.old_dependencies@), dependencies_view(c.new_dependencies@))),
                None => None,
            },
        ),
    );
    assert(second =~= first + rename_part);
    assert(members_view(members@) =~= first + rename_part + deps_part);
    JsonValue::Object(members)
}

impl MigrationChangeSet {
    /// The changes as JSON.
    pub fn json_value(&self) -> (r: JsonValue)
        ensures
            r@ == migration_change_json(self@, "migration_file_name"@),
    {
        migration_change_value("migration_file_name", &self.migration_file_name, &self.file_rename, &self.dependency_updates)
    }
}

impl MaxMigrationChangeSet {
    /// The change as JSON.
    pub fn json_value(&self) -> (r: JsonValue)
        ensures
            r@ == max_change_json((self.old@, self.new@)),
    {
        let mut members: Vec<(String, JsonValue)> = Vec::new();
        push_member(&mut members, "old", json_string(self.old.0.as_str()));
        push_member(&mut members, "new", json_string(self.new.0.as_str()));
        assert(members_view(members@) =~= seq![("old"@, JsonView::Str(self.old@)), ("new"@, JsonView::Str(self.new@))]);
        JsonValue::Object(members)
    }
}

impl AppChangeSet {
    /// The changes as JSON.
    pub fn json_value(&self) -> (r: JsonValue)
        ensures
            r@ == app_changes_json(self@),
    {
        let mut members: Vec<(String, JsonValue)> = Vec::new();
        push_member(&mut members, "app_name", json_string(self.app_name.as_str()));
        let ghost p0 = members_view(members@);
        match &self.last_common_migration {
            Some(n) => push_member(&mut members, "last_common_migration", json_string(n.0.as_str())),
            None => {},
        }
        let ghost p1 = members_view(members@);
        let ghost cs = changes_view(self.migration_changes@);
        if self.migration_changes.len() > 0 {
            let mut items: Vec<JsonValue> = Vec::new();
            let mut i: usize = 0;
            while i < self.migration_changes.len()
                invariant
                    i <= self.migration_changes.len(),
                    cs == changes_view(self.migration_changes@),
                    items_view(items@) =~= cs.take(i as int).map_values(
                        |c: MigrationChangeView| migration_change_json(c, "migration_file_name"@),
                    ),
                decreases self.migration_changes.len() - i,
            {
                let x = self.migration_changes[i].json_value();
                push_item(&mut items, x);
                assert(cs[i as int] == self.migration_changes@[i as int]@);
                i = i + 1;
            }
            assert(cs.take(self.migration_changes.len() as int) =~= cs);
            push_member(&mut members, "migration_changes", JsonValue::Array(items));
        }
        let ghost p2 = members_view(members@);
        match &self.max_migration_update {
            Some(m) => push_member(&mut members, "max_migration_update", m.json_value()),
            None => {},
        }
        proof {
            let lc = optional_member(
                "last_common_migration"@,
                match self@.last_common_migration {
                    Some(n) => Some(JsonView::Str(n)),
                    None => None,
                },
            );
            assert(p1 =~= p0 + lc);
            assert(p2 =~= p0 + lc + changes_member(cs, "migration_file_name"@));
            assert(members_view(members@) =~= p0 + lc + changes_member(cs, "migration_file_name"@) + optional_member(
                "max_migration_update"@,
                optional_max_change_json(self@.max_migration_update),
            ));
        }
        JsonValue::Object(members)
    }

    /// The changes as pretty-printed JSON.
    pub fn to_json(&self) -> (r: Result<String, String>)
        ensures
            r matches Ok(t) && t@ == pretty_json(app_changes_json(self@)),
    {
        to_json_text(&self.json_value())
    }
}

/// What the changes planned for a project are: each app's changes under
/// its name.
pub type ProjectChangeView = Seq<(Seq<char>, AppChangeView)>;

/// The changes planned for a project.
#[derive(Debug, Clone)]
pub struct ProjectChangeSet {
    /// The changes of each app, under its name.
    pub apps: Vec<(String, AppChangeSet)>,
}

impl View for ProjectChangeSet {
    type V = ProjectChangeView;

    open spec fn view(&self) -> ProjectChangeView {
        self.apps@.map_values(|e: (String, AppChangeSet)| (e.0@, e.1@))
    }
}

/// The changes planned for each app of a project, under its name.
pub open spec fn project_changes(apps: ProjectView) -> ProjectChangeView {
    apps.map_values(|e: (Seq<char>, AppView)| (e.0, app_changes(e.1)))
}

/// The changes of a project as JSON: an object with each app's changes
/// under its name.
pub open spec fn project_changes_json(p: ProjectChangeView) -> JsonView {
    JsonView::Object(
        seq![
            (
                "apps"@,
                JsonView::Object(p.map_values(|e: (Seq<char>, AppChangeView)| (e.0, app_changes_json(e.1)))),
            ),
        ],
    )
}

impl ProjectChangeSet {
    /// The changes planned for each app of `project`, under its name.
    pub fn from(project: &DjangoProject) -> (r: ProjectChangeSet)
        requires
            forall|i: int| 0 <= i < project@.len() ==> has_app_name(#[trigger] project@[i].1.directory),
        ensures
            r@ == project_changes(project@),
            keys_distinct(project@) ==> keys_distinct(r@),
    {
        let ghost v = project@;
        let mut apps: Vec<(String, AppChangeSet)> = Vec::new();
        let mut i: usize = 0;
        while i < project.apps.len()
            invariant
                i <= project.apps@.len(),
                v == project@,
                forall|i: int| 0 <= i < v.len() ==> has_app_name(#[trigger] v[i].1.directory),
                apps@.map_values(|e: (String, AppChangeSet)| (e.0@, e.1@)) =~= project_changes(v.take(i as int)),
            decreases project.apps@.len() - i,
        {
            let entry = &project.apps[i];
            assert(v[i as int] == (entry.0@, entry.1@));
            assert(has_app_name(v[i as int].1.directory));
            let changeset = AppChangeSet::from(&entry.1);
            let ghost before = apps@.map_values(|e: (String, AppChangeSet)| (e.0@, e.1@));
            let name = entry.0.clone();
            assert(name@ == entry.0@);
            apps.push((name, changeset));
            assert(apps@.map_values(|e: (String, AppChangeSet)| (e.0@, e.1@)) =~= before.push(
                (entry.0@, app_changes(entry.1@)),
            ));
            assert(v.take(i + 1) =~= v.take(i as int).push(v[i as int]));
            assert(project_changes(v.take(i + 1)) =~= project_changes(v.take(i as int)).push(
                (entry.0@, app_changes(entry.1@)),
            ));
            i = i + 1;
        }
        assert(v.take(project.apps@.len() as int) =~= v);
        let r = ProjectChangeSet { apps };
        proof {
            if keys_distinct(v) {
                lemma_same_keys_distinct(v, r@);
            }
        }
        r
    }

    /// The changes as JSON.
    pub fn json_value(&self) -> (r: JsonValue)
        ensures
            r@ == project_changes_json(self@),
    {
        let ghost v = self@;
        let mut members: Vec<(String, JsonValue)> = Vec::new();
        let mut i: usize = 0;
        while i < self.apps.len()
            invariant
                i <= self.apps@.len(),
                v == self@,
                members_view(members@) =~= v.take(i as int).map_values(
                    |e: (Seq<char>, AppChangeView)| (e.0, app_changes_json(e.1)),
                ),
            decreases self.apps@.len() - i,
        {
            let entry = &self.apps[i];
            assert(v[i as int] == (entry.0@, entry.1@));
            push_member(&mut members, entry.0.as_str(), entry.1.json_value());
            i = i + 1;
        }
        assert(v.take(self.apps@.len() as int) =~= v);
        let mut outer: Vec<(String, JsonValue)> = Vec::new();
        push_member(&mut outer, "apps", JsonValue::Object(members));
        assert(members_view(outer@) =~= seq![
            (
                "apps"@,
                JsonView::Object(v.map_values(|e: (Seq<char>, AppChangeView)| (e.0, app_changes_json(e.1)))),
            ),
        ]);
        JsonValue::Object(outer)
    }

    /// The changes as pretty-printed JSON.
    pub fn to_json(&self) -> (r: Result<String, String>)
        ensures
            r matches Ok(t) && t@ == pretty_json(project_changes_json(self@)),
    {
        to_json_text(&self.json_value())
    }
}

/// Some migration of `ms` has a rename or new dependencies planned.
pub open spec fn any_changes(ms: Seq<MigrationView>) -> bool {
    exists|i: int| 0 <= i < ms.len() && has_changes(#[trigger] ms[i])
}

/// Whether some migration of `ms` has a rename or new dependencies planned.
fn any_migration_changes(ms: &Vec<Migration>) -> (r: bool)
    ensures
        r == any_changes(crate::migration::file::migrations_view(ms@)),
{
    let ghost v = crate::migration::file::migrations_view(ms@);
    let mut i: usize = 0;
    while i < ms.len()
        invariant
            i <= ms.len(),
            v == crate::migration::file::migrations_view(ms@),
            forall|j: int| 0 <= j < i ==> !has_changes(#[trigger] v[j]),
        decreases ms.len() - i,
    {
        assert(v[i as int] == ms@[i as int]@);
        if ms[i].name_change.is_some() || ms[i].dependency_change.is_some() {
            assert(has_changes(v[i as int]));
            return true;
        }
        i = i + 1;
    }
    false
}

impl DjangoApp {
    /// Whether a rename or new dependencies are planned for any migration
    /// of the app, HEAD or rebased: then its migration changes are shown.
    pub fn has_migration_changes(&self) -> (r: bool)
        ensures
            r == (any_changes(self@.heads) || any_changes(self@.rebased)),
    {
        any_migration_changes(&self.head_migrations) || any_migration_changes(&self.rebased_migrations)
    }

    /// Whether a new content is planned for the app's `max_migration.txt`.
    pub fn has_max_migration_change(&self) -> (r: bool)
        ensures
            r == (max_update_of(self@.max) is Some),
    {
        match &self.max_migration_result {
            MaxMigrationResult::Found(f) => f.new_content.is_some(),
            _ => false,
        }
    }
}

impl DjangoProject {
    /// Whether any app of the project has a new content planned for its
    /// `max_migration.txt`: then the table of those changes is shown.
    pub fn has_max_migration_changes(&self) -> (r: bool)
        ensures
            r == exists|i: int| 0 <= i < self@.len() && max_update_of(#[trigger] self@[i].1.max) is Some,
    {
        let mut i: usize = 0;
        while i < self.apps.len()
            invariant
                i <= self.apps.len(),
                forall|j: int| 0 <= j < i ==> !(max_update_of(#[trigger] self@[j].1.max) is Some),
            decreases self.apps.len() - i,
        {
            assert(self@[i as int].1 == self.apps@[i as int].1@);
            if self.apps[i].1.has_max_migration_change() {
                return true;
            }
            i = i + 1;
        }
        false
    }
}

} // verus!
