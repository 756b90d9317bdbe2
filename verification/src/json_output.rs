//! The planned changes written as JSON for a dry run.

use vstd::prelude::*;
use vstd::string::*;
use crate::json::{
    items_view, json_string, members_view, optional_member, pretty_json, push_item, push_member,
    to_json_text, JsonValue, JsonView,
};
use crate::migration::change::{MigrationDependencyChange, MigrationFileNameChange};
use crate::migration::changeset::{
    change_of, changes_member, has_changes, max_update_of, migration_change_json, migration_change_value,
    migration_changes_of, optional_max_change_json, MigrationChangeView,
};
use crate::migration::file::{dependencies_view, migrations_view, MaxMigrationResult, Migration, MigrationFileName, MigrationView};
use crate::migration::group::{AppView, DjangoApp};
use crate::migration::project::{keys_distinct, DjangoProject, ProjectView};

verus! {

/// The changes of one migration, under its name.
#[derive(Debug)]
pub struct JsonMigrationChange {
    pub migration: String,
    pub file_rename: Option<MigrationFileNameChange>,
    pub dependency_updates: Option<MigrationDependencyChange>,
}

impl View for JsonMigrationChange {
    type V = MigrationChangeView;

    open spec fn view(&self) -> MigrationChangeView {
        MigrationChangeView {
            migration_file_name: self.migration@,
            file_rename: match &self.file_rename {
                Some(c) => Some((c.old_name@, c.new_name@)),
                None => None,
            },
            dependency_updates: match &self.dependency_updates {
                Some(c) => Some((dependencies_view(c.old_dependencies@), dependencies_view(c.new_dependencies@))),
                None => None,
            },
        }
    }
}

/// The change of `max_migration.txt`: the old and the new name.
#[derive(Debug)]
pub struct JsonMaxMigrationChange {
    pub old: String,
    pub new: String,
}

/// The changes of an app: those of its migrations and that of
/// `max_migration.txt`.
#[derive(Debug)]
pub struct JsonAppChanges {
    pub migration_changes: Vec<JsonMigrationChange>,
    pub max_migration_update: Option<JsonMaxMigrationChange>,
}

/// What the changes of an app are.
pub struct JsonAppView {
    pub migration_changes: Seq<MigrationChangeView>,
    pub max_migration_update: Option<(Seq<char>, Seq<char>)>,
}

/// The views of a list of migration changes.
pub open spec fn json_changes_view(v: Seq<JsonMigrationChange>) -> Seq<MigrationChangeView> {
    v.map_values(|c: JsonMigrationChange| c@)
}

impl View for JsonAppChanges {
    type V = JsonAppView;

    open spec fn view(&self) -> JsonAppView {
        JsonAppView {
            migration_changes: json_changes_view(self.migration_changes@),
            max_migration_update: match &self.max_migration_update {
                Some(m) => Some((m.old@, m.new@)),
                None => None,
            },
        }
    }
}

/// The changes of app `a`: those of its HEAD migrations that have any,
/// then those of its rebased migrations, and the change of
/// `max_migration.txt`.
pub open spec fn json_app_changes(a: AppView) -> JsonAppView {
    JsonAppView {
        migration_changes: migration_changes_of(a.heads + a.rebased),
        max_migration_update: max_update_of(a.max),
    }
}

/// An app's changes that list anything.
pub open spec fn lists_changes(c: JsonAppView) -> bool {
    c.migration_changes.len() > 0 || c.max_migration_update is Some
}

/// The changes of an app as JSON, each part left out where there is none.
pub open spec fn json_app_changes_json(c: JsonAppView) -> JsonView {
    JsonView::Object(
        changes_member(c.migration_changes, "migration"@) + optional_member(
            "max_migration_update"@,
            optional_max_change_json(c.max_migration_update),
        ),
    )
}

/// Adds the changes of the migrations of `ms` that have any.
fn collect_json_changes(out: &mut Vec<JsonMigrationChange>, ms: &Vec<Migration>)
    ensures
        json_changes_view(final(out)@) == json_changes_view(old(out)@) + migration_changes_of(migrations_view(ms@)),
{
    let ghost start = json_changes_view(out@);
    let ghost v = migrations_view(ms@);
    let mut i: usize = 0;
    assert(v.take(0) =~= Seq::<MigrationView>::empty());
    assert(start + Seq::<MigrationChangeView>::empty() =~= start);
    while i < ms.len()
        invariant
            i <= ms.len(),
            v == migrations_view(ms@),
            json_changes_view(out@) == start + migration_changes_of(v.take(i as int)),
        decreases ms.len() - i,
    {
        proof {
            assert(v.take(i + 1).drop_last() =~= v.take(i as int));
            assert(v.take(i + 1).last() == ms@[i as int]@);
        }
        let ghost before = json_changes_view(out@);
        let m = &ms[i];
        if m.name_change.is_some() || m.dependency_change.is_some() {
            let c = JsonMigrationChange {
                migration: m.file_name.0.clone(),
                file_rename: match &m.name_change {
                    Some(c) => Some(c.duplicate()),
                    None => None,
                },
                dependency_updates: match &m.dependency_change {
                    Some(c) => Some(c.duplicate()),
                    None => None,
                },
            };
            assert(c@ == change_of(m@));
            out.push(c);
            assert(json_changes_view(out@) =~= before.push(c@));
            assert(start + migration_changes_of(v.take(i as int)).push(c@) =~= (start + migration_changes_of(
                v.take(i as int),
            )).push(c@));
        }
        i = i + 1;
    }
    assert(v.take(ms.len() as int) =~= v);
}

impl JsonAppChanges {
    /// The changes planned for `app`.
    pub fn try_from(app: &DjangoApp) -> (r: Result<JsonAppChanges, String>)
        ensures
            r matches Ok(c) && c@ == json_app_changes(app@),
    {
        let mut migration_changes: Vec<JsonMigrationChange> = Vec::new();
        collect_json_changes(&mut migration_changes, &app.head_migrations);
        collect_json_changes(&mut migration_changes, &app.rebased_migrations);
        proof {
            crate::migration::changeset::lemma_changes_append(app@.heads, app@.rebased);
            assert(Seq::<MigrationChangeView>::empty() + migration_changes_of(app@.heads) =~= migration_changes_of(
                app@.heads,
            ));
        }
        let max_migration_update = match &app.max_migration_result {
            MaxMigrationResult::Found(max_file) => match &max_file.new_content {
                Some(new_content) => Some(
                    JsonMaxMigrationChange { old: max_file.current_content.0.clone(), new: new_content.0.clone() },
                ),
                None => None,
            },
            _ => None,
        };
        Ok(JsonAppChanges { migration_changes, max_migration_update })
    }

    /// The changes as JSON.
    pub fn json_value(&self) -> (r: JsonValue)
        ensures
            r@ == json_app_changes_json(self@),
    {
        let mut members: Vec<(String, JsonValue)> = Vec::new();
        let ghost cs = json_changes_view(self.migration_changes@);
        if self.migration_changes.len() > 0 {
            let mut items: Vec<JsonValue> = Vec::new();
            let mut i: usize = 0;
            while i < self.migration_changes.len()
                invariant
                    i <= self.migration_changes.len(),
                    cs == json_changes_view(self.migration_changes@),
                    items_view(items@) =~= cs.take(i as int).map_values(
                        |c: MigrationChangeView| migration_change_json(c, "migration"@),
                    ),
                decreases self.migration_changes.len() - i,
            {
                let c = &self.migration_changes[i];
                let name = MigrationFileName(c.migration.clone());
                let x = migration_change_value("migration", &name, &c.file_rename, &c.dependency_updates);
                push_item(&mut items, x);
                assert(cs[i as int] == c@);
                i = i + 1;
            }
            assert(cs.take(self.migration_changes.len() as int) =~= cs);
            push_member(&mut members, "migration_changes", JsonValue::Array(items));
        }
        let ghost p = members_view(members@);
        match &self.max_migration_update {
            Some(m) => {
                let mut fields: Vec<(String, JsonValue)> = Vec::new();
                push_member(&mut fields, "old", json_string(m.old.as_str()));
                push_member(&mut fields, "new", json_string(m.new.as_str()));
                assert(members_view(fields@) =~= seq![("old"@, JsonView::Str(m.old@)), ("new"@, JsonView::Str(m.new@))]);
                push_member(&mut members, "max_migration_update", JsonValue::Object(fields));
            },
            None => {},
        }
        proof {
            assert(p =~= Seq::<(Seq<char>, JsonView)>::empty() + changes_member(cs, "migration"@));
            assert(members_view(members@) =~= changes_member(cs, "migration"@) + optional_member(
                "max_migration_update"@,
                optional_max_change_json(self@.max_migration_update),
            ));
        }
        JsonValue::Object(members)
    }

    /// The changes as pretty-printed JSON.
    pub fn to_json(&self) -> (r: Result<String, String>)
        ensures
            r matches Ok(t) && t@ == pretty_json(json_app_changes_json(self@)),
    {
        to_json_text(&self.json_value())
    }
}

impl DjangoApp {
    /// The planned changes as pretty-printed JSON.
    pub fn to_json(&self) -> (r: Result<String, String>)
        ensures
            r matches Ok(t) && t@ == pretty_json(json_app_changes_json(json_app_changes(self@))),
    {
        let json_changes = JsonAppChanges::try_from(self)?;
        json_changes.to_json()
    }
}

/// The changes of the apps of a project that list any, under their names.
#[derive(Debug)]
pub struct JsonProjectChanges {
    pub apps: Vec<(String, JsonAppChanges)>,
}

impl View for JsonProjectChanges {
    type V = Seq<(Seq<char>, JsonAppView)>;

    open spec fn view(&self) -> Seq<(Seq<char>, JsonAppView)> {
        self.apps@.map_values(|e: (String, JsonAppChanges)| (e.0@, e.1@))
    }
}

/// The changes of the apps of a project that list any, in their order,
/// under their names.
pub open spec fn json_project_changes(apps: ProjectView) -> Seq<(Seq<char>, JsonAppView)>
    decreases apps.len(),
{
    if apps.len() == 0 {
        Seq::empty()
    } else {
        let rest = json_project_changes(apps.drop_last());
        let c = json_app_changes(apps.last().1);
        if lists_changes(c) {
            rest.push((apps.last().0, c))
        } else {
            rest
        }
    }
}

/// The apps that list changes are apps of the project, each once where
/// the project holds each name once.
pub proof fn lemma_json_project_changes_keys(apps: ProjectView)
    ensures
        forall|i: int|
            0 <= i < json_project_changes(apps).len() ==> exists|j: int|
                0 <= j < apps.len() && #[trigger] json_project_changes(apps)[i].0 == apps[j].0,
        keys_distinct(apps) ==> keys_distinct(json_project_changes(apps)),
    decreases apps.len(),
{
    if apps.len() > 0 {
        let d = apps.drop_last();
        lemma_json_project_changes_keys(d);
        let rest = json_project_changes(d);
        let r = json_project_changes(apps);
        assert forall|i: int| 0 <= i < r.len() implies exists|j: int|
            0 <= j < apps.len() && #[trigger] r[i].0 == apps[j].0 by {
            if i < rest.len() {
                assert(r[i] == rest[i]);
                let j = choose|j: int| 0 <= j < d.len() && rest[i].0 == d[j].0;
                assert(d[j] == apps[j]);
            } else {
                assert(r[i].0 == apps[apps.len() - 1].0);
            }
        }
        if keys_distinct(apps) {
            assert(keys_distinct(d)) by {
                assert forall|i: int, j: int| #![trigger d[i], d[j]] 0 <= i < j < d.len() implies d[i].0 != d[j].0 by {
                    assert(d[i] == apps[i] && d[j] == apps[j]);
                }
            }
            assert forall|i: int, j: int| #![trigger r[i], r[j]] 0 <= i < j < r.len() implies r[i].0 != r[j].0 by {
                if j < rest.len() {
                    assert(r[i] == rest[i] && r[j] == rest[j]);
                } else {
                    assert(r[i] == rest[i]);
                    let k = choose|k: int| 0 <= k < d.len() && rest[i].0 == d[k].0;
                    assert(d[k] == apps[k]);
                    assert(r[j].0 == apps[apps.len() - 1].0);
                }
            }
        }
    }
}

/// The changes of a project as JSON: an object with each app's changes
/// under its name.
pub open spec fn json_project_changes_json(p: Seq<(Seq<char>, JsonAppView)>) -> JsonView {
    JsonView::Object(
        seq![
            (
                "apps"@,
                JsonView::Object(p.map_values(|e: (Seq<char>, JsonAppView)| (e.0, json_app_changes_json(e.1)))),
            ),
        ],
    )
}

impl JsonProjectChanges {
    /// The changes of the apps of `project` that list any.
    pub fn try_from(project: &DjangoProject) -> (r: Result<JsonProjectChanges, String>)
        ensures
            r matches Ok(c) && c@ == json_project_changes(project@),
            r matches Ok(c) ==> (keys_distinct(project@) ==> keys_distinct(c@)),
    {
        proof {
            lemma_json_project_changes_keys(project@);
        }
        let ghost v = project@;
        let mut apps: Vec<(String, JsonAppChanges)> = Vec::new();
        let mut i: usize = 0;
        while i < project.apps.len()
            invariant
                i <= project.apps@.len(),
                v == project@,
                apps@.map_values(|e: (String, JsonAppChanges)| (e.0@, e.1@)) =~= json_project_changes(v.take(i as int)),
            decreases project.apps@.len() - i,
        {
            let entry = &project.apps[i];
            assert(v[i as int] == (entry.0@, entry.1@));
            assert(v.take(i + 1).drop_last() =~= v.take(i as int));
            assert(v.take(i + 1).last() == v[i as int]);
            let app_changes = match JsonAppChanges::try_from(&entry.1) {
                Ok(c) => c,
                Err(_) => {
                    assert(false);
                    JsonAppChanges { migration_changes: Vec::new(), max_migration_update: None }
                },
            };
            if app_changes.migration_changes.len() > 0 || app_changes.max_migration_update.is_some() {
                let ghost before = apps@.map_values(|e: (String, JsonAppChanges)| (e.0@, e.1@));
                let name = entry.0.clone();
                assert(name@ == entry.0@);
                apps.push((name, app_changes));
                assert(apps@.map_values(|e: (String, JsonAppChanges)| (e.0@, e.1@)) =~= before.push(
                    (entry.0@, json_app_changes(entry.1@)),
                ));
            }
            i = i + 1;
        }
        assert(v.take(project.apps@.len() as int) =~= v);
        Ok(JsonProjectChanges { apps })
    }

    /// The changes as JSON.
    pub fn json_value(&self) -> (r: JsonValue)
        ensures
            r@ == json_project_changes_json(self@),
    {
        let ghost v = self@;
        let mut members: Vec<(String, JsonValue)> = Vec::new();
        let mut i: usize = 0;
        while i < self.apps.len()
            invariant
                i <= self.apps@.len(),
                v == self@,
                members_view(members@) =~= v.take(i as int).map_values(
                    |e: (Seq<char>, JsonAppView)| (e.0, json_app_changes_json(e.1)),
                ),
            decreases self.apps@.len() - i,
        {
            let entry = &self.apps[i];
            assert(v[i as int] == (entry.0@, entry.1@));
            push_member(&mut members, entry.0.as_str(), entry.1.json_value());
            i = i + 1;
        }
        assert(v.take(self.apps@.len() as int) =~= v);
        let mut outer: Vec<(String, JsonValue)> = Vec::new();
        push_member(&mut outer, "apps", JsonValue::Object(members));
        assert(members_view(outer@) =~= seq![
            (
                "apps"@,
                JsonView::Object(v.map_values(|e: (Seq<char>, JsonAppView)| (e.0, json_app_changes_json(e.1)))),
            ),
        ]);
        JsonValue::Object(outer)
    }

    /// The changes as pretty-printed JSON.
    pub fn to_json(&self) -> (r: Result<String, String>)
        ensures
            r matches Ok(t) && t@ == pretty_json(json_project_changes_json(self@)),
    {
        to_json_text(&self.json_value())
    }
}

} // verus!
