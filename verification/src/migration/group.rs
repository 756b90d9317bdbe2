//! A Django app: its migrations on the HEAD branch, those of the branch
//! being rebased, and the renames and dependency rewrites planned for them.

use vstd::prelude::*;
use vstd::string::*;
use crate::migration::change::{MigrationDependencyChange, MigrationFileNameChange};
use crate::migration::file::{
    dependencies_view, duplicate_dependencies, is_well_formed_name, migrations_view, name_number,
    MaxMigrationFile, MaxMigrationResult, MaxMigrationView, MergeConflict, Migration, MigrationDependency,
    MigrationFileName, MigrationView,
};
use crate::paths::{components, path_components, texts};

verus! {

/// The name of the app whose migrations are in `dir`: the component of
/// `dir` before its last one.
pub open spec fn app_name_of(dir: Seq<char>) -> Seq<char> {
    let c = path_components(dir);
    c[c.len() - 2]
}

/// `dir` has a component before its last one.
pub open spec fn has_app_name(dir: Seq<char>) -> bool {
    path_components(dir).len() >= 2
}

/// The first migration of `ms` named `name`.
pub open spec fn first_named(ms: Seq<MigrationView>, name: Seq<char>) -> Option<MigrationView>
    decreases ms.len(),
{
    if ms.len() == 0 {
        None
    } else if ms[0].file_name == name {
        Some(ms[0])
    } else {
        first_named(ms.drop_first(), name)
    }
}

/// The migration that `max_migration.txt` names as the latest: on the
/// HEAD side (`head_only`) or on the rebased side of a conflict, or among
/// all migrations where there is no conflict.
pub open spec fn highest_migration(
    heads: Seq<MigrationView>,
    rebased: Seq<MigrationView>,
    max: MaxMigrationView,
    head_only: bool,
) -> Result<MigrationView, Seq<char>> {
    match max {
        MaxMigrationView::Conflict(head, incoming) => if head_only {
            match first_named(heads, head) {
                Some(m) => Ok(m),
                None => Err("Head migration "@ + head + " not found in head_migrations"@),
            }
        } else {
            match first_named(rebased, incoming) {
                Some(m) => Ok(m),
                None => Err("Rebased migration "@ + incoming + " not found in rebased_migrations"@),
            }
        },
        MaxMigrationView::Found(current, _) => if head_only {
            match first_named(heads, current) {
                Some(m) => Ok(m),
                None => Err("Migration "@ + current + " not found in head_migrations"@),
            }
        } else {
            match first_named(heads + rebased, current) {
                Some(m) => Ok(m),
                None => Err("Migration "@ + current + " not found"@),
            }
        },
        MaxMigrationView::NotFound => Err(
            "Could not find the highest migration since there is no clear indication in the max_migration.txt for this app."@,
        ),
    }
}

/// Every migration of `ms` has a well-formed name.
pub open spec fn names_well_formed(ms: Seq<MigrationView>) -> bool {
    forall|i: int| 0 <= i < ms.len() ==> is_well_formed_name(#[trigger] ms[i].file_name)
}

/// The changes to names in a lookup table: for each app, its renames as
/// (old, new) pairs.
pub open spec fn lookup_view(l: Seq<(String, Vec<MigrationFileNameChange>)>) -> Seq<(Seq<char>, Seq<(Seq<char>, Seq<char>)>)> {
    l.map_values(|e: (String, Vec<MigrationFileNameChange>)| (e.0@, renames_view(e.1@)))
}

/// Renames as (old, new) pairs.
pub open spec fn renames_view(v: Seq<MigrationFileNameChange>) -> Seq<(Seq<char>, Seq<char>)> {
    v.map_values(|c: MigrationFileNameChange| (c.old_name@, c.new_name@))
}

/// The renames that the lookup table holds for `app`: those of its first
/// entry for that app.
pub open spec fn lookup_get(
    l: Seq<(Seq<char>, Seq<(Seq<char>, Seq<char>)>)>,
    app: Seq<char>,
) -> Option<Seq<(Seq<char>, Seq<char>)>>
    decreases l.len(),
{
    if l.len() == 0 {
        None
    } else if l[0].0 == app {
        Some(l[0].1)
    } else {
        lookup_get(l.drop_first(), app)
    }
}

/// The new name of the first rename of `name` among `renames`.
pub open spec fn first_rename(renames: Seq<(Seq<char>, Seq<char>)>, name: Seq<char>) -> Option<Seq<char>>
    decreases renames.len(),
{
    if renames.len() == 0 {
        None
    } else if renames[0].0 == name {
        Some(renames[0].1)
    } else {
        first_rename(renames.drop_first(), name)
    }
}

/// The new name that the lookup table gives to the migration `name` of
/// `app`.
pub open spec fn renamed_in(
    l: Seq<(Seq<char>, Seq<(Seq<char>, Seq<char>)>)>,
    app: Seq<char>,
    name: Seq<char>,
) -> Option<Seq<char>> {
    match lookup_get(l, app) {
        Some(rs) => first_rename(rs, name),
        None => None,
    }
}

/// The new form of a dependency of a rebased migration on its own app: a
/// dependency on the last common migration now names the latest HEAD
/// migration, and one on a renamed migration names its new name.
pub open spec fn same_app_update(
    d: (Seq<char>, Seq<char>),
    app: Seq<char>,
    last_common: Option<Seq<char>>,
    head: Seq<char>,
    l: Seq<(Seq<char>, Seq<(Seq<char>, Seq<char>)>)>,
) -> Option<(Seq<char>, Seq<char>)> {
    if d.0 == app {
        if last_common == Some(d.1) {
            Some((app, head))
        } else {
            match renamed_in(l, app, d.1) {
                Some(n) => Some((app, n)),
                None => None,
            }
        }
    } else {
        None
    }
}

/// The new form of a dependency on another app's renamed migration.
pub open spec fn cross_app_update(
    d: (Seq<char>, Seq<char>),
    app: Seq<char>,
    l: Seq<(Seq<char>, Seq<(Seq<char>, Seq<char>)>)>,
) -> Option<(Seq<char>, Seq<char>)> {
    if d.0 != app {
        match renamed_in(l, d.0, d.1) {
            Some(n) => Some((d.0, n)),
            None => None,
        }
    } else {
        None
    }
}

/// A dependency after an update, where there is one.
pub open spec fn updated(d: (Seq<char>, Seq<char>), u: Option<(Seq<char>, Seq<char>)>) -> (Seq<char>, Seq<char>) {
    match u {
        Some(n) => n,
        None => d,
    }
}

/// The dependencies of a rebased migration after the same-app update.
pub open spec fn same_app_updated_dependencies(
    deps: Seq<(Seq<char>, Seq<char>)>,
    app: Seq<char>,
    last_common: Option<Seq<char>>,
    head: Seq<char>,
    l: Seq<(Seq<char>, Seq<(Seq<char>, Seq<char>)>)>,
) -> Seq<(Seq<char>, Seq<char>)> {
    Seq::new(deps.len(), |i: int| updated(deps[i], same_app_update(deps[i], app, last_common, head, l)))
}

/// Dependencies after the cross-app update.
pub open spec fn cross_app_updated_dependencies(
    deps: Seq<(Seq<char>, Seq<char>)>,
    app: Seq<char>,
    l: Seq<(Seq<char>, Seq<(Seq<char>, Seq<char>)>)>,
) -> Seq<(Seq<char>, Seq<char>)> {
    Seq::new(deps.len(), |i: int| updated(deps[i], cross_app_update(deps[i], app, l)))
}

/// A migration with its dependency change set to `(m.dependencies, new)`.
pub open spec fn with_dependency_change(m: MigrationView, new: Seq<(Seq<char>, Seq<char>)>) -> MigrationView {
    MigrationView {
        file_name: m.file_name,
        file_path: m.file_path,
        app_name: m.app_name,
        dependencies: m.dependencies,
        from_rebased_branch: m.from_rebased_branch,
        name_change: m.name_change,
        dependency_change: Some((m.dependencies, new)),
    }
}

/// The dependencies that a migration is to have: those of its planned
/// change, or its own.
pub open spec fn planned_dependencies(m: MigrationView) -> Seq<(Seq<char>, Seq<char>)> {
    match m.dependency_change {
        Some(c) => c.1,
        None => m.dependencies,
    }
}

/// Some dependency of `deps` follows a rename of another app.
pub open spec fn has_cross_app_update(
    deps: Seq<(Seq<char>, Seq<char>)>,
    app: Seq<char>,
    l: Seq<(Seq<char>, Seq<(Seq<char>, Seq<char>)>)>,
) -> bool {
    exists|i: int| 0 <= i < deps.len() && #[trigger] cross_app_update(deps[i], app, l) is Some
}

/// A migration after the dependency update of its app: within the app
/// (`same_app`), a rebased migration's dependencies on its own app are
/// updated; otherwise the dependencies on other apps (on top of a change
/// already planned) follow their renames.
pub open spec fn dependency_updated(
    m: MigrationView,
    same_app: bool,
    app: Seq<char>,
    last_common: Option<Seq<char>>,
    head: Seq<char>,
    l: Seq<(Seq<char>, Seq<(Seq<char>, Seq<char>)>)>,
) -> MigrationView {
    if same_app && m.from_rebased_branch {
        let changed = exists|i: int| 0 <= i < m.dependencies.len()
            && #[trigger] same_app_update(m.dependencies[i], app, last_common, head, l) is Some;
        if changed {
            with_dependency_change(m, same_app_updated_dependencies(m.dependencies, app, last_common, head, l))
        } else {
            m
        }
    } else {
        let base = planned_dependencies(m);
        let changed = m.dependency_change is Some || has_cross_app_update(base, app, l);
        if changed {
            with_dependency_change(m, cross_app_updated_dependencies(base, app, l))
        } else {
            m
        }
    }
}

/// The migrations of an app after its dependency update.
pub open spec fn dependencies_updated(
    ms: Seq<MigrationView>,
    same_app: bool,
    app: Seq<char>,
    last_common: Option<Seq<char>>,
    head: Seq<char>,
    l: Seq<(Seq<char>, Seq<(Seq<char>, Seq<char>)>)>,
) -> Seq<MigrationView> {
    ms.map_values(|m: MigrationView| dependency_updated(m, same_app, app, last_common, head, l))
}

/// The name, where there is one.
pub open spec fn name_view(n: Option<MigrationFileName>) -> Option<Seq<char>> {
    match n {
        Some(f) => Some(f@),
        None => None,
    }
}

/// What a Django app is: its HEAD migrations, its migrations directory,
/// the last migration that the two branches share, what
/// `max_migration.txt` holds and the rebased migrations.
pub struct AppView {
    pub heads: Seq<MigrationView>,
    pub directory: Seq<char>,
    pub last_common: Option<Seq<char>>,
    pub max: MaxMigrationView,
    pub rebased: Seq<MigrationView>,
}

/// A Django app with its migrations.
#[derive(Debug)]
pub struct DjangoApp {
    /// The migrations of the HEAD branch, one per file path.
    pub head_migrations: Vec<Migration>,
    pub directory: String,
    pub last_common_migration: Option<MigrationFileName>,
    pub max_migration_result: MaxMigrationResult,
    pub rebased_migrations: Vec<Migration>,
}

/// An app seen as the group of its migrations.
pub type MigrationGroup = DjangoApp;

impl View for DjangoApp {
    type V = AppView;

    open spec fn view(&self) -> AppView {
        AppView {
            heads: self.heads(),
            directory: self.directory@,
            last_common: name_view(self.last_common_migration),
            max: self.max_migration_result@,
            rebased: self.rebased(),
        }
    }
}

impl DjangoApp {
    /// The HEAD migrations.
    pub open spec fn heads(&self) -> Seq<MigrationView> {
        migrations_view(self.head_migrations@)
    }

    /// The rebased migrations.
    pub open spec fn rebased(&self) -> Seq<MigrationView> {
        migrations_view(self.rebased_migrations@)
    }

    /// The app's name: the component of the migrations directory before
    /// its last one.
    pub fn get_app_name(&self) -> (r: String)
        requires
            has_app_name(self.directory@),
        ensures
            r@ == app_name_of(self.directory@),
    {
        let levels = components(self.directory.as_str());
        let n = levels.len();
        proof {
            assert(texts(levels@).len() == n);
            assert(texts(levels@)[n - 2] == levels@[n - 2]@);
        }
        levels[n - 2].clone()
    }

    /// The migration that `max_migration.txt` names as the latest: on the
    /// HEAD side (`head_only`) or the rebased side of a conflict, or among
    /// all migrations where there is no conflict.
    pub fn find_highest_migration(&self, head_only: bool) -> (r: Result<&Migration, String>)
        ensures
            match r {
                Ok(m) => highest_migration(self.heads(), self.rebased(), self.max_migration_result@, head_only)
                    == Ok::<MigrationView, Seq<char>>(m@),
                Err(e) => highest_migration(self.heads(), self.rebased(), self.max_migration_result@, head_only)
                    == Err::<MigrationView, Seq<char>>(e@),
            },
    {
        match &self.max_migration_result {
            MaxMigrationResult::Conflict(merge_conflict) => {
                if head_only {
                    match find_named(&self.head_migrations, &merge_conflict.head) {
                        Some(m) => Ok(m),
                        None => {
                            let mut msg = String::from_str("Head migration ");
                            msg.append(merge_conflict.head.0.as_str());
                            msg.append(" not found in head_migrations");
                            Err(msg)
                        },
                    }
                } else {
                    match find_named(&self.rebased_migrations, &merge_conflict.incoming_change) {
                        Some(m) => Ok(m),
                        None => {
                            let mut msg = String::from_str("Rebased migration ");
                            msg.append(merge_conflict.incoming_change.0.as_str());
                            msg.append(" not found in rebased_migrations");
                            Err(msg)
                        },
                    }
                }
            },
            MaxMigrationResult::Found(max_migration_file) => {
                if head_only {
                    match find_named(&self.head_migrations, &max_migration_file.current_content) {
                        Some(m) => Ok(m),
                        None => {
                            let mut msg = String::from_str("Migration ");
                            msg.append(max_migration_file.current_content.0.as_str());
                            msg.append(" not found in head_migrations");
                            Err(msg)
                        },
                    }
                } else {
                    match find_named(&self.head_migrations, &max_migration_file.current_content) {
                        Some(m) => {
                            proof {
                                lemma_first_named_append(self.heads(), self.rebased(), max_migration_file.current_content@);
                            }
                            Ok(m)
                        },
                        None => match find_named(&self.rebased_migrations, &max_migration_file.current_content) {
                            Some(m) => {
                                proof {
                                    lemma_first_named_append(self.heads(), self.rebased(), max_migration_file.current_content@);
                                }
                                Ok(m)
                            },
                            None => {
                                proof {
                                    lemma_first_named_append(self.heads(), self.rebased(), max_migration_file.current_content@);
                                }
                                let mut msg = String::from_str("Migration ");
                                msg.append(max_migration_file.current_content.0.as_str());
                                msg.append(" not found");
                                Err(msg)
                            },
                        },
                    }
                }
            },
            MaxMigrationResult::NotFound => Err(
                String::from_str(
                    "Could not find the highest migration since there is no clear indication in the max_migration.txt for this app.",
                ),
            ),
        }
    }

    /// The number of the migration that `find_highest_migration` finds.
    pub fn find_highest_migration_number(&self, head_only: bool) -> (r: Option<u32>)
        requires
            names_well_formed(self.heads()),
            names_well_formed(self.rebased()),
        ensures
            match highest_migration(self.heads(), self.rebased(), self.max_migration_result@, head_only) {
                Ok(m) => r matches Some(n) && n as int == name_number(m.file_name) && n < 10000,
                Err(_) => r is None,
            },
    {
        match self.find_highest_migration(head_only) {
            Ok(m) => {
                proof {
                    lemma_highest_in(self.heads(), self.rebased(), self.max_migration_result@, head_only);
                    if exists|i: int| 0 <= i < self.heads().len() && self.heads()[i] == m@ {
                        let i = choose|i: int| 0 <= i < self.heads().len() && self.heads()[i] == m@;
                        assert(is_well_formed_name(self.heads()[i].file_name));
                    } else {
                        let i = choose|i: int| 0 <= i < self.rebased().len() && self.rebased()[i] == m@;
                        assert(is_well_formed_name(self.rebased()[i].file_name));
                    }
                }
                Some(m.file_name.number())
            },
            Err(_) => None,
        }
    }
}

/// The first migration of `ms` named `name`.
fn find_named<'a>(ms: &'a Vec<Migration>, name: &MigrationFileName) -> (r: Option<&'a Migration>)
    ensures
        match r {
            Some(m) => first_named(migrations_view(ms@), name@) == Some(m@),
            None => first_named(migrations_view(ms@), name@) is None,
        },
{
    let ghost v = migrations_view(ms@);
    let mut i: usize = 0;
    assert(v.skip(0) =~= v);
    while i < ms.len()
        invariant
            i <= ms.len(),
            v == migrations_view(ms@),
            first_named(v, name@) == first_named(v.skip(i as int), name@),
        decreases ms.len() - i,
    {
        proof {
            assert(v.skip(i as int).drop_first() =~= v.skip(i + 1));
            assert(v.skip(i as int)[0] == ms@[i as int]@);
        }
        if ms[i].file_name.same_as(name) {
            return Some(&ms[i]);
        }
        i = i + 1;
    }
    None
}

proof fn lemma_first_named_append(a: Seq<MigrationView>, b: Seq<MigrationView>, name: Seq<char>)
    ensures
        first_named(a + b, name) == match first_named(a, name) {
            Some(m) => Some(m),
            None => first_named(b, name),
        },
    decreases a.len(),
{
    if a.len() == 0 {
        assert(a + b =~= b);
    } else {
        assert((a + b).drop_first() =~= a.drop_first() + b);
        assert((a + b)[0] == a[0]);
        lemma_first_named_append(a.drop_first(), b, name);
    }
}

proof fn lemma_first_named_in(ms: Seq<MigrationView>, name: Seq<char>)
    ensures
        first_named(ms, name) matches Some(m) ==> exists|i: int| 0 <= i < ms.len() && ms[i] == m,
    decreases ms.len(),
{
    if ms.len() > 0 && ms[0].file_name != name {
        lemma_first_named_in(ms.drop_first(), name);
        if first_named(ms, name) is Some {
            let i = choose|i: int| 0 <= i < ms.len() - 1 && ms.drop_first()[i] == first_named(ms, name)->Some_0;
            assert(ms[i + 1] == ms.drop_first()[i]);
        }
    }
}

/// What `highest_migration` finds is one of the app's migrations.
pub proof fn lemma_highest_in(
    heads: Seq<MigrationView>,
    rebased: Seq<MigrationView>,
    max: MaxMigrationView,
    head_only: bool,
)
    ensures
        highest_migration(heads, rebased, max, head_only) matches Ok(m) ==> (exists|i: int|
            0 <= i < heads.len() && heads[i] == m) || (exists|i: int| 0 <= i < rebased.len() && rebased[i] == m),
{
    match max {
        MaxMigrationView::Conflict(head, incoming) => {
            lemma_first_named_in(heads, head);
            lemma_first_named_in(rebased, incoming);
        },
        MaxMigrationView::Found(current, _) => {
            lemma_first_named_in(heads, current);
            lemma_first_named_in(heads + rebased, current);
            if !head_only && first_named(heads + rebased, current) is Some {
                let m = first_named(heads + rebased, current)->Some_0;
                let i = choose|i: int| 0 <= i < (heads + rebased).len() && (heads + rebased)[i] == m;
                if i >= heads.len() {
                    assert(rebased[i - heads.len()] == m);
                } else {
                    assert(heads[i] == m);
                }
            }
        },
        MaxMigrationView::NotFound => {},
    }
}


/// The renames that `lookup` holds for `app`.
fn lookup_find<'a>(lookup: &'a Vec<(String, Vec<MigrationFileNameChange>)>, app: &String) -> (r: Option<&'a Vec<MigrationFileNameChange>>)
    ensures
        match r {
            Some(v) => lookup_get(lookup_view(lookup@), app@) == Some(renames_view(v@)),
            None => lookup_get(lookup_view(lookup@), app@) is None,
        },
{
    let ghost l = lookup_view(lookup@);
    let mut i: usize = 0;
    assert(l.skip(0) =~= l);
    while i < lookup.len()
        invariant
            i <= lookup.len(),
            l == lookup_view(lookup@),
            lookup_get(l, app@) == lookup_get(l.skip(i as int), app@),
        decreases lookup.len() - i,
    {
        proof {
            assert(l.skip(i as int).drop_first() =~= l.skip(i + 1));
            assert(l.skip(i as int)[0] == (lookup@[i as int].0@, renames_view(lookup@[i as int].1@)));
        }
        if lookup[i].0 == *app {
            return Some(&lookup[i].1);
        }
        i = i + 1;
    }
    None
}

/// The new name of the first rename of `name` in `renames`.
fn find_rename<'a>(renames: &'a Vec<MigrationFileNameChange>, name: &MigrationFileName) -> (r: Option<&'a MigrationFileName>)
    ensures
        match r {
            Some(n) => first_rename(renames_view(renames@), name@) == Some(n@),
            None => first_rename(renames_view(renames@), name@) is None,
        },
{
    let ghost v = renames_view(renames@);
    let mut i: usize = 0;
    assert(v.skip(0) =~= v);
    while i < renames.len()
        invariant
            i <= renames.len(),
            v == renames_view(renames@),
            first_rename(v, name@) == first_rename(v.skip(i as int), name@),
        decreases renames.len() - i,
    {
        proof {
            assert(v.skip(i as int).drop_first() =~= v.skip(i + 1));
            assert(v.skip(i as int)[0] == (renames@[i as int].old_name@, renames@[i as int].new_name@));
        }
        if renames[i].old_name.same_as(name) {
            return Some(&renames[i].new_name);
        }
        i = i + 1;
    }
    None
}

/// The new name that `lookup` gives to the migration `name` of `app`.
fn find_renamed(lookup: &Vec<(String, Vec<MigrationFileNameChange>)>, app: &String, name: &MigrationFileName) -> (r: Option<MigrationFileName>)
    ensures
        match r {
            Some(n) => renamed_in(lookup_view(lookup@), app@, name@) == Some(n@),
            None => renamed_in(lookup_view(lookup@), app@, name@) is None,
        },
{
    match lookup_find(lookup, app) {
        Some(renames) => match find_rename(renames, name) {
            Some(n) => Some(n.duplicate()),
            None => None,
        },
        None => None,
    }
}

/// The view of a dependency built from its parts.
fn make_dependency(app: &String, file: &MigrationFileName) -> (r: MigrationDependency)
    ensures
        r@ == (app@, file@),
{
    MigrationDependency { app: app.clone(), migration_file: file.duplicate() }
}

/// The update of a rebased migration's dependency on its own app.
fn same_app_dependency_update(
    d: &MigrationDependency,
    app_name: &String,
    last_common: &Option<MigrationFileName>,
    head: &MigrationFileName,
    lookup: &Vec<(String, Vec<MigrationFileNameChange>)>,
) -> (r: Option<MigrationDependency>)
    ensures
        match r {
            Some(n) => same_app_update(d@, app_name@, name_view(*last_common), head@, lookup_view(lookup@)) == Some(n@),
            None => same_app_update(d@, app_name@, name_view(*last_common), head@, lookup_view(lookup@)) is None,
        },
{
    if d.app == *app_name {
        if let Some(common) = last_common {
            if d.migration_file.same_as(common) {
                return Some(make_dependency(app_name, head));
            }
        }
        match find_renamed(lookup, &d.app, &d.migration_file) {
            Some(n) => Some(make_dependency(app_name, &n)),
            None => None,
        }
    } else {
        None
    }
}

/// The update of a dependency on another app's migration.
fn cross_app_dependency_update(
    d: &MigrationDependency,
    app_name: &String,
    lookup: &Vec<(String, Vec<MigrationFileNameChange>)>,
) -> (r: Option<MigrationDependency>)
    ensures
        match r {
            Some(n) => cross_app_update(d@, app_name@, lookup_view(lookup@)) == Some(n@),
            None => cross_app_update(d@, app_name@, lookup_view(lookup@)) is None,
        },
{
    if d.app != *app_name {
        match find_renamed(lookup, &d.app, &d.migration_file) {
            Some(n) => Some(make_dependency(&d.app, &n)),
            None => None,
        }
    } else {
        None
    }
}

/// A migration after the dependency update of its app.
fn update_migration_dependencies(
    m: &Migration,
    same_app: bool,
    app_name: &String,
    last_common: &Option<MigrationFileName>,
    head: &MigrationFileName,
    lookup: &Vec<(String, Vec<MigrationFileNameChange>)>,
) -> (r: Migration)
    ensures
        r@ == dependency_updated(m@, same_app, app_name@, name_view(*last_common), head@, lookup_view(lookup@)),
{
    let ghost l = lookup_view(lookup@);
    let ghost lc = name_view(*last_common);
    let mut r = m.duplicate();
    if same_app && m.from_rebased_branch {
        let ghost deps = m@.dependencies;
        let mut updated_dependencies: Vec<MigrationDependency> = Vec::new();
        let mut has_changes = false;
        let mut i: usize = 0;
        while i < m.dependencies.len()
            invariant
                i <= m.dependencies.len(),
                deps == dependencies_view(m.dependencies@),
                l == lookup_view(lookup@),
                lc == name_view(*last_common),
                dependencies_view(updated_dependencies@) =~= same_app_updated_dependencies(deps, app_name@, lc, head@, l).take(i as int),
                has_changes == exists|j: int| 0 <= j < i && #[trigger] same_app_update(deps[j], app_name@, lc, head@, l) is Some,
            decreases m.dependencies.len() - i,
        {
            let d = &m.dependencies[i];
            assert(deps[i as int] == d@);
            let ghost before = dependencies_view(updated_dependencies@);
            let ghost expected = same_app_updated_dependencies(deps, app_name@, lc, head@, l)[i as int];
            match same_app_dependency_update(d, app_name, last_common, head, lookup) {
                Some(n) => {
                    assert(expected == n@);
                    updated_dependencies.push(n);
                    has_changes = true;
                },
                None => {
                    assert(expected == d@);
                    updated_dependencies.push(d.duplicate());
                },
            }
            assert(dependencies_view(updated_dependencies@) =~= before.push(expected));
            i = i + 1;
            assert(dependencies_view(updated_dependencies@) =~= same_app_updated_dependencies(deps, app_name@, lc, head@, l).take(i as int));
        }
        assert(same_app_updated_dependencies(deps, app_name@, lc, head@, l).take(m.dependencies.len() as int)
            =~= same_app_updated_dependencies(deps, app_name@, lc, head@, l));
        if has_changes {
            r.dependency_change = Some(MigrationDependencyChange::new(duplicate_dependencies(&m.dependencies), updated_dependencies));
        } else {
            assert(!(exists|j: int| 0 <= j < m@.dependencies.len() && #[trigger] same_app_update(m@.dependencies[j], app_name@, lc, head@, l) is Some));
            assert(r@ == dependency_updated(m@, same_app, app_name@, lc, head@, l));
        }
        r
    } else {
        let mut updated_dependencies = match &m.dependency_change {
            Some(dc) => duplicate_dependencies(&dc.new_dependencies),
            None => duplicate_dependencies(&m.dependencies),
        };
        let ghost base = dependencies_view(updated_dependencies@);
        assert(base == planned_dependencies(m@));
        assert(m.dependency_change.is_some() == m@.dependency_change is Some);
        let mut has_changes = m.dependency_change.is_some();
        let mut result_dependencies: Vec<MigrationDependency> = Vec::new();
        let mut i: usize = 0;
        while i < updated_dependencies.len()
            invariant
                i <= updated_dependencies.len(),
                base == dependencies_view(updated_dependencies@),
                l == lookup_view(lookup@),
                dependencies_view(result_dependencies@) =~= cross_app_updated_dependencies(base, app_name@, l).take(i as int),
                has_changes == (m.dependency_change is Some || exists|j: int| 0 <= j < i && #[trigger] cross_app_update(base[j], app_name@, l) is Some),
            decreases updated_dependencies.len() - i,
        {
            let d = &updated_dependencies[i];
            assert(base[i as int] == d@);
            let ghost before = dependencies_view(result_dependencies@);
            let ghost expected = cross_app_updated_dependencies(base, app_name@, l)[i as int];
            match cross_app_dependency_update(d, app_name, lookup) {
                Some(n) => {
                    assert(expected == n@);
                    result_dependencies.push(n);
                    has_changes = true;
                },
                None => {
                    assert(expected == d@);
                    result_dependencies.push(d.duplicate());
                },
            }
            assert(dependencies_view(result_dependencies@) =~= before.push(expected));
            i = i + 1;
            assert(dependencies_view(result_dependencies@) =~= cross_app_updated_dependencies(base, app_name@, l).take(i as int));
        }
        assert(cross_app_updated_dependencies(base, app_name@, l).take(updated_dependencies.len() as int)
            =~= cross_app_updated_dependencies(base, app_name@, l));
        if has_changes {
            r.dependency_change = Some(MigrationDependencyChange::new(duplicate_dependencies(&m.dependencies), result_dependencies));
            assert(r@ == dependency_updated(m@, same_app, app_name@, lc, head@, l));
        } else {
            assert(!(exists|j: int| 0 <= j < base.len() && #[trigger] cross_app_update(base[j], app_name@, l) is Some));
            assert(r@ == dependency_updated(m@, same_app, app_name@, lc, head@, l));
        }
        r
    }
}

/// Every migration of `ms` after the dependency update of its app.
fn update_all_dependencies(
    ms: &Vec<Migration>,
    same_app: bool,
    app_name: &String,
    last_common: &Option<MigrationFileName>,
    head: &MigrationFileName,
    lookup: &Vec<(String, Vec<MigrationFileNameChange>)>,
) -> (r: Vec<Migration>)
    ensures
        migrations_view(r@) == dependencies_updated(migrations_view(ms@), same_app, app_name@, name_view(*last_common), head@, lookup_view(lookup@)),
{
    let ghost target = dependencies_updated(migrations_view(ms@), same_app, app_name@, name_view(*last_common), head@, lookup_view(lookup@));
    let mut r: Vec<Migration> = Vec::new();
    let mut i: usize = 0;
    while i < ms.len()
        invariant
            i <= ms.len(),
            target == dependencies_updated(migrations_view(ms@), same_app, app_name@, name_view(*last_common), head@, lookup_view(lookup@)),
            migrations_view(r@) =~= target.take(i as int),
        decreases ms.len() - i,
    {
        let ghost before = migrations_view(r@);
        let u = update_migration_dependencies(&ms[i], same_app, app_name, last_common, head, lookup);
        assert(migrations_view(ms@)[i as int] == ms@[i as int]@);
        assert(target[i as int] == u@);
        r.push(u);
        assert(migrations_view(r@) =~= before.push(u@));
        i = i + 1;
        assert(migrations_view(r@) =~= target.take(i as int));
    }
    assert(target.take(ms.len() as int) =~= target);
    r
}

/// Some migration of `ms` from the rebased branch depends on the last
/// common migration `last_common` of `app`.
pub open spec fn depends_on_last_common(ms: Seq<MigrationView>, app: Seq<char>, last_common: Option<Seq<char>>) -> bool {
    exists|i: int, k: int|
        #![trigger ms[i].dependencies[k]]
        0 <= i < ms.len() && ms[i].from_rebased_branch && 0 <= k < ms[i].dependencies.len() && ms[i].dependencies[k].0
            == app && last_common == Some(ms[i].dependencies[k].1)
}

/// The dependency update of app `a` needs its latest HEAD migration: within
/// the app, a rebased migration depends on the last common migration.
pub open spec fn head_needed(a: AppView, same_app: bool) -> bool {
    same_app && (depends_on_last_common(a.heads, app_name_of(a.directory), a.last_common) || depends_on_last_common(
        a.rebased,
        app_name_of(a.directory),
        a.last_common,
    ))
}

/// The name of the latest HEAD migration of `a`, or the empty name where
/// there is none; the dependency update then does not use it.
pub open spec fn head_name_or_empty(a: AppView) -> Seq<char> {
    match highest_migration(a.heads, a.rebased, a.max, true) {
        Ok(m) => m.file_name,
        Err(_) => Seq::empty(),
    }
}

impl DjangoApp {
    /// Updates the dependencies of the app's migrations after renames.
    /// With `same_app`, each rebased migration's dependencies on its own
    /// app are updated: the one on the last common migration now names the
    /// latest HEAD migration, and one on a renamed migration its new name.
    /// Otherwise each migration's dependencies on other apps (on top of a
    /// change already planned) follow the renames in `lookup`. The latest
    /// HEAD migration must be found only where a dependency on the last
    /// common migration is to name it.
    pub fn create_migration_dependency_changes(
        &mut self,
        same_app: bool,
        lookup: &Vec<(String, Vec<MigrationFileNameChange>)>,
    )
        requires
            has_app_name(old(self).directory@),
            head_needed(old(self)@, same_app) ==> highest_migration(
                old(self).heads(),
                old(self).rebased(),
                old(self).max_migration_result@,
                true,
            ) is Ok,
        ensures
            final(self).directory == old(self).directory,
            final(self).last_common_migration == old(self).last_common_migration,
            final(self).max_migration_result == old(self).max_migration_result,
            ({
                let head = head_name_or_empty(old(self)@);
                let app = app_name_of(old(self).directory@);
                let lc = name_view(old(self).last_common_migration);
                let l = lookup_view(lookup@);
                &&& final(self).heads() == dependencies_updated(old(self).heads(), same_app, app, lc, head, l)
                &&& final(self).rebased() == dependencies_updated(old(self).rebased(), same_app, app, lc, head, l)
            }),
            crate::migration::load::paths_distinct(old(self).heads()) ==> crate::migration::load::paths_distinct(
                final(self).heads(),
            ),
    {
        let app_name = self.get_app_name();
        let head_name = match self.find_highest_migration(true) {
            Ok(m) => m.file_name.duplicate(),
            Err(_) => MigrationFileName(String::new()),
        };
        let heads = update_all_dependencies(&self.head_migrations, same_app, &app_name, &self.last_common_migration, &head_name, lookup);
        let rebased = update_all_dependencies(&self.rebased_migrations, same_app, &app_name, &self.last_common_migration, &head_name, lookup);
        self.head_migrations = heads;
        self.rebased_migrations = rebased;
        proof {
            let old_heads = old(self).heads();
            lemma_dependency_update_keeps(
                old_heads,
                same_app,
                app_name@,
                name_view(self.last_common_migration),
                head_name@,
                lookup_view(lookup@),
            );
            let new_heads = self.heads();
            if crate::migration::load::paths_distinct(old_heads) {
                assert forall|i: int, j: int| #![trigger new_heads[i], new_heads[j]] 0 <= i < j < new_heads.len()
                    implies new_heads[i].file_path != new_heads[j].file_path by {
                    assert(old_heads[i].file_path != old_heads[j].file_path);
                }
            }
        }
    }
}

/// Where no migration needs the latest HEAD migration, the dependency
/// update does not depend on which name is given for it.
pub proof fn lemma_head_unused(
    ms: Seq<MigrationView>,
    same_app: bool,
    app: Seq<char>,
    last_common: Option<Seq<char>>,
    h1: Seq<char>,
    h2: Seq<char>,
    l: Seq<(Seq<char>, Seq<(Seq<char>, Seq<char>)>)>,
)
    requires
        !(same_app && depends_on_last_common(ms, app, last_common)),
    ensures
        dependencies_updated(ms, same_app, app, last_common, h1, l) == dependencies_updated(
            ms,
            same_app,
            app,
            last_common,
            h2,
            l,
        ),
{
    assert forall|i: int| 0 <= i < ms.len() implies dependency_updated(ms[i], same_app, app, last_common, h1, l)
        == dependency_updated(ms[i], same_app, app, last_common, h2, l) by {
        let m = ms[i];
        if same_app && m.from_rebased_branch {
            assert forall|k: int| 0 <= k < m.dependencies.len() implies same_app_update(
                m.dependencies[k],
                app,
                last_common,
                h1,
                l,
            ) == same_app_update(m.dependencies[k], app, last_common, h2, l) by {
                assert(ms[i].dependencies[k] == m.dependencies[k]);
            }
            assert(same_app_updated_dependencies(m.dependencies, app, last_common, h1, l)
                =~= same_app_updated_dependencies(m.dependencies, app, last_common, h2, l));
        }
    }
    assert(dependencies_updated(ms, same_app, app, last_common, h1, l) =~= dependencies_updated(
        ms,
        same_app,
        app,
        last_common,
        h2,
        l,
    ));
}

/// The renames table gives renames of an app only from an entry under
/// that app's name, the first one.
pub proof fn lemma_lookup_get_entry(l: Seq<(Seq<char>, Seq<(Seq<char>, Seq<char>)>)>, app: Seq<char>)
    ensures
        lookup_get(l, app) matches Some(rs) ==> exists|i: int|
            0 <= i < l.len() && #[trigger] l[i] == (app, rs) && forall|j: int| 0 <= j < i ==> (#[trigger] l[j]).0 != app,
        lookup_get(l, app) is None ==> forall|i: int| 0 <= i < l.len() ==> (#[trigger] l[i]).0 != app,
    decreases l.len(),
{
    if l.len() > 0 && l[0].0 != app {
        lemma_lookup_get_entry(l.drop_first(), app);
        let t = l.drop_first();
        if lookup_get(l, app) is Some {
            let rs = lookup_get(l, app)->Some_0;
            let i = choose|i: int| 0 <= i < t.len() && #[trigger] t[i] == (app, rs) && forall|j: int| 0 <= j < i ==> (#[trigger] t[j]).0 != app;
            assert(l[i + 1] == t[i]);
            assert forall|j: int| 0 <= j < i + 1 implies (#[trigger] l[j]).0 != app by {
                if j > 0 {
                    assert(l[j] == t[j - 1]);
                }
            }
        } else {
            assert forall|i: int| 0 <= i < l.len() implies (#[trigger] l[i]).0 != app by {
                if i > 0 {
                    assert(l[i] == t[i - 1]);
                }
            }
        }
    }
}

/// A migration is renamed only by a rename of exactly its name, the first
/// such one; and where one exists, the migration is renamed.
pub proof fn lemma_first_rename_exact(rs: Seq<(Seq<char>, Seq<char>)>, name: Seq<char>)
    ensures
        first_rename(rs, name) matches Some(n) ==> exists|t: int|
            0 <= t < rs.len() && #[trigger] rs[t] == (name, n) && forall|j: int| 0 <= j < t ==> (#[trigger] rs[j]).0 != name,
        first_rename(rs, name) is None <==> forall|t: int| 0 <= t < rs.len() ==> (#[trigger] rs[t]).0 != name,
    decreases rs.len(),
{
    if rs.len() > 0 && rs[0].0 != name {
        let t = rs.drop_first();
        lemma_first_rename_exact(t, name);
        if first_rename(rs, name) is Some {
            let n = first_rename(rs, name)->Some_0;
            let k = choose|k: int| 0 <= k < t.len() && #[trigger] t[k] == (name, n) && forall|j: int| 0 <= j < k ==> (#[trigger] t[j]).0 != name;
            assert(rs[k + 1] == t[k]);
            assert forall|j: int| 0 <= j < k + 1 implies (#[trigger] rs[j]).0 != name by {
                if j > 0 {
                    assert(rs[j] == t[j - 1]);
                }
            }
        } else {
            assert forall|i: int| 0 <= i < rs.len() implies (#[trigger] rs[i]).0 != name by {
                if i > 0 {
                    assert(rs[i] == t[i - 1]);
                }
            }
        }
    } else if rs.len() > 0 {
        assert(rs[0] == (name, rs[0].1));
    }
}

/// A dependency on a migration of `app` is renamed only through a rename,
/// listed for `app` in the renames table, whose old name is exactly the
/// migration's name; where the table lists one, it is renamed.
pub proof fn lemma_renamed_in_exact(l: Seq<(Seq<char>, Seq<(Seq<char>, Seq<char>)>)>, app: Seq<char>, name: Seq<char>)
    ensures
        renamed_in(l, app, name) matches Some(n) ==> exists|i: int, t: int|
            0 <= i < l.len() && l[i].0 == app && 0 <= t < l[i].1.len() && #[trigger] l[i].1[t] == (name, n),
        (lookup_get(l, app) matches Some(rs) && exists|t: int| 0 <= t < rs.len() && (#[trigger] rs[t]).0 == name)
            ==> renamed_in(l, app, name) is Some,
{
    lemma_lookup_get_entry(l, app);
    match lookup_get(l, app) {
        Some(rs) => {
            lemma_first_rename_exact(rs, name);
            if renamed_in(l, app, name) is Some {
                let n = renamed_in(l, app, name)->Some_0;
                let i = choose|i: int| 0 <= i < l.len() && #[trigger] l[i] == (app, rs) && forall|j: int| 0 <= j < i ==> (#[trigger] l[j]).0 != app;
                let t = choose|t: int| 0 <= t < rs.len() && #[trigger] rs[t] == (name, n) && forall|j: int| 0 <= j < t ==> (#[trigger] rs[j]).0 != name;
                assert(l[i].1[t] == (name, n));
            }
        },
        None => {},
    }
}

/// A dependency update rewrites a dependency only in one of two ways:
/// within the app, a dependency on the last common migration names the
/// latest HEAD migration; otherwise the dependency keeps its app and takes
/// the new name of a rename, listed for that app, of exactly its old name.
pub proof fn lemma_dependency_rewrite_exact(
    d: (Seq<char>, Seq<char>),
    app: Seq<char>,
    last_common: Option<Seq<char>>,
    head: Seq<char>,
    l: Seq<(Seq<char>, Seq<(Seq<char>, Seq<char>)>)>,
)
    ensures
        cross_app_update(d, app, l) matches Some(n) ==> d.0 != app && n.0 == d.0 && exists|i: int, t: int|
            0 <= i < l.len() && l[i].0 == d.0 && 0 <= t < l[i].1.len() && #[trigger] l[i].1[t] == (d.1, n.1),
        same_app_update(d, app, last_common, head, l) matches Some(n) ==> d.0 == app && n.0 == app && (
        (last_common == Some(d.1) && n.1 == head) || exists|i: int, t: int|
            0 <= i < l.len() && l[i].0 == app && 0 <= t < l[i].1.len() && #[trigger] l[i].1[t] == (d.1, n.1)),
{
    lemma_renamed_in_exact(l, d.0, d.1);
}

/// A dependency update changes no migration's name, file, app,
/// dependencies, branch or rename; where it plans new dependencies, the
/// old ones it records are the migration's own, and the new list is as
/// long as the list it was made from: the migration's own dependencies, or
/// those of a change already planned.
pub proof fn lemma_dependency_update_keeps(
    ms: Seq<MigrationView>,
    same_app: bool,
    app: Seq<char>,
    last_common: Option<Seq<char>>,
    head: Seq<char>,
    l: Seq<(Seq<char>, Seq<(Seq<char>, Seq<char>)>)>,
)
    ensures
        dependencies_updated(ms, same_app, app, last_common, head, l).len() == ms.len(),
        forall|i: int|
            0 <= i < ms.len() ==> {
                let u = #[trigger] dependencies_updated(ms, same_app, app, last_common, head, l)[i];
                &&& u.file_name == ms[i].file_name
                &&& u.file_path == ms[i].file_path
                &&& u.app_name == ms[i].app_name
                &&& u.dependencies == ms[i].dependencies
                &&& u.from_rebased_branch == ms[i].from_rebased_branch
                &&& u.name_change == ms[i].name_change
                &&& (u.dependency_change == ms[i].dependency_change || (u.dependency_change matches Some(c)
                    && c.0 == ms[i].dependencies))
                &&& (u.dependency_change != ms[i].dependency_change && u.dependency_change is Some) ==> u.dependency_change->Some_0.1.len() == if same_app && ms[i].from_rebased_branch {
                    ms[i].dependencies.len()
                } else {
                    planned_dependencies(ms[i]).len()
                }
                &&& ms[i].dependency_change is None ==> (u.dependency_change matches Some(c) ==> c.0
                    == ms[i].dependencies && c.1.len() == ms[i].dependencies.len())
            },
{
}

/// Within an app, a rebased migration's dependency on the last common
/// migration is planned to name the latest HEAD migration instead.
pub proof fn lemma_rebased_follow_head(
    m: MigrationView,
    app: Seq<char>,
    last_common: Seq<char>,
    head: Seq<char>,
    l: Seq<(Seq<char>, Seq<(Seq<char>, Seq<char>)>)>,
    k: int,
)
    requires
        m.from_rebased_branch,
        0 <= k < m.dependencies.len(),
        m.dependencies[k] == (app, last_common),
    ensures
        dependency_updated(m, true, app, Some(last_common), head, l).dependency_change matches Some(c) && c.1[k]
            == (app, head),
{
    assert(same_app_update(m.dependencies[k], app, Some(last_common), head, l) is Some);
}

/// Across apps, a planned dependency on a migration of another app that
/// the renames table renames is planned to name its new name.
pub proof fn lemma_cross_app_follow_rename(
    m: MigrationView,
    app: Seq<char>,
    last_common: Option<Seq<char>>,
    head: Seq<char>,
    l: Seq<(Seq<char>, Seq<(Seq<char>, Seq<char>)>)>,
    k: int,
    new_name: Seq<char>,
)
    requires
        0 <= k < planned_dependencies(m).len(),
        planned_dependencies(m)[k].0 != app,
        renamed_in(l, planned_dependencies(m)[k].0, planned_dependencies(m)[k].1) == Some(new_name),
    ensures
        dependency_updated(m, false, app, last_common, head, l).dependency_change matches Some(c) && c.1[k] == (
            planned_dependencies(m)[k].0,
            new_name,
        ),
{
    assert(cross_app_update(planned_dependencies(m)[k], app, l) is Some);
}

} // verus!
