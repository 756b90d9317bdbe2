//! A Django project: its apps with migrations, found in the project's
//! directories, and the planning of the renames and dependency rewrites
//! across all of them.

use vstd::prelude::*;
use vstd::string::*;
use crate::migration::apply::{app_file_changes, changes_made, lemma_changes_made_append, FileChange};
use crate::migration::change::MigrationFileNameChange;
use crate::migration::file::{
    find_source, max_migration_path, migrations_view, parent_path, parent_text, source_of,
    sources_view, FileTree, MaxMigrationResult, MaxMigrationView, Migration, MigrationView, SourceFile,
    MAX_MIGRATION_TXT, MIGRATIONS,
};
use crate::migration::group::{
    app_name_of, dependencies_updated, first_named, has_app_name, head_name_or_empty, head_needed, highest_migration,
    lookup_get, lookup_view, names_well_formed, renames_view, renamed_in, planned_dependencies, cross_app_update,
    cross_app_updated_dependencies, dependency_updated, has_cross_app_update, updated, first_rename,
    lemma_first_rename_exact, AppView, DjangoApp,
};
use crate::migration::load::created_app;
use crate::migration::rebase::{last_common_outcome, name_changes_outcome, with_last_common};
use crate::paths::{components, file_name, file_name_of, join, path_components, texts};

verus! {

/// The position of the first entry of `l` under key `k`, or -1.
pub open spec fn key_index<V>(l: Seq<(Seq<char>, V)>, k: Seq<char>) -> int
    decreases l.len(),
{
    if l.len() == 0 {
        -1
    } else if l[0].0 == k {
        0
    } else {
        let i = key_index(l.drop_first(), k);
        if i < 0 {
            -1
        } else {
            i + 1
        }
    }
}

/// `l` with `v` under key `k`: in place of the entry under `k`, or added
/// where there is none.
pub open spec fn keyed_insert<V>(l: Seq<(Seq<char>, V)>, k: Seq<char>, v: V) -> Seq<(Seq<char>, V)> {
    let i = key_index(l, k);
    if i < 0 {
        l.push((k, v))
    } else {
        l.update(i, (k, v))
    }
}

proof fn lemma_key_index<V>(l: Seq<(Seq<char>, V)>, k: Seq<char>, i: int)
    requires
        0 <= i <= l.len(),
        forall|j: int| 0 <= j < i ==> l[j].0 != k,
        i < l.len() ==> l[i].0 == k,
    ensures
        key_index(l, k) == if i < l.len() {
            i
        } else {
            -1
        },
    decreases l.len(),
{
    if l.len() > 0 && i > 0 {
        assert forall|j: int| 0 <= j < i - 1 implies l.drop_first()[j].0 != k by {
            assert(l.drop_first()[j] == l[j + 1]);
        }
        lemma_key_index(l.drop_first(), k, i - 1);
    }
}

proof fn lemma_key_index_range<V>(l: Seq<(Seq<char>, V)>, k: Seq<char>)
    ensures
        -1 <= key_index(l, k) < l.len(),
        key_index(l, k) >= 0 ==> l[key_index(l, k)].0 == k,
    decreases l.len(),
{
    if l.len() > 0 && l[0].0 != k {
        lemma_key_index_range(l.drop_first(), k);
    }
}

/// Each entry after a keyed insert is the inserted one or the entry that
/// was there.
proof fn lemma_keyed_insert_entries<V>(l: Seq<(Seq<char>, V)>, k: Seq<char>, v: V)
    ensures
        keyed_insert(l, k, v).len() >= l.len(),
        forall|i: int|
            0 <= i < keyed_insert(l, k, v).len() ==> #[trigger] keyed_insert(l, k, v)[i] == (k, v) || (i
                < l.len() && keyed_insert(l, k, v)[i] == l[i]),
{
    lemma_key_index_range(l, k);
}

/// No two entries of `l` are under the same key.
pub open spec fn keys_distinct<V>(l: Seq<(Seq<char>, V)>) -> bool {
    forall|i: int, j: int| #![trigger l[i], l[j]] 0 <= i < j < l.len() ==> l[i].0 != l[j].0
}

proof fn lemma_key_index_absent<V>(l: Seq<(Seq<char>, V)>, k: Seq<char>)
    ensures
        key_index(l, k) < 0 ==> forall|j: int| 0 <= j < l.len() ==> #[trigger] l[j].0 != k,
    decreases l.len(),
{
    if l.len() > 0 && l[0].0 != k {
        lemma_key_index_absent(l.drop_first(), k);
        if key_index(l, k) < 0 {
            assert forall|j: int| 0 <= j < l.len() implies #[trigger] l[j].0 != k by {
                if j > 0 {
                    assert(l[j] == l.drop_first()[j - 1]);
                }
            }
        }
    }
}

/// A keyed insert keeps the keys distinct: one entry per key.
pub proof fn lemma_keyed_insert_distinct<V>(l: Seq<(Seq<char>, V)>, k: Seq<char>, v: V)
    requires
        keys_distinct(l),
    ensures
        keys_distinct(keyed_insert(l, k, v)),
{
    lemma_key_index_range(l, k);
    lemma_key_index_absent(l, k);
    let r = keyed_insert(l, k, v);
    let x = key_index(l, k);
    assert forall|i: int, j: int| #![trigger r[i], r[j]] 0 <= i < j < r.len() implies r[i].0 != r[j].0 by {
        if x < 0 {
            if j == l.len() {
                assert(r[i] == l[i]);
            } else {
                assert(r[i] == l[i] && r[j] == l[j]);
            }
        } else {
            assert(r[i].0 == l[i].0 && r[j].0 == l[j].0);
        }
    }
}

/// The names of the directories that are not searched for apps: those of
/// version control, environments, caches, builds, editors, static files
/// and documentation.
pub open spec fn skipped_names() -> Seq<Seq<char>> {
    seq![
        ".git"@, ".svn"@, ".hg"@, "venv"@, "env"@, ".venv"@, ".env"@, "virtualenv"@, "__pycache__"@,
        ".pytest_cache"@, ".tox"@, "node_modules"@, ".npm"@, ".yarn"@, "build"@, "dist"@, ".cache"@,
        "target"@, ".mypy_cache"@, ".coverage"@, "htmlcov"@, ".vscode"@, ".idea"@, ".sublime-project"@,
        ".sublime-workspace"@, ".DS_Store"@, "Thumbs.db"@, "static"@, "staticdirs"@, "staticfiles"@,
        "static_collected"@, "media"@, ".docker"@, "_build"@, "docs/_build"@, "docs"@,
    ]
}

/// The names of the directories that are not searched for apps.
fn skipped_directory_names() -> (r: Vec<&'static str>)
    ensures
        r@.map_values(|s: &str| s@) == skipped_names(),
{
    let r = vec![
        ".git", ".svn", ".hg", "venv", "env", ".venv", ".env", "virtualenv", "__pycache__",
        ".pytest_cache", ".tox", "node_modules", ".npm", ".yarn", "build", "dist", ".cache",
        "target", ".mypy_cache", ".coverage", "htmlcov", ".vscode", ".idea", ".sublime-project",
        ".sublime-workspace", ".DS_Store", "Thumbs.db", "static", "staticdirs", "staticfiles",
        "static_collected", "media", ".docker", "_build", "docs/_build", "docs",
    ];
    assert(r@.map_values(|s: &str| s@) =~= skipped_names());
    r
}

/// Whether a directory of this name is left out of the search for apps.
pub fn is_skipped_directory(name: &str) -> (r: bool)
    ensures
        r == skipped_names().contains(name@),
{
    let names = skipped_directory_names();
    let ghost v = names@.map_values(|s: &str| s@);
    let mut i: usize = 0;
    while i < names.len()
        invariant
            i <= names.len(),
            v == names@.map_values(|s: &str| s@),
            v == skipped_names(),
            forall|j: int| 0 <= j < i ==> v[j] != name@,
        decreases names.len() - i,
    {
        let candidate = names[i];
        assert(v[i as int] == candidate@);
        if String::from_str(candidate) == String::from_str(name) {
            return true;
        }
        i = i + 1;
    }
    false
}

/// What a project is: its apps under their names.
pub type ProjectView = Seq<(Seq<char>, AppView)>;

/// The app that the directory `dir` holds, where it is a migrations
/// directory with a `max_migration.txt`: its name and the app, or the
/// error met loading it.
pub open spec fn app_found(dir: Seq<char>, files: Seq<(Seq<char>, Seq<char>)>) -> Option<
    Result<(Seq<char>, AppView), Seq<char>>,
> {
    if file_name_of(dir) == Some("migrations"@) && source_of(files, max_migration_path(dir)) is Some {
        Some(
            match created_app(parent_text(dir), files) {
                Err(e) => Err(e),
                Ok(a) => if has_app_name(a.directory) {
                    Ok((app_name_of(a.directory), a))
                } else {
                    Err("Invalid app directory for migrations folder: "@ + dir)
                },
            },
        )
    } else {
        None
    }
}

/// The apps that the directories `dirs` hold, in the order of the
/// directories, one per name (the later one kept); the first error met
/// stops the search.
pub open spec fn apps_found(dirs: Seq<Seq<char>>, files: Seq<(Seq<char>, Seq<char>)>) -> Result<ProjectView, Seq<char>>
    decreases dirs.len(),
{
    if dirs.len() == 0 {
        Ok(Seq::empty())
    } else {
        match apps_found(dirs.drop_last(), files) {
            Err(e) => Err(e),
            Ok(found) => match app_found(dirs.last(), files) {
                None => Ok(found),
                Some(Err(e)) => Err(e),
                Some(Ok(entry)) => Ok(keyed_insert(found, entry.0, entry.1)),
            },
        }
    }
}

/// Every app of the project keeps well-formed names for its migrations.
pub open spec fn apps_well_formed(apps: ProjectView) -> bool {
    forall|i: int|
        0 <= i < apps.len() ==> names_well_formed(#[trigger] apps[i].1.heads) && names_well_formed(apps[i].1.rebased)
}

/// A Django project with its apps.
#[derive(Debug)]
pub struct DjangoProject {
    /// The apps, each under its name.
    pub apps: Vec<(String, DjangoApp)>,
}

/// The views of a list of apps under their names.
pub open spec fn apps_view(v: Seq<(String, DjangoApp)>) -> ProjectView {
    v.map_values(|e: (String, DjangoApp)| (e.0@, e.1@))
}

impl View for DjangoProject {
    type V = ProjectView;

    open spec fn view(&self) -> ProjectView {
        apps_view(self.apps@)
    }
}

/// The position of the app named `name` among `apps`.
fn find_app(apps: &Vec<(String, DjangoApp)>, name: &String) -> (r: Option<usize>)
    ensures
        match r {
            Some(k) => k < apps@.len() && key_index(apps_view(apps@), name@) == k,
            None => key_index(apps_view(apps@), name@) == -1,
        },
{
    let ghost s = apps_view(apps@);
    let mut i: usize = 0;
    while i < apps.len()
        invariant
            i <= apps.len(),
            s == apps_view(apps@),
            forall|j: int| 0 <= j < i ==> s[j].0 != name@,
        decreases apps.len() - i,
    {
        if apps[i].0 == *name {
            proof {
                lemma_key_index(s, name@, i as int);
            }
            return Some(i);
        }
        i = i + 1;
    }
    proof {
        lemma_key_index(s, name@, s.len() as int);
    }
    None
}

/// The search stops at the first error.
proof fn lemma_apps_found_stops(dirs: Seq<Seq<char>>, files: Seq<(Seq<char>, Seq<char>)>, k: int)
    requires
        0 <= k <= dirs.len(),
        apps_found(dirs.take(k), files) is Err,
    ensures
        apps_found(dirs, files) == apps_found(dirs.take(k), files),
    decreases dirs.len() - k,
{
    if k < dirs.len() {
        assert(dirs.take(k + 1).drop_last() =~= dirs.take(k));
        lemma_apps_found_stops(dirs, files, k + 1);
    } else {
        assert(dirs.take(k) =~= dirs);
    }
}

/// The apps found are one per name.
pub proof fn lemma_apps_found_distinct(dirs: Seq<Seq<char>>, files: Seq<(Seq<char>, Seq<char>)>)
    ensures
        apps_found(dirs, files) matches Ok(p) ==> keys_distinct(p),
    decreases dirs.len(),
{
    if dirs.len() > 0 {
        lemma_apps_found_distinct(dirs.drop_last(), files);
        match apps_found(dirs.drop_last(), files) {
            Ok(found) => match app_found(dirs.last(), files) {
                Some(Ok(entry)) => lemma_keyed_insert_distinct(found, entry.0, entry.1),
                _ => {},
            },
            Err(_) => {},
        }
    }
}

impl DjangoProject {
    /// Finds the apps of a project in `tree`: each of its directories, in
    /// their order, that is named `migrations` and holds
    /// `max_migration.txt` is loaded as an app, which is kept under its
    /// name in place of an earlier app of that name.
    pub fn from_tree(tree: &FileTree) -> (r: Result<DjangoProject, String>)
        requires
            crate::migration::file::sources_fit(sources_view(tree.files@)),
        ensures
            match r {
                Ok(p) => apps_found(texts(tree.directories@), sources_view(tree.files@))
                    == Ok::<ProjectView, Seq<char>>(p@),
                Err(e) => apps_found(texts(tree.directories@), sources_view(tree.files@))
                    == Err::<ProjectView, Seq<char>>(e@),
            },
            r matches Ok(p) ==> apps_well_formed(p@),
            r matches Ok(p) ==> keys_distinct(p@),
    {
        proof {
            lemma_apps_found_distinct(texts(tree.directories@), sources_view(tree.files@));
        }
        let ghost dirs = texts(tree.directories@);
        let ghost files = sources_view(tree.files@);
        let mut apps: Vec<(String, DjangoApp)> = Vec::new();
        let mut i: usize = 0;
        assert(dirs.take(0) =~= Seq::<Seq<char>>::empty());
        assert(apps_view(apps@) =~= Seq::<(Seq<char>, AppView)>::empty());
        while i < tree.directories.len()
            invariant
                i <= tree.directories.len(),
                dirs == texts(tree.directories@),
                files == sources_view(tree.files@),
                crate::migration::file::sources_fit(files),
                apps_found(dirs.take(i as int), files) == Ok::<ProjectView, Seq<char>>(apps_view(apps@)),
                apps_well_formed(apps_view(apps@)),
            decreases tree.directories.len() - i,
        {
            let dir = &tree.directories[i];
            proof {
                assert(dirs.take(i + 1).drop_last() =~= dirs.take(i as int));
                assert(dirs.take(i + 1).last() == dir@);
            }
            let is_migrations = match file_name(dir.as_str()) {
                Some(n) => n == String::from_str(MIGRATIONS),
                None => false,
            };
            if is_migrations {
                let max_path = join(dir.as_str(), MAX_MIGRATION_TXT);
                if find_source(&tree.files, max_path.as_str()).is_some() {
                    let app_path = parent_path(dir.as_str());
                    let app = match DjangoApp::create(app_path.as_str(), &tree.files) {
                        Ok(a) => a,
                        Err(e) => {
                            proof {
                                lemma_apps_found_stops(dirs, files, i + 1);
                            }
                            return Err(e);
                        },
                    };
                    if components(app.directory.as_str()).len() < 2 {
                        let mut msg = String::from_str("Invalid app directory for migrations folder: ");
                        msg.append(dir.as_str());
                        proof {
                            lemma_apps_found_stops(dirs, files, i + 1);
                        }
                        return Err(msg);
                    }
                    let name = app.get_app_name();
                    let ghost before = apps_view(apps@);
                    proof {
                        lemma_keyed_insert_entries(before, app_name_of(app@.directory), app@);
                        assert(app@.rebased =~= Seq::<MigrationView>::empty());
                    }
                    match find_app(&apps, &name) {
                        Some(k) => {
                            apps.set(k, (name, app));
                            assert(apps_view(apps@) =~= keyed_insert(before, app_name_of(app@.directory), app@));
                        },
                        None => {
                            apps.push((name, app));
                            assert(apps_view(apps@) =~= keyed_insert(before, app_name_of(app@.directory), app@));
                        },
                    }
                }
            }
            i = i + 1;
        }
        assert(dirs.take(tree.directories.len() as int) =~= dirs);
        Ok(DjangoProject { apps })
    }
}

/// The renames planned for the migrations `ms`, in their order.
pub open spec fn migration_renames(ms: Seq<MigrationView>) -> Seq<(Seq<char>, Seq<char>)>
    decreases ms.len(),
{
    if ms.len() == 0 {
        Seq::empty()
    } else {
        let rest = migration_renames(ms.drop_last());
        match ms.last().name_change {
            Some(c) => rest.push(c),
            None => rest,
        }
    }
}

/// The renames of each app under the app's name: those of its HEAD
/// migrations, then those of its rebased ones.
pub open spec fn project_lookup(apps: ProjectView) -> Seq<(Seq<char>, Seq<(Seq<char>, Seq<char>)>)>
    decreases apps.len(),
{
    if apps.len() == 0 {
        Seq::empty()
    } else {
        let a = apps.last().1;
        keyed_insert(
            project_lookup(apps.drop_last()),
            app_name_of(a.directory),
            migration_renames(a.heads) + migration_renames(a.rebased),
        )
    }
}

/// App `a` has a name, and a latest HEAD migration where its dependency
/// update needs one.
pub open spec fn app_updatable(a: AppView, same_app: bool) -> bool {
    &&& has_app_name(a.directory)
    &&& head_needed(a, same_app) ==> highest_migration(a.heads, a.rebased, a.max, true) is Ok
}

/// The renames table holds one entry per app name.
pub proof fn lemma_project_lookup_distinct(apps: ProjectView)
    ensures
        keys_distinct(project_lookup(apps)),
    decreases apps.len(),
{
    if apps.len() > 0 {
        let a = apps.last().1;
        lemma_project_lookup_distinct(apps.drop_last());
        lemma_keyed_insert_distinct(
            project_lookup(apps.drop_last()),
            app_name_of(a.directory),
            migration_renames(a.heads) + migration_renames(a.rebased),
        );
    }
}

/// Entries that keep their keys keep them distinct.
pub proof fn lemma_same_keys_distinct<V, W>(l: Seq<(Seq<char>, V)>, m: Seq<(Seq<char>, W)>)
    requires
        keys_distinct(l),
        m.len() == l.len(),
        forall|i: int| 0 <= i < l.len() ==> #[trigger] m[i].0 == l[i].0,
    ensures
        keys_distinct(m),
{
    assert forall|i: int, j: int| #![trigger m[i], m[j]] 0 <= i < j < m.len() implies m[i].0 != m[j].0 by {
        assert(m[i].0 == l[i].0 && m[j].0 == l[j].0);
    }
}

/// The migrations `ms` of `app` are to depend on no migration of another
/// app that the renames table `l` renames, unless that name is itself the
/// new name of one of its renames.
pub open spec fn follows_renames(
    ms: Seq<MigrationView>,
    app: Seq<char>,
    l: Seq<(Seq<char>, Seq<(Seq<char>, Seq<char>)>)>,
) -> bool {
    forall|j: int, k: int|
        #![trigger planned_dependencies(ms[j])[k]]
        0 <= j < ms.len() && 0 <= k < planned_dependencies(ms[j]).len() && planned_dependencies(ms[j])[k].0 != app
            ==> renamed_in(l, planned_dependencies(ms[j])[k].0, planned_dependencies(ms[j])[k].1) is None || (
        lookup_get(l, planned_dependencies(ms[j])[k].0) matches Some(rs) && exists|t: int|
            0 <= t < rs.len() && (#[trigger] rs[t]).1 == planned_dependencies(ms[j])[k].1)
}

/// A dependency update keeps the planned renames.
proof fn lemma_update_keeps_renames(
    ms: Seq<MigrationView>,
    same_app: bool,
    app: Seq<char>,
    lc: Option<Seq<char>>,
    head: Seq<char>,
    l: Seq<(Seq<char>, Seq<(Seq<char>, Seq<char>)>)>,
)
    ensures
        migration_renames(dependencies_updated(ms, same_app, app, lc, head, l)) == migration_renames(ms),
    decreases ms.len(),
{
    if ms.len() > 0 {
        let u = dependencies_updated(ms, same_app, app, lc, head, l);
        assert(u.drop_last() =~= dependencies_updated(ms.drop_last(), same_app, app, lc, head, l));
        lemma_update_keeps_renames(ms.drop_last(), same_app, app, lc, head, l);
        assert(u.last() == dependency_updated(ms.last(), same_app, app, lc, head, l));
    }
}

/// Updating the dependencies of every app with one renames table keeps the
/// project's renames table.
proof fn lemma_update_keeps_lookup(
    apps: ProjectView,
    same_app: bool,
    l: Seq<(Seq<char>, Seq<(Seq<char>, Seq<char>)>)>,
)
    ensures
        project_lookup(apps.map_values(|e: (Seq<char>, AppView)| (e.0, app_dependencies_updated(e.1, same_app, l))))
            == project_lookup(apps),
    decreases apps.len(),
{
    if apps.len() > 0 {
        let u = apps.map_values(|e: (Seq<char>, AppView)| (e.0, app_dependencies_updated(e.1, same_app, l)));
        assert(u.drop_last() =~= apps.drop_last().map_values(
            |e: (Seq<char>, AppView)| (e.0, app_dependencies_updated(e.1, same_app, l)),
        ));
        lemma_update_keeps_lookup(apps.drop_last(), same_app, l);
        let a = apps.last().1;
        let b = u.last().1;
        let app = app_name_of(a.directory);
        lemma_update_keeps_renames(a.heads, same_app, app, a.last_common, head_name_or_empty(a), l);
        lemma_update_keeps_renames(a.rebased, same_app, app, a.last_common, head_name_or_empty(a), l);
    }
}

/// After the update across apps, the migrations of `app` depend on no
/// renamed migration of another app but through its new name.
proof fn lemma_cross_pass_follows(
    ms: Seq<MigrationView>,
    app: Seq<char>,
    lc: Option<Seq<char>>,
    head: Seq<char>,
    l: Seq<(Seq<char>, Seq<(Seq<char>, Seq<char>)>)>,
)
    ensures
        follows_renames(dependencies_updated(ms, false, app, lc, head, l), app, l),
{
    let u = dependencies_updated(ms, false, app, lc, head, l);
    assert forall|j: int, k: int|
        #![trigger planned_dependencies(u[j])[k]]
        0 <= j < u.len() && 0 <= k < planned_dependencies(u[j]).len() && planned_dependencies(u[j])[k].0 != app
            implies renamed_in(l, planned_dependencies(u[j])[k].0, planned_dependencies(u[j])[k].1) is None || (
        lookup_get(l, planned_dependencies(u[j])[k].0) matches Some(rs) && exists|t: int|
            0 <= t < rs.len() && (#[trigger] rs[t]).1 == planned_dependencies(u[j])[k].1) by {
        let m = ms[j];
        let base = planned_dependencies(m);
        let cross = cross_app_updated_dependencies(base, app, l);
        assert(u[j] == dependency_updated(m, false, app, lc, head, l));
        if !(m.dependency_change is Some || has_cross_app_update(base, app, l)) {
            assert(cross =~= base) by {
                assert forall|x: int| 0 <= x < base.len() implies #[trigger] cross[x] == base[x] by {
                    assert(!(cross_app_update(base[x], app, l) is Some));
                }
            }
        }
        assert(planned_dependencies(u[j]) == cross);
        let d = base[k];
        let e = cross[k];
        assert(e == updated(d, cross_app_update(d, app, l)));
        match cross_app_update(d, app, l) {
            Some(n) => {
                let rs = lookup_get(l, d.0)->Some_0;
                lemma_first_rename_exact(rs, d.1);
                let t = choose|t: int|
                    0 <= t < rs.len() && #[trigger] rs[t] == (d.1, n.1) && forall|x: int| 0 <= x < t ==> (#[trigger] rs[x]).0 != d.1;
                assert(rs[t].1 == e.1);
            },
            None => {},
        }
    }
}

/// After planning, the migrations of every app depend on no migration of
/// another app that the plan renames, unless that name is the new name of
/// one of the plan's renames: the update across apps follows the renames
/// of every app, including those the same plan makes.
pub proof fn lemma_plan_follows_renames(apps: ProjectView, files: Seq<(Seq<char>, Seq<char>)>)
    ensures
        project_planned(apps, files) matches Ok(p) ==> forall|i: int|
            0 <= i < p.len() ==> {
                &&& follows_renames(#[trigger] p[i].1.heads, app_name_of(p[i].1.directory), project_lookup(p))
                &&& follows_renames(p[i].1.rebased, app_name_of(p[i].1.directory), project_lookup(p))
            },
{
    if project_planned(apps, files) is Ok {
        let q = apps_rebase_planned(apps, files)->Ok_0;
        let p1 = project_dependencies_updated(q, true);
        let l1 = project_lookup(p1);
        let p = project_dependencies_updated(p1, false);
        assert(project_planned(apps, files) == Ok::<ProjectView, Seq<char>>(p));
        lemma_update_keeps_lookup(p1, false, l1);
        assert(p =~= p1.map_values(|e: (Seq<char>, AppView)| (e.0, app_dependencies_updated(e.1, false, l1))));
        assert(project_lookup(p) == l1);
        assert forall|i: int| 0 <= i < p.len() implies {
            &&& follows_renames(#[trigger] p[i].1.heads, app_name_of(p[i].1.directory), project_lookup(p))
            &&& follows_renames(p[i].1.rebased, app_name_of(p[i].1.directory), project_lookup(p))
        } by {
            let a = p1[i].1;
            let app = app_name_of(a.directory);
            lemma_cross_pass_follows(a.heads, app, a.last_common, head_name_or_empty(a), l1);
            lemma_cross_pass_follows(a.rebased, app, a.last_common, head_name_or_empty(a), l1);
        }
    }
}

/// Every app of the project can have its dependencies updated.
pub open spec fn apps_updatable(apps: ProjectView, same_app: bool) -> bool {
    forall|i: int| 0 <= i < apps.len() ==> app_updatable(#[trigger] apps[i].1, same_app)
}

/// App `a` after the update of its dependencies with the renames `l`.
pub open spec fn app_dependencies_updated(
    a: AppView,
    same_app: bool,
    l: Seq<(Seq<char>, Seq<(Seq<char>, Seq<char>)>)>,
) -> AppView {
    let head = head_name_or_empty(a);
    let app = app_name_of(a.directory);
    AppView {
        heads: dependencies_updated(a.heads, same_app, app, a.last_common, head, l),
        directory: a.directory,
        last_common: a.last_common,
        max: a.max,
        rebased: dependencies_updated(a.rebased, same_app, app, a.last_common, head, l),
    }
}

/// The project after the update of every app's dependencies with the
/// renames of all apps.
pub open spec fn project_dependencies_updated(apps: ProjectView, same_app: bool) -> ProjectView {
    let l = project_lookup(apps);
    apps.map_values(|e: (Seq<char>, AppView)| (e.0, app_dependencies_updated(e.1, same_app, l)))
}

/// Adds the renames planned for the migrations of `ms`.
fn collect_renames(out: &mut Vec<MigrationFileNameChange>, ms: &Vec<Migration>)
    ensures
        renames_view(final(out)@) == renames_view(old(out)@) + migration_renames(migrations_view(ms@)),
{
    let ghost start = renames_view(out@);
    let ghost v = migrations_view(ms@);
    let mut i: usize = 0;
    assert(v.take(0) =~= Seq::<MigrationView>::empty());
    assert(start + Seq::<(Seq<char>, Seq<char>)>::empty() =~= start);
    while i < ms.len()
        invariant
            i <= ms.len(),
            v == migrations_view(ms@),
            renames_view(out@) == start + migration_renames(v.take(i as int)),
        decreases ms.len() - i,
    {
        proof {
            assert(v.take(i + 1).drop_last() =~= v.take(i as int));
            assert(v.take(i + 1).last() == ms@[i as int]@);
        }
        let ghost before = renames_view(out@);
        match &ms[i].name_change {
            Some(c) => {
                out.push(c.duplicate());
                assert(renames_view(out@) =~= before.push((c.old_name@, c.new_name@)));
                assert(start + migration_renames(v.take(i as int)).push((c.old_name@, c.new_name@)) =~= (start
                    + migration_renames(v.take(i as int))).push((c.old_name@, c.new_name@)));
            },
            None => {},
        }
        i = i + 1;
    }
    assert(v.take(ms.len() as int) =~= v);
}

/// The position of the entry for `name` in the renames table.
fn find_lookup_entry(l: &Vec<(String, Vec<MigrationFileNameChange>)>, name: &String) -> (r: Option<usize>)
    ensures
        match r {
            Some(k) => k < l@.len() && key_index(lookup_view(l@), name@) == k,
            None => key_index(lookup_view(l@), name@) == -1,
        },
{
    let ghost s = lookup_view(l@);
    let mut i: usize = 0;
    while i < l.len()
        invariant
            i <= l.len(),
            s == lookup_view(l@),
            forall|j: int| 0 <= j < i ==> s[j].0 != name@,
        decreases l.len() - i,
    {
        if l[i].0 == *name {
            proof {
                lemma_key_index(s, name@, i as int);
            }
            return Some(i);
        }
        i = i + 1;
    }
    proof {
        lemma_key_index(s, name@, s.len() as int);
    }
    None
}

/// The renames of each app of `apps`, under the app's name.
fn build_lookup(apps: &Vec<(String, DjangoApp)>) -> (r: Vec<(String, Vec<MigrationFileNameChange>)>)
    requires
        forall|i: int| 0 <= i < apps@.len() ==> has_app_name(#[trigger] apps@[i].1.directory@),
    ensures
        lookup_view(r@) == project_lookup(apps_view(apps@)),
        keys_distinct(lookup_view(r@)),
{
    proof {
        lemma_project_lookup_distinct(apps_view(apps@));
    }
    let ghost v = apps_view(apps@);
    let mut l: Vec<(String, Vec<MigrationFileNameChange>)> = Vec::new();
    let mut i: usize = 0;
    assert(v.take(0) =~= Seq::<(Seq<char>, AppView)>::empty());
    assert(lookup_view(l@) =~= Seq::<(Seq<char>, Seq<(Seq<char>, Seq<char>)>)>::empty());
    while i < apps.len()
        invariant
            i <= apps.len(),
            v == apps_view(apps@),
            forall|i: int| 0 <= i < apps@.len() ==> has_app_name(#[trigger] apps@[i].1.directory@),
            lookup_view(l@) == project_lookup(v.take(i as int)),
        decreases apps.len() - i,
    {
        let app = &apps[i].1;
        proof {
            assert(v.take(i + 1).drop_last() =~= v.take(i as int));
            assert(v.take(i + 1).last().1 == app@);
            assert(has_app_name(apps@[i as int].1.directory@));
        }
        let name = app.get_app_name();
        let mut changes: Vec<MigrationFileNameChange> = Vec::new();
        collect_renames(&mut changes, &app.head_migrations);
        collect_renames(&mut changes, &app.rebased_migrations);
        assert(renames_view(changes@) =~= migration_renames(app@.heads) + migration_renames(app@.rebased));
        let ghost before = lookup_view(l@);
        match find_lookup_entry(&l, &name) {
            Some(k) => {
                l.set(k, (name, changes));
                assert(lookup_view(l@) =~= keyed_insert(before, app_name_of(app@.directory), renames_view(changes@)));
            },
            None => {
                l.push((name, changes));
                assert(lookup_view(l@) =~= keyed_insert(before, app_name_of(app@.directory), renames_view(changes@)));
            },
        }
        i = i + 1;
    }
    assert(v.take(apps.len() as int) =~= v);
    l
}

impl DjangoProject {
    /// Updates the dependencies of every app's migrations after the
    /// renames of all apps: the renames are gathered per app, then each
    /// app updates its dependencies with them (within the app with
    /// `same_app`, across apps otherwise).
    pub fn create_migration_dependency_changes(&mut self, same_app: bool)
        requires
            apps_updatable(old(self)@, same_app),
        ensures
            final(self)@ == project_dependencies_updated(old(self)@, same_app),
            keys_distinct(old(self)@) ==> keys_distinct(final(self)@),
    {
        let ghost start = self@;
        proof {
            assert forall|i: int| 0 <= i < self.apps@.len() implies has_app_name(#[trigger] self.apps@[i].1.directory@) by {
                assert(start[i].1 == self.apps@[i].1@);
                assert(has_app_name(start[i].1.directory));
            }
        }
        let lookup = build_lookup(&self.apps);
        let ghost l = project_lookup(start);
        let ghost target = project_dependencies_updated(start, same_app);
        let mut i: usize = 0;
        while i < self.apps.len()
            invariant
                i <= self.apps@.len(),
                self.apps@.len() == start.len(),
                apps_updatable(start, same_app),
                lookup_view(lookup@) == l,
                l == project_lookup(start),
                target == project_dependencies_updated(start, same_app),
                forall|j: int| 0 <= j < i ==> #[trigger] apps_view(self.apps@)[j] == target[j],
                forall|j: int| i <= j < start.len() ==> #[trigger] apps_view(self.apps@)[j] == start[j],
            decreases self.apps@.len() - i,
        {
            let ghost before = apps_view(self.apps@);
            assert(before[i as int] == start[i as int]);
            assert(has_app_name(start[i as int].1.directory));
            self.apps[i].1.create_migration_dependency_changes(same_app, &lookup);
            proof {
                assert forall|j: int| 0 <= j < start.len() && j != i implies #[trigger] apps_view(self.apps@)[j]
                    == before[j] by {}
                assert(apps_view(self.apps@)[i as int] == target[i as int]);
            }
            i = i + 1;
        }
        assert(apps_view(self.apps@) =~= target);
        proof {
            if keys_distinct(start) {
                lemma_same_keys_distinct(start, target);
            }
        }
    }
}

/// The changes of the files of the apps, app after app.
pub open spec fn project_file_changes(apps: ProjectView) -> Seq<FileChange>
    decreases apps.len(),
{
    if apps.len() == 0 {
        Seq::empty()
    } else {
        app_file_changes(apps[0].1) + project_file_changes(apps.drop_first())
    }
}

impl DjangoProject {
    /// Carries out the planned changes of every app, app after app; it
    /// stops at the first change that fails and returns its error.
    pub fn apply_changes<
        N: Fn(String, String) -> Result<(), String>,
        R: Fn(String) -> Result<String, String>,
        W: Fn(String, String) -> Result<(), String>,
    >(&self, rename: &N, read: &R, write: &W) -> (r: Result<(), String>)
        requires
            forall|a: String, b: String| call_requires(*rename, (a, b)),
            forall|p: String| call_requires(*read, (p,)),
            forall|p: String, c: String| call_requires(*write, (p, c)),
            crate::migration::change::reads_fit(*read),
        ensures
            changes_made(project_file_changes(self@), r, *rename, *read, *write),
    {
        let ghost v = self@;
        let ghost cs = project_file_changes(v);
        let mut i: usize = 0;
        assert(v.skip(0) =~= v);
        while i < self.apps.len()
            invariant
                i <= self.apps@.len(),
                v == self@,
                cs == project_file_changes(v),
                forall|a: String, b: String| call_requires(*rename, (a, b)),
                forall|p: String| call_requires(*read, (p,)),
                forall|p: String, c: String| call_requires(*write, (p, c)),
                crate::migration::change::reads_fit(*read),
                forall|rest: Result<(), String>|
                    changes_made(project_file_changes(v.skip(i as int)), rest, *rename, *read, *write)
                        ==> #[trigger] changes_made(cs, rest, *rename, *read, *write),
            decreases self.apps@.len() - i,
        {
            let app = &self.apps[i].1;
            let ri = app.apply_changes(rename, read, write);
            proof {
                let here = app_file_changes(app@);
                let later = project_file_changes(v.skip(i + 1));
                assert(v.skip(i as int)[0].1 == app@);
                assert(v.skip(i as int).drop_first() =~= v.skip(i + 1));
                assert(project_file_changes(v.skip(i as int)) == here + later);
                if ri is Err {
                    lemma_changes_made_append(here, later, ri, ri, *rename, *read, *write);
                } else {
                    assert forall|rest: Result<(), String>|
                        changes_made(later, rest, *rename, *read, *write) implies #[trigger] changes_made(
                        cs,
                        rest,
                        *rename,
                        *read,
                        *write,
                    ) by {
                        lemma_changes_made_append(here, later, ri, rest, *rename, *read, *write);
                    }
                }
            }
            if ri.is_err() {
                return ri;
            }
            i = i + 1;
        }
        proof {
            assert(v.skip(self.apps@.len() as int) =~= Seq::<(Seq<char>, AppView)>::empty());
            assert(changes_made(Seq::<FileChange>::empty(), Ok::<(), String>(()), *rename, *read, *write));
        }
        Ok(())
    }
}

/// App `a` with its rebase planned: where `max_migration.txt` holds a
/// conflict, the last common migration is found from its incoming side,
/// then the renames of the rebased migrations are planned.
#[verifier::opaque]
pub open spec fn app_rebase_planned(a: AppView, files: Seq<(Seq<char>, Seq<char>)>) -> Result<AppView, Seq<char>> {
    match a.max {
        MaxMigrationView::Conflict(_, incoming) => match last_common_outcome(a, incoming, files) {
            Err(e) => Err(e),
            Ok(n) => name_changes_outcome(with_last_common(a, n), incoming, files),
        },
        _ => Ok(a),
    }
}

/// The apps with their rebases planned, in their order; the first error
/// stops the planning.
pub open spec fn apps_rebase_planned(apps: ProjectView, files: Seq<(Seq<char>, Seq<char>)>) -> Result<
    ProjectView,
    Seq<char>,
>
    decreases apps.len(),
{
    if apps.len() == 0 {
        Ok(Seq::empty())
    } else {
        match app_rebase_planned(apps[0].1, files) {
            Err(e) => Err(e),
            Ok(a) => match apps_rebase_planned(apps.drop_first(), files) {
                Err(e) => Err(e),
                Ok(rest) => Ok(seq![(apps[0].0, a)] + rest),
            },
        }
    }
}

/// The plan for a project: each app's rebase, then the dependency updates
/// within each app, then across apps. A project without apps is refused.
pub open spec fn project_planned(apps: ProjectView, files: Seq<(Seq<char>, Seq<char>)>) -> Result<
    ProjectView,
    Seq<char>,
> {
    if apps.len() == 0 {
        Err("No Django apps with migrations found."@)
    } else {
        match apps_rebase_planned(apps, files) {
            Err(e) => Err(e),
            Ok(p) => Ok(project_dependencies_updated(project_dependencies_updated(p, true), false)),
        }
    }
}

/// Planning the renames keeps the latest HEAD migration.
proof fn lemma_name_changes_keep(a: AppView, incoming: Seq<char>, files: Seq<(Seq<char>, Seq<char>)>)
    ensures
        name_changes_outcome(a, incoming, files) matches Ok(b) ==> {
            &&& b.heads == a.heads
            &&& b.directory == a.directory
            &&& highest_migration(a.heads, a.rebased, a.max, true) is Ok ==> highest_migration(
                b.heads,
                b.rebased,
                b.max,
                true,
            ) == highest_migration(a.heads, a.rebased, a.max, true)
        },
{
    if a.last_common is Some && name_changes_outcome(a, incoming, files) is Ok {
        let b = name_changes_outcome(a, incoming, files)->Ok_0;
        match a.max {
            MaxMigrationView::Conflict(h, _) => {
                if b.rebased.len() > 0 {
                    assert(b.max is Found);
                    assert(b.max->Found_0 == h);
                } else {
                    assert(b.max == a.max);
                }
            },
            _ => {
                assert(b.max == a.max);
            },
        }
    }
}

/// App `a` can have its rebase planned: it has a name; where
/// `max_migration.txt` holds a conflict, its migrations have well-formed
/// names and it has a latest HEAD migration, which the renumbering starts
/// from; and it has one where its dependency update within the app needs
/// one.
pub open spec fn app_plannable(a: AppView) -> bool {
    &&& has_app_name(a.directory)
    &&& a.max is Conflict ==> {
        &&& names_well_formed(a.heads)
        &&& names_well_formed(a.rebased)
        &&& highest_migration(a.heads, a.rebased, a.max, true) is Ok
    }
    &&& head_needed(a, true) ==> highest_migration(a.heads, a.rebased, a.max, true) is Ok
}

/// Every app of the project can have its rebase planned.
pub open spec fn apps_plannable(apps: ProjectView) -> bool {
    forall|i: int| 0 <= i < apps.len() ==> app_plannable(#[trigger] apps[i].1)
}

/// Plans the rebase of one app: where `max_migration.txt` holds a
/// conflict, finds the last common migration from its incoming side and
/// plans the renames.
fn plan_app(app: &mut DjangoApp, files: &Vec<SourceFile>) -> (r: Result<(), String>)
    requires
        crate::migration::file::sources_fit(sources_view(files@)),
        app_plannable(old(app)@),
    ensures
        match r {
            Ok(_) => app_rebase_planned(old(app)@, sources_view(files@)) == Ok::<AppView, Seq<char>>(final(app)@)
                && app_updatable(final(app)@, true),
            Err(e) => app_rebase_planned(old(app)@, sources_view(files@)) == Err::<AppView, Seq<char>>(e@),
        },
{
    reveal(app_rebase_planned);
    let conflict = match &app.max_migration_result {
        MaxMigrationResult::Conflict(c) => Some(c.duplicate()),
        _ => None,
    };
    match conflict {
        Some(c) => {
            app.set_last_common_migration(c.incoming_change.duplicate(), files)?;
            proof {
                lemma_name_changes_keep(app@, c.incoming_change@, sources_view(files@));
            }
            app.create_migration_name_changes(c, files)?;
            Ok(())
        },
        None => Ok(()),
    }
}

/// After a dependency update every app still has a name, and an update
/// across apps needs no latest HEAD migration.
proof fn lemma_updated_updatable(apps: ProjectView, same_app: bool)
    requires
        forall|i: int| 0 <= i < apps.len() ==> has_app_name(#[trigger] apps[i].1.directory),
    ensures
        apps_updatable(project_dependencies_updated(apps, same_app), false),
{
    let u = project_dependencies_updated(apps, same_app);
    assert forall|i: int| 0 <= i < u.len() implies app_updatable(#[trigger] u[i].1, false) by {
        assert(has_app_name(apps[i].1.directory));
    }
}

/// One more app planned: the plan of the project is the planned apps so
/// far followed by the plan of the rest.
proof fn lemma_planned_step(
    start: ProjectView,
    files: Seq<(Seq<char>, Seq<char>)>,
    i: int,
    done: ProjectView,
    next: (Seq<char>, AppView),
)
    requires
        0 <= i < start.len(),
        done.len() == i,
        apps_rebase_planned(start, files) == match apps_rebase_planned(start.skip(i), files) {
            Ok(rest) => Ok::<ProjectView, Seq<char>>(done + rest),
            Err(e) => Err::<ProjectView, Seq<char>>(e),
        },
        app_rebase_planned(start[i].1, files) == Ok::<AppView, Seq<char>>(next.1),
        next.0 == start[i].0,
    ensures
        apps_rebase_planned(start, files) == match apps_rebase_planned(start.skip(i + 1), files) {
            Ok(rest) => Ok::<ProjectView, Seq<char>>(done.push(next) + rest),
            Err(e) => Err::<ProjectView, Seq<char>>(e),
        },
{
    assert(start.skip(i)[0] == start[i]);
    assert(start.skip(i).drop_first() =~= start.skip(i + 1));
    match apps_rebase_planned(start.skip(i + 1), files) {
        Ok(rest) => {
            assert(done + (seq![next] + rest) =~= done.push(next) + rest);
        },
        Err(_) => {},
    }
}

/// An app whose planning fails makes the project's planning fail.
proof fn lemma_planned_fails(start: ProjectView, files: Seq<(Seq<char>, Seq<char>)>, i: int, done: ProjectView)
    requires
        0 <= i < start.len(),
        apps_rebase_planned(start, files) == match apps_rebase_planned(start.skip(i), files) {
            Ok(rest) => Ok::<ProjectView, Seq<char>>(done + rest),
            Err(e) => Err::<ProjectView, Seq<char>>(e),
        },
        app_rebase_planned(start[i].1, files) is Err,
    ensures
        project_planned(start, files) == Err::<ProjectView, Seq<char>>(app_rebase_planned(start[i].1, files)->Err_0),
{
    assert(start.skip(i)[0] == start[i]);
}

impl DjangoProject {
    /// Plans the rebase of the project: for each app whose
    /// `max_migration.txt` holds a conflict, the last migration that both
    /// branches share is found and the rebased migrations are renumbered;
    /// then the dependencies are updated within each app and across apps.
    /// The first error stops the planning.
    pub fn plan_changes(&mut self, files: &Vec<SourceFile>) -> (r: Result<(), String>)
        requires
            crate::migration::file::sources_fit(sources_view(files@)),
            apps_plannable(old(self)@),
        ensures
            match r {
                Ok(_) => project_planned(old(self)@, sources_view(files@)) == Ok::<ProjectView, Seq<char>>(final(self)@),
                Err(e) => project_planned(old(self)@, sources_view(files@)) == Err::<ProjectView, Seq<char>>(e@),
            },
            final(self)@.len() == old(self)@.len(),
            forall|i: int| 0 <= i < old(self)@.len() ==> #[trigger] final(self)@[i].0 == old(self)@[i].0,
            keys_distinct(old(self)@) ==> keys_distinct(final(self)@),
    {
        if self.apps.len() == 0 {
            return Err(String::from_str("No Django apps with migrations found."));
        }
        let ghost start = self@;
        let ghost fv = sources_view(files@);
        let mut i: usize = 0;
        assert(start.skip(0) =~= start);
        proof {
            match apps_rebase_planned(start, fv) {
                Ok(rest) => {
                    assert(self@.take(0) + rest =~= rest);
                },
                Err(_) => {},
            }
        }
        while i < self.apps.len()
            invariant
                i <= self.apps@.len(),
                self.apps@.len() == start.len(),
                fv == sources_view(files@),
                crate::migration::file::sources_fit(fv),
                apps_plannable(start),
                start == old(self)@,
                forall|j: int| 0 <= j < i ==> app_updatable(#[trigger] self@[j].1, true),
                forall|j: int| 0 <= j < start.len() ==> #[trigger] self@[j].0 == start[j].0,
                forall|j: int| i <= j < start.len() ==> #[trigger] self@[j] == start[j],
                apps_rebase_planned(start, fv) == match apps_rebase_planned(start.skip(i as int), fv) {
                    Ok(rest) => Ok::<ProjectView, Seq<char>>(self@.take(i as int) + rest),
                    Err(e) => Err::<ProjectView, Seq<char>>(e),
                },
            decreases self.apps@.len() - i,
        {
            let ghost before = self@;
            proof {
                assert(before[i as int] == start[i as int]);
                assert(app_plannable(start[i as int].1));
            }
            let planned = plan_app(&mut self.apps[i].1, files);
            match planned {
                Ok(_) => {},
                Err(e) => {
                    proof {
                        lemma_planned_fails(start, fv, i as int, before.take(i as int));
                        assert forall|j: int| 0 <= j < start.len() implies #[trigger] self@[j].0 == start[j].0 by {
                            assert(before[j].0 == start[j].0);
                        }
                        if keys_distinct(start) {
                            lemma_same_keys_distinct(start, self@);
                        }
                    }
                    return Err(e);
                },
            }
            proof {
                let now = self@;
                assert(now =~= before.update(i as int, (before[i as int].0, now[i as int].1)));
                lemma_planned_step(start, fv, i as int, before.take(i as int), now[i as int]);
                assert(before.take(i as int).push(now[i as int]) =~= now.take(i + 1));
                assert forall|j: int| 0 <= j < i + 1 implies app_updatable(#[trigger] now[j].1, true) by {
                    if j < i {
                        assert(now[j] == before[j]);
                    }
                }
                assert forall|j: int| 0 <= j < start.len() implies #[trigger] now[j].0 == start[j].0 by {
                    assert(before[j].0 == start[j].0);
                }
            }
            i = i + 1;
        }
        proof {
            assert(start.skip(start.len() as int) =~= Seq::<(Seq<char>, AppView)>::empty());
            assert(self@.take(start.len() as int) + Seq::<(Seq<char>, AppView)>::empty() =~= self@);
            assert forall|j: int| 0 <= j < self@.len() implies has_app_name(#[trigger] self@[j].1.directory) by {
                assert(app_updatable(self@[j].1, true));
            }
            lemma_updated_updatable(self@, true);
        }
        let ghost planned = self@;
        self.create_migration_dependency_changes(true);
        let ghost within = self@;
        self.create_migration_dependency_changes(false);
        proof {
            assert forall|j: int| 0 <= j < start.len() implies #[trigger] self@[j].0 == start[j].0 by {
                assert(planned[j].0 == start[j].0);
                assert(within[j].0 == planned[j].0);
            }
            if keys_distinct(start) {
                lemma_same_keys_distinct(start, self@);
            }
        }
        Ok(())
    }
}

} // verus!
