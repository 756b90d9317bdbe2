//! Loading a Django app out of the files of its migrations directory.

use vstd::prelude::*;
use vstd::string::*;
use crate::migration::change::{migration_file_path, migration_path};
use crate::migration::file::{
    contains_text, find_source, is_well_formed_name, lemma_parsed_name_well_formed, loaded_migration,
    max_migration_path, max_migration_view, migrations_view, source_of, sources_view, FileTree,
    MaxMigrationResult, MaxMigrationView, Migration, MigrationView, SourceFile, MAX_MIGRATION_TXT,
    MIGRATIONS,
};
use crate::migration::group::{names_well_formed, AppView, DjangoApp};
use crate::migration::walk::dependency_walk;
use crate::paths::{file_name_of, join, join_path, texts};
use crate::text::trim_seq;

verus! {

/// What `max_migration.txt` in `dir` holds, read out of `files`; nothing
/// where the file is missing.
pub open spec fn loaded_max_migration(dir: Seq<char>, files: Seq<(Seq<char>, Seq<char>)>) -> MaxMigrationView {
    match source_of(files, max_migration_path(dir)) {
        None => MaxMigrationView::NotFound,
        Some(c) => max_migration_view(trim_seq(c)),
    }
}

/// The position of the first migration of `s` whose file is `p`, or -1.
pub open spec fn path_index(s: Seq<MigrationView>, p: Seq<char>) -> int
    decreases s.len(),
{
    if s.len() == 0 {
        -1
    } else if s[0].file_path == p {
        0
    } else {
        let k = path_index(s.drop_first(), p);
        if k < 0 {
            -1
        } else {
            k + 1
        }
    }
}

/// `s` with `m` in place of the migration of the same file, or with `m`
/// added where there is none: each file holds one migration.
pub open spec fn insert_by_path(s: Seq<MigrationView>, m: MigrationView) -> Seq<MigrationView> {
    let k = path_index(s, m.file_path);
    if k < 0 {
        s.push(m)
    } else {
        s.update(k, m)
    }
}

/// The migrations of `ws`, one per file, the later one kept.
pub open spec fn collected_by_path(ws: Seq<MigrationView>) -> Seq<MigrationView>
    decreases ws.len(),
{
    if ws.len() == 0 {
        Seq::empty()
    } else {
        insert_by_path(collected_by_path(ws.drop_last()), ws.last())
    }
}

/// The HEAD migration that `max_migration.txt` names: the one it holds,
/// or the HEAD side of its conflict.
pub open spec fn named_head(max: MaxMigrationView) -> Option<Seq<char>> {
    match max {
        MaxMigrationView::Found(current, _) => Some(current),
        MaxMigrationView::Conflict(head, _) => Some(head),
        MaxMigrationView::NotFound => None,
    }
}

/// The app whose directory is `app_path`, loaded out of `files`: its HEAD
/// migrations are those met on the walk from the migration that
/// `max_migration.txt` names, and nothing is planned yet.
pub open spec fn created_app(app_path: Seq<char>, files: Seq<(Seq<char>, Seq<char>)>) -> Result<AppView, Seq<char>> {
    let dir = join_path(app_path, "migrations"@);
    let max = loaded_max_migration(dir, files);
    match named_head(max) {
        None => Err("Failed to parse max_migration_file under path "@ + dir),
        Some(h) => match loaded_migration(migration_file_path(dir, h), files) {
            Err(e) => Err(e),
            Ok(start) => Ok(
                AppView {
                    heads: collected_by_path(dependency_walk(start, files)),
                    directory: dir,
                    last_common: None,
                    max,
                    rebased: Seq::empty(),
                },
            ),
        },
    }
}

/// The app at `path`, where its migrations directory is among `dirs` and
/// holds `max_migration.txt`.
pub open spec fn app_at(
    path: Seq<char>,
    dirs: Seq<Seq<char>>,
    files: Seq<(Seq<char>, Seq<char>)>,
) -> Result<AppView, Seq<char>> {
    let dir = join_path(path, "migrations"@);
    if !dirs.contains(dir) {
        Err("Provided path does not contain migrations folder"@)
    } else if source_of(files, max_migration_path(dir)) is None {
        Err("Provided path does not contain max_migrations.txt"@)
    } else {
        created_app(path, files)
    }
}

proof fn lemma_path_index(s: Seq<MigrationView>, p: Seq<char>, i: int)
    requires
        0 <= i <= s.len(),
        forall|j: int| 0 <= j < i ==> s[j].file_path != p,
        i < s.len() ==> s[i].file_path == p,
    ensures
        path_index(s, p) == if i < s.len() {
            i
        } else {
            -1
        },
    decreases s.len(),
{
    if s.len() > 0 && i > 0 {
        assert forall|j: int| 0 <= j < i - 1 implies s.drop_first()[j].file_path != p by {
            assert(s.drop_first()[j] == s[j + 1]);
        }
        lemma_path_index(s.drop_first(), p, i - 1);
    }
}

proof fn lemma_path_index_range(s: Seq<MigrationView>, p: Seq<char>)
    ensures
        -1 <= path_index(s, p) < s.len(),
        path_index(s, p) >= 0 ==> s[path_index(s, p)].file_path == p,
    decreases s.len(),
{
    if s.len() > 0 && s[0].file_path != p {
        lemma_path_index_range(s.drop_first(), p);
    }
}

/// No two migrations of `ms` are in the same file.
pub open spec fn paths_distinct(ms: Seq<MigrationView>) -> bool {
    forall|i: int, j: int| #![trigger ms[i], ms[j]] 0 <= i < j < ms.len() ==> ms[i].file_path != ms[j].file_path
}

proof fn lemma_path_index_absent(s: Seq<MigrationView>, p: Seq<char>)
    ensures
        path_index(s, p) < 0 ==> forall|j: int| 0 <= j < s.len() ==> #[trigger] s[j].file_path != p,
    decreases s.len(),
{
    if s.len() > 0 && s[0].file_path != p {
        lemma_path_index_absent(s.drop_first(), p);
        if path_index(s, p) < 0 {
            assert forall|j: int| 0 <= j < s.len() implies #[trigger] s[j].file_path != p by {
                if j > 0 {
                    assert(s[j] == s.drop_first()[j - 1]);
                }
            }
        }
    }
}

/// Where `insert_by_path` puts `m`, and that it leaves the rest alone.
proof fn lemma_insert_by_path(s: Seq<MigrationView>, m: MigrationView)
    ensures
        ({
            let r = insert_by_path(s, m);
            let k = path_index(s, m.file_path);
            &&& -1 <= k < s.len()
            &&& k < 0 ==> r.len() == s.len() + 1 && r[s.len() as int] == m && forall|j: int|
                0 <= j < s.len() ==> #[trigger] s[j].file_path != m.file_path
            &&& k >= 0 ==> r.len() == s.len() && r[k] == m && s[k].file_path == m.file_path
            &&& forall|j: int| 0 <= j < s.len() && j != k ==> #[trigger] r[j] == s[j]
        }),
{
    lemma_path_index_range(s, m.file_path);
    lemma_path_index_absent(s, m.file_path);
}

/// Collecting by file keeps each file once.
proof fn lemma_collected_distinct(ws: Seq<MigrationView>)
    ensures
        paths_distinct(collected_by_path(ws)),
    decreases ws.len(),
{
    if ws.len() > 0 {
        lemma_collected_distinct(ws.drop_last());
        let s = collected_by_path(ws.drop_last());
        let m = ws.last();
        let r = collected_by_path(ws);
        lemma_insert_by_path(s, m);
        let k = path_index(s, m.file_path);
        assert forall|i: int, j: int| #![trigger r[i], r[j]] 0 <= i < j < r.len() implies r[i].file_path
            != r[j].file_path by {
            if i != k && j != k && j < s.len() {
                assert(r[i] == s[i] && r[j] == s[j]);
            } else if j == s.len() {
                assert(r[i] == s[i]);
            } else if i == k {
                assert(r[j] == s[j]);
            } else {
                assert(r[i] == s[i]);
            }
        }
    }
}

/// Collecting by file keeps every file met.
proof fn lemma_collected_covers(ws: Seq<MigrationView>)
    ensures
        forall|i: int|
            0 <= i < ws.len() ==> exists|j: int|
                0 <= j < collected_by_path(ws).len() && collected_by_path(ws)[j].file_path == #[trigger] ws[i].file_path,
    decreases ws.len(),
{
    if ws.len() > 0 {
        let d = ws.drop_last();
        lemma_collected_covers(d);
        let s = collected_by_path(d);
        let m = ws.last();
        let r = collected_by_path(ws);
        lemma_insert_by_path(s, m);
        let k = path_index(s, m.file_path);
        assert forall|i: int| 0 <= i < ws.len() implies exists|j: int|
            0 <= j < r.len() && r[j].file_path == #[trigger] ws[i].file_path by {
            if i == ws.len() - 1 {
                if k < 0 {
                    assert(r[s.len() as int] == m);
                } else {
                    assert(r[k] == m);
                }
            } else {
                assert(ws[i] == d[i]);
                let j = choose|j: int| 0 <= j < s.len() && s[j].file_path == #[trigger] d[i].file_path;
                if j == k {
                    assert(r[k].file_path == s[k].file_path);
                } else {
                    assert(r[j] == s[j]);
                }
            }
        }
    }
}

/// Every migration that collecting by file keeps is one of `ws`.
proof fn lemma_collected_members(ws: Seq<MigrationView>)
    ensures
        forall|j: int|
            0 <= j < collected_by_path(ws).len() ==> exists|i: int|
                0 <= i < ws.len() && ws[i] == #[trigger] collected_by_path(ws)[j],
    decreases ws.len(),
{
    if ws.len() > 0 {
        let d = ws.drop_last();
        lemma_collected_members(d);
        let s = collected_by_path(d);
        let m = ws.last();
        let r = collected_by_path(ws);
        lemma_insert_by_path(s, m);
        let k = path_index(s, m.file_path);
        assert forall|j: int| 0 <= j < r.len() implies exists|i: int| 0 <= i < ws.len() && ws[i] == #[trigger] r[j] by {
            if (k < 0 && j == s.len()) || j == k {
                assert(ws[ws.len() - 1] == r[j]);
            } else {
                assert(r[j] == s[j]);
                let i = choose|i: int| 0 <= i < d.len() && d[i] == #[trigger] s[j];
                assert(ws[i] == d[i]);
            }
        }
    }
}

/// One migration per file: collecting the migrations of `ws` by file keeps
/// each file once, every file of `ws` is kept, and every migration kept is
/// one of `ws`.
pub proof fn lemma_collected_by_path(ws: Seq<MigrationView>)
    ensures
        paths_distinct(collected_by_path(ws)),
        forall|i: int|
            0 <= i < ws.len() ==> exists|j: int|
                0 <= j < collected_by_path(ws).len() && collected_by_path(ws)[j].file_path == #[trigger] ws[i].file_path,
        forall|j: int|
            0 <= j < collected_by_path(ws).len() ==> exists|i: int|
                0 <= i < ws.len() && ws[i] == #[trigger] collected_by_path(ws)[j],
{
    lemma_collected_distinct(ws);
    lemma_collected_covers(ws);
    lemma_collected_members(ws);
}

proof fn lemma_collected_well_formed(ws: Seq<MigrationView>)
    requires
        names_well_formed(ws),
    ensures
        names_well_formed(collected_by_path(ws)),
    decreases ws.len(),
{
    if ws.len() > 0 {
        assert(names_well_formed(ws.drop_last())) by {
            assert forall|i: int| 0 <= i < ws.drop_last().len() implies is_well_formed_name(
                #[trigger] ws.drop_last()[i].file_name,
            ) by {
                assert(ws.drop_last()[i] == ws[i]);
            }
        }
        lemma_collected_well_formed(ws.drop_last());
        let s = collected_by_path(ws.drop_last());
        let m = ws.last();
        assert(is_well_formed_name(ws[ws.len() - 1].file_name));
        let r = insert_by_path(s, m);
        lemma_path_index_range(s, m.file_path);
        assert forall|i: int| 0 <= i < r.len() implies is_well_formed_name(#[trigger] r[i].file_name) by {
            if path_index(s, m.file_path) < 0 {
                if i < s.len() {
                    assert(r[i] == s[i]);
                }
            } else if i != path_index(s, m.file_path) {
                assert(r[i] == s[i]);
            }
        }
    }
}

/// The position of the first migration of `v` whose file is `p`.
pub(crate) fn find_path(v: &Vec<Migration>, p: &String) -> (r: Option<usize>)
    ensures
        match r {
            Some(k) => k < v@.len() && path_index(migrations_view(v@), p@) == k,
            None => path_index(migrations_view(v@), p@) == -1,
        },
{
    let ghost s = migrations_view(v@);
    let mut i: usize = 0;
    while i < v.len()
        invariant
            i <= v.len(),
            s == migrations_view(v@),
            forall|j: int| 0 <= j < i ==> s[j].file_path != p@,
        decreases v.len() - i,
    {
        if v[i].file_path == *p {
            proof {
                lemma_path_index(s, p@, i as int);
            }
            return Some(i);
        }
        i = i + 1;
    }
    proof {
        lemma_path_index(s, p@, s.len() as int);
    }
    None
}

/// Puts `m` in place of the migration of the same file, or adds it.
fn insert_by_file(v: &mut Vec<Migration>, m: Migration)
    ensures
        migrations_view(final(v)@) == insert_by_path(migrations_view(old(v)@), m@),
{
    let ghost before = migrations_view(v@);
    match find_path(v, &m.file_path) {
        Some(k) => {
            v.set(k, m);
            assert(migrations_view(v@) =~= before.update(k as int, m@));
        },
        None => {
            v.push(m);
            assert(migrations_view(v@) =~= before.push(m@));
        },
    }
}

impl DjangoApp {
    /// What `max_migration.txt` in `directory` holds, read out of `files`:
    /// nothing where the file is missing, else what its trimmed content
    /// reads as (a conflict, a migration name, or nothing).
    pub fn load_max_migration_file(directory: &str, files: &Vec<SourceFile>) -> (r: MaxMigrationResult)
        ensures
            r@ == loaded_max_migration(directory@, sources_view(files@)),
    {
        let path = join(directory, MAX_MIGRATION_TXT);
        match find_source(files, path.as_str()) {
            None => MaxMigrationResult::NotFound,
            Some(content) => MaxMigrationResult::from_content(content.as_str()),
        }
    }

    /// Loads the app whose directory is `app_path` out of `files`: the
    /// migration that `max_migration.txt` names (the HEAD side of a
    /// conflict) and every migration met on the walk from it are its HEAD
    /// migrations.
    pub fn create(app_path: &str, files: &Vec<SourceFile>) -> (r: Result<DjangoApp, String>)
        requires
            crate::migration::file::sources_fit(sources_view(files@)),
        ensures
            match r {
                Ok(a) => created_app(app_path@, sources_view(files@)) == Ok::<AppView, Seq<char>>(a@),
                Err(e) => created_app(app_path@, sources_view(files@)) == Err::<AppView, Seq<char>>(e@),
            },
            r matches Ok(a) ==> names_well_formed(a@.heads),
            r matches Ok(a) ==> paths_distinct(a@.heads),
    {
        let directory = join(app_path, MIGRATIONS);
        let max_migration_result = DjangoApp::load_max_migration_file(directory.as_str(), files);
        let head = match &max_migration_result {
            MaxMigrationResult::Found(f) => f.current_content.duplicate(),
            MaxMigrationResult::Conflict(c) => c.head.duplicate(),
            MaxMigrationResult::NotFound => {
                let mut msg = String::from_str("Failed to parse max_migration_file under path ");
                msg.append(directory.as_str());
                return Err(msg);
            },
        };
        let path = migration_path(directory.as_str(), &head);
        let head_migration = Migration::try_from(path.as_str(), files)?;
        proof {
            let f = file_name_of(path@)->Some_0;
            lemma_parsed_name_well_formed(f);
        }
        let walked = head_migration.walk(files);
        let ghost ws = migrations_view(walked@);
        let mut migrations: Vec<Migration> = Vec::new();
        let mut i: usize = 0;
        assert(ws.take(0) =~= Seq::<MigrationView>::empty());
        while i < walked.len()
            invariant
                i <= walked.len(),
                ws == migrations_view(walked@),
                migrations_view(migrations@) == collected_by_path(ws.take(i as int)),
            decreases walked.len() - i,
        {
            let m = walked[i].duplicate();
            insert_by_file(&mut migrations, m);
            proof {
                assert(ws.take(i + 1).drop_last() =~= ws.take(i as int));
                assert(ws.take(i + 1).last() == m@);
            }
            i = i + 1;
        }
        assert(ws.take(walked.len() as int) =~= ws);
        proof {
            lemma_collected_well_formed(ws);
            lemma_collected_by_path(ws);
        }
        let app = DjangoApp {
            head_migrations: migrations,
            directory,
            last_common_migration: None,
            max_migration_result,
            rebased_migrations: Vec::new(),
        };
        assert(app@.rebased =~= Seq::<MigrationView>::empty());
        Ok(app)
    }

    /// Loads the app at `value` out of `tree`, where its migrations
    /// directory exists and holds `max_migration.txt`.
    pub fn try_from(value: &str, tree: &FileTree) -> (r: Result<DjangoApp, String>)
        requires
            crate::migration::file::sources_fit(sources_view(tree.files@)),
        ensures
            match r {
                Ok(a) => app_at(value@, texts(tree.directories@), sources_view(tree.files@))
                    == Ok::<AppView, Seq<char>>(a@),
                Err(e) => app_at(value@, texts(tree.directories@), sources_view(tree.files@))
                    == Err::<AppView, Seq<char>>(e@),
            },
            r matches Ok(a) ==> names_well_formed(a@.heads),
            r matches Ok(a) ==> paths_distinct(a@.heads),
    {
        let migrations_dir = join(value, MIGRATIONS);
        if !contains_text(&tree.directories, &migrations_dir) {
            return Err(String::from_str("Provided path does not contain migrations folder"));
        }
        let max_path = join(migrations_dir.as_str(), MAX_MIGRATION_TXT);
        if find_source(&tree.files, max_path.as_str()).is_none() {
            return Err(String::from_str("Provided path does not contain max_migrations.txt"));
        }
        DjangoApp::create(value, &tree.files)
    }
}

} // verus!
