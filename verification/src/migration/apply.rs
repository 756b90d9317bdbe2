//! Carrying out the planned changes on the files: renames, rewritten
//! dependency assignments and the new `max_migration.txt`, through the
//! file operations that the caller hands in.

use vstd::prelude::*;
use vstd::string::*;
use crate::migration::change::{migration_file_path, rename_done, rewrite_done};
use crate::migration::file::{
    max_migration_content, max_migration_path, max_write_done, migrations_view, MaxMigrationResult,
    MaxMigrationView, Migration, MigrationView,
};
use crate::migration::group::{AppView, DjangoApp};
use crate::paths::{join_path, with_py_extension};

verus! {

/// A change of the files of a migrations directory.
pub enum FileChange {
    /// The file is renamed from the first path to the second.
    Rename(Seq<char>, Seq<char>),
    /// The dependency assignment of the file is rewritten to assign these
    /// dependencies.
    Rewrite(Seq<char>, Seq<(Seq<char>, Seq<char>)>),
    /// `max_migration.txt` at the path is written with the text.
    WriteMax(Seq<char>, Seq<char>),
}

/// Where the file of migration `m` of directory `dir` is once renamed.
pub open spec fn path_after_rename(m: MigrationView, dir: Seq<char>) -> Seq<char> {
    match m.name_change {
        Some(c) => with_py_extension(join_path(dir, c.1)),
        None => m.file_path,
    }
}

/// The changes of the files for migration `m` of directory `dir`: its
/// rename, then the rewrite of its dependencies in the renamed file.
pub open spec fn migration_file_changes(m: MigrationView, dir: Seq<char>) -> Seq<FileChange> {
    let rename: Seq<FileChange> = match m.name_change {
        Some(c) => seq![FileChange::Rename(migration_file_path(dir, c.0), migration_file_path(dir, c.1))],
        None => Seq::empty(),
    };
    let rewrite: Seq<FileChange> = match m.dependency_change {
        Some(c) => seq![FileChange::Rewrite(path_after_rename(m, dir), c.1)],
        None => Seq::empty(),
    };
    rename + rewrite
}

/// The changes of the files for the migrations `ms`, in their order.
pub open spec fn migrations_file_changes(ms: Seq<MigrationView>, dir: Seq<char>) -> Seq<FileChange>
    decreases ms.len(),
{
    if ms.len() == 0 {
        Seq::empty()
    } else {
        migrations_file_changes(ms.drop_last(), dir) + migration_file_changes(ms.last(), dir)
    }
}

/// The write of `max_migration.txt`, where a new content is planned.
pub open spec fn max_file_changes(max: MaxMigrationView, dir: Seq<char>) -> Seq<FileChange> {
    match max {
        MaxMigrationView::Found(_, Some(n)) => seq![
            FileChange::WriteMax(max_migration_path(dir), max_migration_content(n)),
        ],
        _ => Seq::empty(),
    }
}

/// The changes of the files of app `a`: those of its HEAD migrations,
/// then of its rebased migrations, then `max_migration.txt`.
pub open spec fn app_file_changes(a: AppView) -> Seq<FileChange> {
    migrations_file_changes(a.heads + a.rebased, a.directory) + max_file_changes(a.max, a.directory)
}

/// Change `c` was made through the file operations, with the outcome `r`.
pub open spec fn change_done<
    N: Fn(String, String) -> Result<(), String>,
    R: Fn(String) -> Result<String, String>,
    W: Fn(String, String) -> Result<(), String>,
>(c: FileChange, r: Result<(), String>, rename: N, read: R, write: W) -> bool {
    match c {
        FileChange::Rename(from, to) => rename_done(from, to, r, rename),
        FileChange::Rewrite(path, deps) => rewrite_done(path, deps, r, read, write),
        FileChange::WriteMax(path, content) => max_write_done(path, content, r, write),
    }
}

/// The changes `cs` were made in their order up to the first that failed,
/// whose error is `r`; `r` is `Ok` where all of them were made.
pub open spec fn changes_made<
    N: Fn(String, String) -> Result<(), String>,
    R: Fn(String) -> Result<String, String>,
    W: Fn(String, String) -> Result<(), String>,
>(cs: Seq<FileChange>, r: Result<(), String>, rename: N, read: R, write: W) -> bool
    decreases cs.len(),
{
    if cs.len() == 0 {
        r is Ok
    } else {
        exists|first: Result<(), String>|
            {
                &&& #[trigger] change_done(cs[0], first, rename, read, write)
                &&& match first {
                    Err(e) => r == Err::<(), String>(e),
                    Ok(_) => changes_made(cs.drop_first(), r, rename, read, write),
                }
            }
    }
}

/// Making `a` then `b` is making `a + b`.
pub proof fn lemma_changes_made_append<
    N: Fn(String, String) -> Result<(), String>,
    R: Fn(String) -> Result<String, String>,
    W: Fn(String, String) -> Result<(), String>,
>(
    a: Seq<FileChange>,
    b: Seq<FileChange>,
    ra: Result<(), String>,
    r: Result<(), String>,
    rename: N,
    read: R,
    write: W,
)
    requires
        changes_made(a, ra, rename, read, write),
        ra is Err ==> r == ra,
        ra is Ok ==> changes_made(b, r, rename, read, write),
    ensures
        changes_made(a + b, r, rename, read, write),
    decreases a.len(),
{
    if a.len() == 0 {
        assert(a + b =~= b);
    } else {
        let first = choose|first: Result<(), String>|
            {
                &&& #[trigger] change_done(a[0], first, rename, read, write)
                &&& match first {
                    Err(e) => ra == Err::<(), String>(e),
                    Ok(_) => changes_made(a.drop_first(), ra, rename, read, write),
                }
            };
        assert((a + b)[0] == a[0]);
        assert((a + b).drop_first() =~= a.drop_first() + b);
        if first is Ok {
            lemma_changes_made_append(a.drop_first(), b, ra, r, rename, read, write);
        }
        assert(change_done((a + b)[0], first, rename, read, write));
    }
}

/// One change made, with the outcome `r`.
proof fn lemma_single_change<
    N: Fn(String, String) -> Result<(), String>,
    R: Fn(String) -> Result<String, String>,
    W: Fn(String, String) -> Result<(), String>,
>(c: FileChange, r: Result<(), String>, rename: N, read: R, write: W)
    requires
        change_done(c, r, rename, read, write),
    ensures
        changes_made(seq![c], r, rename, read, write),
{
    assert(seq![c][0] == c);
    assert(seq![c].drop_first() =~= Seq::<FileChange>::empty());
    if r is Ok {
        assert(changes_made(Seq::<FileChange>::empty(), r, rename, read, write));
    }
    assert(change_done(seq![c][0], r, rename, read, write));
}

impl Migration {
    /// Renames the migration's file in `migrations_dir`, where a rename is
    /// planned, then rewrites the dependencies in the renamed file, where
    /// new ones are planned.
    pub fn apply_changes<
        N: Fn(String, String) -> Result<(), String>,
        R: Fn(String) -> Result<String, String>,
        W: Fn(String, String) -> Result<(), String>,
    >(&self, migrations_dir: &str, rename: &N, read: &R, write: &W) -> (r: Result<(), String>)
        requires
            forall|a: String, b: String| call_requires(*rename, (a, b)),
            forall|p: String| call_requires(*read, (p,)),
            forall|p: String, c: String| call_requires(*write, (p, c)),
            crate::migration::change::reads_fit(*read),
        ensures
            changes_made(migration_file_changes(self@, migrations_dir@), r, *rename, *read, *write),
    {
        let ghost dir = migrations_dir@;
        let ghost rename_part: Seq<FileChange> = match self@.name_change {
            Some(c) => seq![FileChange::Rename(migration_file_path(dir, c.0), migration_file_path(dir, c.1))],
            None => Seq::empty(),
        };
        let ghost rewrite_part: Seq<FileChange> = match self@.dependency_change {
            Some(c) => seq![FileChange::Rewrite(path_after_rename(self@, dir), c.1)],
            None => Seq::empty(),
        };
        let r1 = match &self.name_change {
            Some(c) => c.apply_change(migrations_dir, rename),
            None => Ok(()),
        };
        proof {
            if self@.name_change is Some {
                lemma_single_change(rename_part[0], r1, *rename, *read, *write);
                assert(seq![rename_part[0]] =~= rename_part);
            }
        }
        if r1.is_err() {
            proof {
                lemma_changes_made_append(rename_part, rewrite_part, r1, r1, *rename, *read, *write);
            }
            return r1;
        }
        let r2 = match &self.dependency_change {
            Some(c) => {
                let path = match self.new_full_path(migrations_dir) {
                    Some(p) => p,
                    None => self.file_path.clone(),
                };
                c.apply_change(path.as_str(), read, write)
            },
            None => Ok(()),
        };
        proof {
            if self@.dependency_change is Some {
                lemma_single_change(rewrite_part[0], r2, *rename, *read, *write);
                assert(seq![rewrite_part[0]] =~= rewrite_part);
            }
            lemma_changes_made_append(rename_part, rewrite_part, r1, r2, *rename, *read, *write);
        }
        r2
    }
}

/// Carries out the planned changes of the migrations `ms` of directory
/// `dir`, in their order, up to the first that fails.
fn apply_all<
    N: Fn(String, String) -> Result<(), String>,
    R: Fn(String) -> Result<String, String>,
    W: Fn(String, String) -> Result<(), String>,
>(ms: &Vec<Migration>, dir: &str, rename: &N, read: &R, write: &W) -> (r: Result<(), String>)
    requires
        forall|a: String, b: String| call_requires(*rename, (a, b)),
        forall|p: String| call_requires(*read, (p,)),
        forall|p: String, c: String| call_requires(*write, (p, c)),
        crate::migration::change::reads_fit(*read),
    ensures
        changes_made(migrations_file_changes(migrations_view(ms@), dir@), r, *rename, *read, *write),
{
    let ghost v = migrations_view(ms@);
    let ghost cs = migrations_file_changes(v, dir@);
    let mut i: usize = 0;
    assert(v.skip(0) =~= v);
    while i < ms.len()
        invariant
            i <= ms.len(),
            v == migrations_view(ms@),
            cs == migrations_file_changes(v, dir@),
            forall|a: String, b: String| call_requires(*rename, (a, b)),
            forall|p: String| call_requires(*read, (p,)),
            forall|p: String, c: String| call_requires(*write, (p, c)),
            crate::migration::change::reads_fit(*read),
            forall|rest: Result<(), String>|
                changes_made(migrations_file_changes(v.skip(i as int), dir@), rest, *rename, *read, *write)
                    ==> #[trigger] changes_made(cs, rest, *rename, *read, *write),
        decreases ms.len() - i,
    {
        let m = &ms[i];
        let ri = m.apply_changes(dir, rename, read, write);
        proof {
            let here = migration_file_changes(m@, dir@);
            let later = migrations_file_changes(v.skip(i + 1), dir@);
            assert(v.skip(i as int)[0] == m@);
            assert(v.skip(i as int).drop_first() =~= v.skip(i + 1));
            lemma_file_changes_front(v.skip(i as int), dir@);
            if ri is Err {
                lemma_changes_made_append(here, later, ri, ri, *rename, *read, *write);
                assert(changes_made(cs, ri, *rename, *read, *write));
            } else {
                assert forall|rest: Result<(), String>|
                    changes_made(later, rest, *rename, *read, *write) implies #[trigger] changes_made(
                    cs,
                    rest,
                    *rename,
                    *read,
                    *write,
                ) by {
                    lemma_changes_made_append(here, later, ri, rest, *rename, *read, *write);
                }
            }
        }
        if ri.is_err() {
            return ri;
        }
        i = i + 1;
    }
    proof {
        assert(v.skip(ms.len() as int) =~= Seq::<MigrationView>::empty());
        assert(changes_made(Seq::<FileChange>::empty(), Ok::<(), String>(()), *rename, *read, *write));
    }
    Ok(())
}

impl DjangoApp {
    /// Carries out the planned changes in the app's migrations directory:
    /// for each HEAD migration, then each rebased one, its rename and its
    /// new dependencies, then the new `max_migration.txt`. It stops at the
    /// first change that fails and returns its error.
    pub fn apply_changes<
        N: Fn(String, String) -> Result<(), String>,
        R: Fn(String) -> Result<String, String>,
        W: Fn(String, String) -> Result<(), String>,
    >(&self, rename: &N, read: &R, write: &W) -> (r: Result<(), String>)
        requires
            forall|a: String, b: String| call_requires(*rename, (a, b)),
            forall|p: String| call_requires(*read, (p,)),
            forall|p: String, c: String| call_requires(*write, (p, c)),
            crate::migration::change::reads_fit(*read),
        ensures
            changes_made(app_file_changes(self@), r, *rename, *read, *write),
    {
        let ghost dir = self.directory@;
        let ghost h = migrations_file_changes(self@.heads, dir);
        let ghost b = migrations_file_changes(self@.rebased, dir);
        let ghost mx = max_file_changes(self@.max, dir);
        proof {
            lemma_file_changes_concat(self@.heads, self@.rebased, dir);
            assert(app_file_changes(self@) =~= h + (b + mx));
        }
        let r1 = apply_all(&self.head_migrations, self.directory.as_str(), rename, read, write);
        if r1.is_err() {
            proof {
                lemma_changes_made_append(h, b + mx, r1, r1, *rename, *read, *write);
            }
            return r1;
        }
        let r2 = apply_all(&self.rebased_migrations, self.directory.as_str(), rename, read, write);
        if r2.is_err() {
            proof {
                lemma_changes_made_append(b, mx, r2, r2, *rename, *read, *write);
                lemma_changes_made_append(h, b + mx, r1, r2, *rename, *read, *write);
            }
            return r2;
        }
        let r3 = match &self.max_migration_result {
            MaxMigrationResult::Found(max_file) => max_file.apply_change(self.directory.as_str(), write),
            _ => Ok(()),
        };
        proof {
            if mx.len() > 0 {
                lemma_single_change(mx[0], r3, *rename, *read, *write);
                assert(seq![mx[0]] =~= mx);
            } else {
                assert(changes_made(mx, r3, *rename, *read, *write));
            }
            lemma_changes_made_append(b, mx, r2, r3, *rename, *read, *write);
            lemma_changes_made_append(h, b + mx, r1, r3, *rename, *read, *write);
        }
        r3
    }
}

/// The changes of two lists of migrations, one after the other.
proof fn lemma_file_changes_concat(a: Seq<MigrationView>, b: Seq<MigrationView>, dir: Seq<char>)
    ensures
        migrations_file_changes(a + b, dir) == migrations_file_changes(a, dir) + migrations_file_changes(b, dir),
    decreases b.len(),
{
    if b.len() == 0 {
        assert(a + b =~= a);
        assert(migrations_file_changes(a, dir) + Seq::<FileChange>::empty() =~= migrations_file_changes(a, dir));
    } else {
        lemma_file_changes_concat(a, b.drop_last(), dir);
        assert((a + b).drop_last() =~= a + b.drop_last());
        assert((a + b).last() == b.last());
        assert(migrations_file_changes(a, dir) + migrations_file_changes(b.drop_last(), dir) + migration_file_changes(
            b.last(),
            dir,
        ) =~= migrations_file_changes(a, dir) + (migrations_file_changes(b.drop_last(), dir) + migration_file_changes(
            b.last(),
            dir,
        )));
    }
}

/// The changes of a list of migrations start with those of its first one.
proof fn lemma_file_changes_front(ms: Seq<MigrationView>, dir: Seq<char>)
    requires
        ms.len() > 0,
    ensures
        migrations_file_changes(ms, dir) == migration_file_changes(ms[0], dir) + migrations_file_changes(
            ms.drop_first(),
            dir,
        ),
    decreases ms.len(),
{
    if ms.len() == 1 {
        assert(ms.drop_last() =~= Seq::<MigrationView>::empty());
        assert(ms.drop_first() =~= Seq::<MigrationView>::empty());
        assert(migration_file_changes(ms[0], dir) + Seq::<FileChange>::empty() =~= migration_file_changes(ms[0], dir));
        assert(Seq::<FileChange>::empty() + migration_file_changes(ms[0], dir) =~= migration_file_changes(ms[0], dir));
    } else {
        lemma_file_changes_front(ms.drop_last(), dir);
        assert(ms.drop_last().drop_first() =~= ms.drop_first().drop_last());
        assert(ms.drop_first().last() == ms.last());
        assert(ms.drop_last()[0] == ms[0]);
        assert(migration_file_changes(ms[0], dir) + migrations_file_changes(ms.drop_first().drop_last(), dir)
            + migration_file_changes(ms.last(), dir) =~= migration_file_changes(ms[0], dir) + (
        migrations_file_changes(ms.drop_first().drop_last(), dir) + migration_file_changes(ms.last(), dir)));
    }
}

/// Every planned change of a migration reaches its file: a planned rename
/// renames the file from its old name to its new one in `dir`, and planned
/// new dependencies are written into the migration's file, the renamed one
/// where a rename is planned and its own file otherwise, after the rename.
pub proof fn lemma_planned_changes_reach_files(m: MigrationView, dir: Seq<char>)
    ensures
        m.name_change matches Some(c) ==> migration_file_changes(m, dir).contains(
            FileChange::Rename(migration_file_path(dir, c.0), migration_file_path(dir, c.1)),
        ),
        m.dependency_change matches Some(c) ==> {
            let target = match m.name_change {
                Some(n) => with_py_extension(join_path(dir, n.1)),
                None => m.file_path,
            };
            exists|k: int|
                {
                    &&& 0 <= k < migration_file_changes(m, dir).len()
                    &&& migration_file_changes(m, dir)[k] == FileChange::Rewrite(target, c.1)
                    &&& forall|j: int|
                        k < j < migration_file_changes(m, dir).len() ==> !(#[trigger] migration_file_changes(
                            m,
                            dir,
                        )[j] is Rename)
                    &&& forall|j: int| 0 <= j < k ==> !(#[trigger] migration_file_changes(m, dir)[j] is Rewrite)
                }
        },
        m.name_change is None && m.dependency_change is None ==> migration_file_changes(m, dir).len() == 0,
{
    let cs = migration_file_changes(m, dir);
    match m.name_change {
        Some(n) => {
            assert(cs[0] == FileChange::Rename(migration_file_path(dir, n.0), migration_file_path(dir, n.1)));
        },
        None => {},
    }
    match m.dependency_change {
        Some(c) => {
            let k = cs.len() - 1;
            assert(cs[k] == FileChange::Rewrite(path_after_rename(m, dir), c.1));
        },
        None => {},
    }
}

/// The changes of a list of migrations hold the changes of each of them.
proof fn lemma_migrations_changes_hold(ms: Seq<MigrationView>, dir: Seq<char>, i: int, c: FileChange)
    requires
        0 <= i < ms.len(),
        migration_file_changes(ms[i], dir).contains(c),
    ensures
        migrations_file_changes(ms, dir).contains(c),
    decreases ms.len(),
{
    let rest = migrations_file_changes(ms.drop_last(), dir);
    let own = migration_file_changes(ms.last(), dir);
    assert(migrations_file_changes(ms, dir) == rest + own);
    if i == ms.len() - 1 {
        let k = choose|k: int| 0 <= k < own.len() && own[k] == c;
        assert((rest + own)[rest.len() + k] == c);
    } else {
        assert(ms.drop_last()[i] == ms[i]);
        lemma_migrations_changes_hold(ms.drop_last(), dir, i, c);
        let k = choose|k: int| 0 <= k < rest.len() && rest[k] == c;
        assert((rest + own)[k] == c);
    }
}

/// Applying an app's plan touches every planned change: for every HEAD or
/// rebased migration with new dependencies planned, the app's file changes
/// rewrite them into the migration's file (the renamed one where a rename
/// is planned), and every planned rename renames its file.
pub proof fn lemma_app_changes_reach_files(a: AppView, i: int)
    requires
        0 <= i < (a.heads + a.rebased).len(),
    ensures
        ({
            let m = (a.heads + a.rebased)[i];
            &&& m.dependency_change matches Some(c) ==> app_file_changes(a).contains(
                FileChange::Rewrite(
                    match m.name_change {
                        Some(n) => with_py_extension(join_path(a.directory, n.1)),
                        None => m.file_path,
                    },
                    c.1,
                ),
            )
            &&& m.name_change matches Some(c) ==> app_file_changes(a).contains(
                FileChange::Rename(migration_file_path(a.directory, c.0), migration_file_path(a.directory, c.1)),
            )
        }),
{
    let ms = a.heads + a.rebased;
    let m = ms[i];
    let dir = a.directory;
    lemma_planned_changes_reach_files(m, dir);
    let all = migrations_file_changes(ms, dir);
    let whole = app_file_changes(a);
    assert(whole == all + max_file_changes(a.max, dir));
    match m.dependency_change {
        Some(c) => {
            let target = match m.name_change {
                Some(n) => with_py_extension(join_path(dir, n.1)),
                None => m.file_path,
            };
            let x = FileChange::Rewrite(target, c.1);
            let cs = migration_file_changes(m, dir);
            let k = choose|k: int|
                {
                    &&& 0 <= k < cs.len()
                    &&& cs[k] == x
                    &&& forall|j: int| k < j < cs.len() ==> !(#[trigger] cs[j] is Rename)
                    &&& forall|j: int| 0 <= j < k ==> !(#[trigger] cs[j] is Rewrite)
                };
            assert(cs.contains(x));
            lemma_migrations_changes_hold(ms, dir, i, x);
            let t = choose|t: int| 0 <= t < all.len() && all[t] == x;
            assert(whole[t] == x);
        },
        None => {},
    }
    match m.name_change {
        Some(c) => {
            let x = FileChange::Rename(migration_file_path(dir, c.0), migration_file_path(dir, c.1));
            lemma_migrations_changes_hold(ms, dir, i, x);
            let t = choose|t: int| 0 <= t < all.len() && all[t] == x;
            assert(whole[t] == x);
        },
        None => {},
    }
}

/// An app with nothing planned has no file to change: carrying out its
/// changes touches no file and succeeds.
pub proof fn lemma_nothing_planned<
    N: Fn(String, String) -> Result<(), String>,
    R: Fn(String) -> Result<String, String>,
    W: Fn(String, String) -> Result<(), String>,
>(a: AppView, r: Result<(), String>, rename: N, read: R, write: W)
    requires
        forall|i: int|
            0 <= i < (a.heads + a.rebased).len() ==> (#[trigger] (a.heads + a.rebased)[i]).name_change is None
                && (a.heads + a.rebased)[i].dependency_change is None,
        !(a.max matches MaxMigrationView::Found(_, Some(_))),
    ensures
        app_file_changes(a) == Seq::<FileChange>::empty(),
        changes_made(app_file_changes(a), r, rename, read, write) <==> r is Ok,
{
    lemma_no_file_changes(a.heads + a.rebased, a.directory);
    assert(app_file_changes(a) =~= Seq::<FileChange>::empty());
}

proof fn lemma_no_file_changes(ms: Seq<MigrationView>, dir: Seq<char>)
    requires
        forall|i: int| 0 <= i < ms.len() ==> (#[trigger] ms[i]).name_change is None && ms[i].dependency_change is None,
    ensures
        migrations_file_changes(ms, dir) == Seq::<FileChange>::empty(),
    decreases ms.len(),
{
    if ms.len() > 0 {
        assert forall|i: int| 0 <= i < ms.drop_last().len() implies (#[trigger] ms.drop_last()[i]).name_change is None
            && ms.drop_last()[i].dependency_change is None by {
            assert(ms.drop_last()[i] == ms[i]);
        }
        lemma_no_file_changes(ms.drop_last(), dir);
        assert(ms[ms.len() - 1].name_change is None);
        assert(migration_file_changes(ms.last(), dir) =~= Seq::<FileChange>::empty());
        assert(migrations_file_changes(ms, dir) =~= Seq::<FileChange>::empty());
    }
}

} // verus!
