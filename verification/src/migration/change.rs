//! Planned changes of one migration: a new file name and new dependencies.

use vstd::prelude::*;
use vstd::string::*;
use crate::migration::file::{
    dependencies_view, dependency_text, prefixed_outcome, MigrationDependency, MigrationFileName,
};
use crate::paths::{join, join_path, set_py_extension, with_py_extension};
use crate::migration::parser::{dependency_location, fits_parser, module_view, python_module, ClassView, MigrationParser};
use crate::utils::{replace_range, replaced_range};
use vstd::utf8::{encode_utf8, is_char_boundary};

verus! {

/// The texts of `parts` with `sep` between each two of them.
pub open spec fn join_texts(parts: Seq<Seq<char>>, sep: Seq<char>) -> Seq<char>
    decreases parts.len(),
{
    if parts.len() == 0 {
        Seq::empty()
    } else if parts.len() == 1 {
        parts[0]
    } else {
        join_texts(parts.drop_last(), sep) + sep + parts.last()
    }
}

/// The dependencies written as Python tuples, separated by commas.
pub open spec fn dependency_list_text(deps: Seq<(Seq<char>, Seq<char>)>) -> Seq<char> {
    join_texts(deps.map_values(|d: (Seq<char>, Seq<char>)| dependency_text(d)), ", "@)
}

/// The path of the Python file of the migration `name` in `dir`.
pub open spec fn migration_file_path(dir: Seq<char>, name: Seq<char>) -> Seq<char> {
    with_py_extension(join_path(dir, name))
}

/// The path of the Python file of the migration `name` in `dir`.
pub fn migration_path(dir: &str, name: &MigrationFileName) -> (r: String)
    ensures
        r@ == migration_file_path(dir@, name@),
{
    let joined = join(dir, name.0.as_str());
    set_py_extension(joined.as_str())
}

/// The dependencies written as Python tuples, separated by commas.
pub fn dependency_list(deps: &Vec<MigrationDependency>) -> (r: String)
    ensures
        r@ == dependency_list_text(dependencies_view(deps@)),
{
    let ghost parts = dependencies_view(deps@).map_values(|d: (Seq<char>, Seq<char>)| dependency_text(d));
    let mut r = String::new();
    let mut i: usize = 0;
    while i < deps.len()
        invariant
            i <= deps.len(),
            parts == dependencies_view(deps@).map_values(|d: (Seq<char>, Seq<char>)| dependency_text(d)),
            r@ == join_texts(parts.take(i as int), ", "@),
        decreases deps.len() - i,
    {
        let t = deps[i].to_string();
        proof {
            assert(parts.take(i + 1).drop_last() =~= parts.take(i as int));
            assert(parts[i as int] == t@);
        }
        if i > 0 {
            r.append(", ");
        }
        r.append(t.as_str());
        i = i + 1;
        proof {
            if i == 1 {
                assert(r@ =~= t@);
                assert(parts.take(1) =~= seq![t@]);
            } else {
                assert(parts.take(i as int).last() == t@);
            }
        }
    }
    assert(parts.take(deps.len() as int) =~= parts);
    r
}

/// A new file name for a migration.
#[derive(Debug, Clone, PartialEq, Eq)]
pub struct MigrationFileNameChange {
    pub old_name: MigrationFileName,
    pub new_name: MigrationFileName,
}

/// `rename` was called to move the file `from` to `to`, and `r` is what
/// its answer turns into, an error prefixed.
pub open spec fn rename_done<F: Fn(String, String) -> Result<(), String>>(
    from: Seq<char>,
    to: Seq<char>,
    r: Result<(), String>,
    rename: F,
) -> bool {
    exists|a: String, b: String, w: Result<(), String>|
        {
            &&& a@ == from
            &&& b@ == to
            &&& call_ensures(rename, (a, b), w)
            &&& prefixed_outcome(w, r, "Failed to rename file: "@)
        }
}

impl MigrationFileNameChange {
    pub fn new(old_name: MigrationFileName, new_name: MigrationFileName) -> (r: MigrationFileNameChange)
        ensures
            r.old_name == old_name,
            r.new_name == new_name,
    {
        MigrationFileNameChange { old_name, new_name }
    }

    /// Renames the migration's Python file in `migrations_dir` through
    /// `rename`, which is given the old and the new path; an error of the
    /// rename is reported with a prefix.
    pub fn apply_change<F: Fn(String, String) -> Result<(), String>>(
        &self,
        migrations_dir: &str,
        rename: &F,
    ) -> (r: Result<(), String>)
        requires
            forall|a: String, b: String| call_requires(*rename, (a, b)),
        ensures
            rename_done(
                migration_file_path(migrations_dir@, self.old_name@),
                migration_file_path(migrations_dir@, self.new_name@),
                r,
                *rename,
            ),
    {
        let old_path = migration_path(migrations_dir, &self.old_name);
        let new_path = migration_path(migrations_dir, &self.new_name);
        let w = rename(old_path, new_path);
        match w {
            Ok(()) => Ok(()),
            Err(e) => {
                let mut msg = String::from_str("Failed to rename file: ");
                msg.append(e.as_str());
                Err(msg)
            },
        }
    }

    /// The change written as `old -> new`.
    pub fn to_string(&self) -> (r: String)
        ensures
            r@ == self.old_name@ + " -> "@ + self.new_name@,
    {
        let mut r = self.old_name.to_string();
        r.append(" -> ");
        r.append(self.new_name.0.as_str());
        r
    }

    /// The same change, as a new value.
    pub fn duplicate(&self) -> (r: MigrationFileNameChange)
        ensures
            r == *self,
    {
        MigrationFileNameChange { old_name: self.old_name.duplicate(), new_name: self.new_name.duplicate() }
    }
}

/// New dependencies for a migration.
#[derive(Debug, Clone, PartialEq, Eq)]
pub struct MigrationDependencyChange {
    pub old_dependencies: Vec<MigrationDependency>,
    pub new_dependencies: Vec<MigrationDependency>,
}

/// The statement that assigns `deps` to `dependencies`.
pub open spec fn replacement_text(deps: Seq<(Seq<char>, Seq<char>)>) -> Seq<char> {
    "dependencies = ["@ + dependency_list_text(deps) + "]"@
}

impl MigrationDependencyChange {
    /// The same change, as a new value.
    pub fn duplicate(&self) -> (r: MigrationDependencyChange)
        ensures
            r.old_dependencies@ == self.old_dependencies@,
            r.new_dependencies@ == self.new_dependencies@,
    {
        MigrationDependencyChange {
            old_dependencies: crate::migration::file::duplicate_dependencies(&self.old_dependencies),
            new_dependencies: crate::migration::file::duplicate_dependencies(&self.new_dependencies),
        }
    }

    pub fn new(
        old_dependencies: Vec<MigrationDependency>,
        new_dependencies: Vec<MigrationDependency>,
    ) -> (r: MigrationDependencyChange)
        ensures
            r.old_dependencies == old_dependencies,
            r.new_dependencies == new_dependencies,
    {
        MigrationDependencyChange { old_dependencies, new_dependencies }
    }

    /// The Python statement that assigns the new dependencies.
    pub fn generate_replacement_string(&self) -> (r: String)
        ensures
            r@ == replacement_text(dependencies_view(self.new_dependencies@)),
    {
        let mut r = String::from_str("dependencies = [");
        let list = dependency_list(&self.new_dependencies);
        r.append(list.as_str());
        r.append("]");
        r
    }

    /// The change written as `[old, ...] -> [new, ...]`.
    pub fn to_string(&self) -> (r: String)
        ensures
            r@ == "["@ + dependency_list_text(dependencies_view(self.old_dependencies@)) + "] -> ["@
                + dependency_list_text(dependencies_view(self.new_dependencies@)) + "]"@,
    {
        let mut r = String::from_str("[");
        let old_list = dependency_list(&self.old_dependencies);
        r.append(old_list.as_str());
        r.append("] -> [");
        let new_list = dependency_list(&self.new_dependencies);
        r.append(new_list.as_str());
        r.append("]");
        r
    }
}


/// The byte range `start..end` lies within `bytes` and starts and ends at
/// character boundaries.
pub open spec fn is_valid_range(bytes: Seq<u8>, start: int, end: int) -> bool {
    &&& start <= end <= bytes.len()
    &&& is_char_boundary(bytes, start)
    &&& is_char_boundary(bytes, end)
}

/// The message for a dependency assignment whose byte range does not fit
/// the source.
pub open spec fn bad_range_message(path: Seq<char>) -> Seq<char> {
    "Dependencies assignment is not a valid byte range in file "@ + path
}

/// What rewriting the dependency assignment of the Python `source` of the
/// file `path` to assign `deps` gives: the bytes of the new source, or the
/// error message.
pub open spec fn rewrite_outcome(
    source: Seq<char>,
    path: Seq<char>,
    deps: Seq<(Seq<char>, Seq<char>)>,
) -> Result<Seq<u8>, Seq<char>> {
    match python_module(source, path) {
        Err(x) => Err("Failed to parse python statements: "@ + x),
        Ok(m) => match dependency_location(m, path) {
            Err(e) => Err(e),
            Ok(loc) => if is_valid_range(encode_utf8(source), loc.0 as int, loc.1 as int) {
                Ok(
                    replaced_range(
                        encode_utf8(source),
                        loc.0 as int,
                        loc.1 as int,
                        encode_utf8(replacement_text(deps)),
                    ),
                )
            } else {
                Err(bad_range_message(path))
            },
        },
    }
}

impl MigrationDependencyChange {
    /// The Python `source` of the migration file `migration_path` with its
    /// dependency assignment replaced by one of the new dependencies.
    pub fn rewrite_source(&self, migration_path: &str, source: &str) -> (r: Result<String, String>)
        requires
            fits_parser(source@),
        ensures
            match r {
                Ok(t) => rewrite_outcome(source@, migration_path@, dependencies_view(self.new_dependencies@))
                    == Ok::<Seq<u8>, Seq<char>>(encode_utf8(t@)),
                Err(e) => rewrite_outcome(source@, migration_path@, dependencies_view(self.new_dependencies@))
                    == Err::<Seq<u8>, Seq<char>>(e@),
            },
    {
        let parser = match MigrationParser::new(migration_path, source) {
            Ok(p) => p,
            Err(e) => {
                return Err(e);
            },
        };
        let (start, end) = match parser.find_dependency_location() {
            Ok(loc) => loc,
            Err(e) => {
                return Err(e);
            },
        };
        let replacement = self.generate_replacement_string();
        let s = start as usize;
        let e = end as usize;
        let ghost m = module_view(parser.module@);
        assert(python_module(source@, migration_path@) == Ok::<Seq<Option<ClassView>>, Seq<char>>(m));
        assert(dependency_location(m, migration_path@) == Ok::<(u32, u32), Seq<char>>((start, end)));
        let byte_len = source.as_bytes().len();
        if s <= e && e <= byte_len && source.is_char_boundary(s) && source.is_char_boundary(e) {
            let t = replace_range(source, s, e, replacement.as_str());
            assert(is_valid_range(encode_utf8(source@), start as int, end as int));
            assert(rewrite_outcome(source@, migration_path@, dependencies_view(self.new_dependencies@))
                == Ok::<Seq<u8>, Seq<char>>(encode_utf8(t@)));
            Ok(t)
        } else {
            let mut msg = String::from_str("Dependencies assignment is not a valid byte range in file ");
            msg.append(migration_path);
            Err(msg)
        }
    }

    /// Rewrites the dependency assignment of the migration file
    /// `migration_path`: the file is read through `read`, its assignment to
    /// `dependencies` is replaced by one of the new dependencies, and the
    /// new text is written through `write`.
    pub fn apply_change<
        R: Fn(String) -> Result<String, String>,
        W: Fn(String, String) -> Result<(), String>,
    >(&self, migration_path: &str, read: &R, write: &W) -> (r: Result<(), String>)
        requires
            forall|p: String| call_requires(*read, (p,)),
            forall|p: String, c: String| call_requires(*write, (p, c)),
            reads_fit(*read),
        ensures
            rewrite_done(migration_path@, dependencies_view(self.new_dependencies@), r, *read, *write),
    {
        let path = String::from_str(migration_path);
        let rd = read(path);
        match rd {
            Err(e) => {
                let mut msg = String::from_str("Failed to read file ");
                msg.append(migration_path);
                msg.append(": ");
                msg.append(e.as_str());
                Err(msg)
            },
            Ok(source) => {
                let new_source = self.rewrite_source(migration_path, source.as_str())?;
                let w = write(String::from_str(migration_path), new_source);
                match w {
                    Ok(()) => Ok(()),
                    Err(e) => {
                        let mut msg = String::from_str("Failed to write to file ");
                        msg.append(migration_path);
                        msg.append(": ");
                        msg.append(e.as_str());
                        Err(msg)
                    },
                }
            },
        }
    }
}

/// Every text that `read` gives back fits the parser.
pub open spec fn reads_fit<R: Fn(String) -> Result<String, String>>(read: R) -> bool {
    forall|p: String, rd: Result<String, String>| #[trigger] call_ensures(read, (p,), rd) ==> (rd matches Ok(
        c,
    ) ==> fits_parser(c@))
}

/// The file `path` was read through `read`, its dependency assignment was
/// rewritten to assign `deps`, and the new text was written through
/// `write`; `r` is the outcome, the first error prefixed.
pub open spec fn rewrite_done<
    R: Fn(String) -> Result<String, String>,
    W: Fn(String, String) -> Result<(), String>,
>(
    path: Seq<char>,
    deps: Seq<(Seq<char>, Seq<char>)>,
    r: Result<(), String>,
    read: R,
    write: W,
) -> bool {
    exists|p: String, rd: Result<String, String>|
        {
            &&& p@ == path
            &&& call_ensures(read, (p,), rd)
            &&& match rd {
                Err(e) => r matches Err(m) && m@ == "Failed to read file "@ + path + ": "@ + e@,
                Ok(src) => match rewrite_outcome(src@, path, deps) {
                    Err(m) => r matches Err(m2) && m2@ == m,
                    Ok(bytes) => exists|p2: String, c: String, w: Result<(), String>|
                        {
                            &&& p2@ == path
                            &&& encode_utf8(c@) == bytes
                            &&& call_ensures(write, (p2, c), w)
                            &&& prefixed_outcome(w, r, "Failed to write to file "@ + path + ": "@)
                        },
                },
            }
        }
}

} // verus!
