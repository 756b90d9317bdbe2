//! Finding where the rebased branch left the HEAD branch, and renumbering
//! the rebased migrations after the latest HEAD migration.

use vstd::prelude::*;
use vstd::string::*;
use crate::migration::change::{migration_file_path, migration_path, MigrationFileNameChange};
use crate::migration::file::{
    four_digits, is_ascii_digit, is_well_formed_name, lemma_four_digits_number, lemma_parsed_name_well_formed, loaded_migration,
    merge_migration_message, migrations_view, name_number, name_suffix, number_prefix, numbered_name,
    parse_file_name, same_app_count, sources_view, MaxMigrationFile,
    MaxMigrationResult, MaxMigrationView, MergeConflict, Migration, MigrationFileName, MigrationView,
    SourceFile,
};
use crate::migration::group::{highest_migration, lemma_highest_in, names_well_formed, name_view, AppView, DjangoApp};
use crate::migration::load::{find_path, path_index};
use crate::migration::walk::{dependency_walk, lemma_walk_exists};
use crate::paths::file_name_of;

verus! {

/// The search, along the walk `ws` from the incoming migration, for the
/// last migration that both branches share: the first migration of `ws`
/// whose file is a HEAD migration. A merge migration met before it is
/// refused.
pub open spec fn common_search(ws: Seq<MigrationView>, heads: Seq<MigrationView>) -> Result<Option<Seq<char>>, Seq<char>>
    decreases ws.len(),
{
    if ws.len() == 0 {
        Ok(None)
    } else if path_index(heads, ws[0].file_path) >= 0 {
        Ok(Some(ws[0].file_name))
    } else if same_app_count(ws[0].dependencies, ws[0].app_name) > 1 {
        Err(merge_migration_message(ws[0].file_name))
    } else {
        common_search(ws.drop_first(), heads)
    }
}

/// What the search from the incoming migration `name` of app `a` finds.
pub open spec fn last_common_outcome(
    a: AppView,
    name: Seq<char>,
    files: Seq<(Seq<char>, Seq<char>)>,
) -> Result<Option<Seq<char>>, Seq<char>> {
    match loaded_migration(migration_file_path(a.directory, name), files) {
        Err(e) => Err(e),
        Ok(start) => common_search(dependency_walk(start, files), a.heads),
    }
}

/// The app `a` with its last common migration set to `n`, where one was
/// found.
pub open spec fn with_last_common(a: AppView, n: Option<Seq<char>>) -> AppView {
    AppView {
        heads: a.heads,
        directory: a.directory,
        last_common: match n {
            Some(c) => Some(c),
            None => a.last_common,
        },
        max: a.max,
        rebased: a.rebased,
    }
}

/// The migrations of `ws` before the first one named `name`.
pub open spec fn before_named(ws: Seq<MigrationView>, name: Seq<char>) -> Seq<MigrationView>
    decreases ws.len(),
{
    if ws.len() == 0 {
        ws
    } else if ws[0].file_name == name {
        Seq::empty()
    } else {
        seq![ws[0]] + before_named(ws.drop_first(), name)
    }
}

/// The migrations numbered `k`.
pub open spec fn numbered(k: int) -> spec_fn(MigrationView) -> bool {
    |m: MigrationView| name_number(m.file_name) == k
}

/// The migrations of `ms` numbered below `n`, ordered by number; those of
/// one number keep their order in `ms`.
pub open spec fn sorted_below(ms: Seq<MigrationView>, n: int) -> Seq<MigrationView>
    decreases n,
{
    if n <= 0 {
        Seq::empty()
    } else {
        sorted_below(ms, n - 1) + ms.filter(numbered(n - 1))
    }
}

/// The migrations of `ms` ordered by number, those of one number in their
/// order in `ms`.
pub open spec fn sorted_by_number(ms: Seq<MigrationView>) -> Seq<MigrationView> {
    sorted_below(ms, 10000)
}

/// The message for a migration whose new number would not fit in four
/// digits.
pub open spec fn renumber_limit_message(name: Seq<char>) -> Seq<char> {
    "Migration "@ + name + " cannot be renumbered past 9999"@
}

/// The name of migration `m` renumbered to `n`: `n` in four digits, an
/// underscore and the descriptive part of its name.
pub open spec fn new_name_for(n: int, m: MigrationView) -> Result<Seq<char>, Seq<char>> {
    if n < 10000 {
        parse_file_name(four_digits(n) + seq!['_'] + name_suffix(m.file_name))
    } else {
        Err(renumber_limit_message(m.file_name))
    }
}

/// Migration `m` of the rebased branch, to be renamed to `new_name`.
pub open spec fn renamed(m: MigrationView, new_name: Seq<char>) -> MigrationView {
    MigrationView {
        file_name: m.file_name,
        file_path: m.file_path,
        app_name: m.app_name,
        dependencies: m.dependencies,
        from_rebased_branch: true,
        name_change: Some((m.file_name, new_name)),
        dependency_change: m.dependency_change,
    }
}

/// The migrations `ms` renumbered from `first` on, in their order.
pub open spec fn renumbering(ms: Seq<MigrationView>, first: int) -> Result<Seq<MigrationView>, Seq<char>>
    decreases ms.len(),
{
    if ms.len() == 0 {
        Ok(Seq::empty())
    } else {
        match new_name_for(first, ms[0]) {
            Err(e) => Err(e),
            Ok(n) => match renumbering(ms.drop_first(), first + 1) {
                Err(e) => Err(e),
                Ok(rest) => Ok(seq![renamed(ms[0], n)] + rest),
            },
        }
    }
}

/// What `max_migration.txt` is to hold after the renumbering `rs`: a
/// conflict gives way to its HEAD side, to be replaced by the highest new
/// name.
pub open spec fn max_after(max: MaxMigrationView, rs: Seq<MigrationView>) -> MaxMigrationView {
    if rs.len() > 0 {
        match max {
            MaxMigrationView::Conflict(head, _) => MaxMigrationView::Found(
                head,
                match rs.last().name_change {
                    Some(c) => Some(c.1),
                    None => None,
                },
            ),
            _ => max,
        }
    } else {
        max
    }
}

/// What planning the renames of app `a` gives for the incoming migration
/// `incoming`: the migrations met on the walk from it before the last
/// common migration, ordered by number and renumbered after the latest
/// HEAD migration.
pub open spec fn name_changes_outcome(
    a: AppView,
    incoming: Seq<char>,
    files: Seq<(Seq<char>, Seq<char>)>,
) -> Result<AppView, Seq<char>> {
    match a.last_common {
        None => Ok(a),
        Some(lc) => match loaded_migration(migration_file_path(a.directory, incoming), files) {
            Err(e) => Err(e),
            Ok(start) => {
                let head = highest_migration(a.heads, a.rebased, a.max, true)->Ok_0;
                let ms = sorted_by_number(before_named(dependency_walk(start, files), lc));
                match renumbering(ms, name_number(head.file_name) + 1) {
                    Err(e) => Err(e),
                    Ok(rs) => Ok(
                        AppView {
                            heads: a.heads,
                            directory: a.directory,
                            last_common: a.last_common,
                            max: max_after(a.max, rs),
                            rebased: rs,
                        },
                    ),
                }
            },
        },
    }
}

/// The name of the first migration of `ws` whose file is a HEAD migration,
/// unless a merge migration comes first.
fn search_common(ws: &Vec<Migration>, heads: &Vec<Migration>) -> (r: Result<Option<MigrationFileName>, String>)
    ensures
        match r {
            Ok(n) => common_search(migrations_view(ws@), migrations_view(heads@)) == Ok::<Option<Seq<char>>, Seq<char>>(
                name_view(n),
            ),
            Err(e) => common_search(migrations_view(ws@), migrations_view(heads@)) == Err::<Option<Seq<char>>, Seq<char>>(
                e@,
            ),
        },
{
    let ghost v = migrations_view(ws@);
    let ghost h = migrations_view(heads@);
    let mut i: usize = 0;
    assert(v.skip(0) =~= v);
    while i < ws.len()
        invariant
            i <= ws.len(),
            v == migrations_view(ws@),
            h == migrations_view(heads@),
            common_search(v, h) == common_search(v.skip(i as int), h),
        decreases ws.len() - i,
    {
        proof {
            assert(v.skip(i as int).drop_first() =~= v.skip(i + 1));
            assert(v.skip(i as int)[0] == ws@[i as int]@);
        }
        let m = &ws[i];
        if find_path(heads, &m.file_path).is_some() {
            return Ok(Some(m.file_name.duplicate()));
        }
        m.is_merge_migration()?;
        i = i + 1;
    }
    Ok(None)
}

/// The migrations of `ws` before the first one named `name`.
fn take_before(ws: &Vec<Migration>, name: &MigrationFileName) -> (r: Vec<Migration>)
    ensures
        migrations_view(r@) == before_named(migrations_view(ws@), name@),
{
    let ghost v = migrations_view(ws@);
    let mut r: Vec<Migration> = Vec::new();
    let mut i: usize = 0;
    assert(v.skip(0) =~= v);
    while i < ws.len()
        invariant
            i <= ws.len(),
            v == migrations_view(ws@),
            before_named(v, name@) == migrations_view(r@) + before_named(v.skip(i as int), name@),
        decreases ws.len() - i,
    {
        proof {
            assert(v.skip(i as int).drop_first() =~= v.skip(i + 1));
            assert(v.skip(i as int)[0] == ws@[i as int]@);
        }
        if ws[i].file_name.same_as(name) {
            assert(migrations_view(r@) + Seq::<MigrationView>::empty() =~= migrations_view(r@));
            return r;
        }
        let ghost before = migrations_view(r@);
        r.push(ws[i].duplicate());
        proof {
            assert(migrations_view(r@) =~= before.push(v[i as int]));
            assert(before + (seq![v[i as int]] + before_named(v.skip(i + 1), name@)) =~= migrations_view(r@)
                + before_named(v.skip(i + 1), name@));
        }
        i = i + 1;
    }
    assert(v.skip(ws.len() as int) =~= Seq::<MigrationView>::empty());
    assert(migrations_view(r@) + Seq::<MigrationView>::empty() =~= migrations_view(r@));
    r
}

/// The migrations of `ms` ordered by number, those of one number in their
/// order in `ms`.
fn sort_by_number(ms: &Vec<Migration>) -> (r: Vec<Migration>)
    requires
        names_well_formed(migrations_view(ms@)),
    ensures
        migrations_view(r@) == sorted_by_number(migrations_view(ms@)),
{
    let ghost v = migrations_view(ms@);
    let mut r: Vec<Migration> = Vec::new();
    let mut n: u32 = 0;
    assert(migrations_view(r@) =~= sorted_below(v, 0));
    while n < 10000
        invariant
            n <= 10000,
            v == migrations_view(ms@),
            names_well_formed(v),
            migrations_view(r@) == sorted_below(v, n as int),
        decreases 10000 - n,
    {
        let ghost base = migrations_view(r@);
        let mut i: usize = 0;
        assert(v.take(0).filter(numbered(n as int)) =~= Seq::<MigrationView>::empty());
        assert(base + Seq::<MigrationView>::empty() =~= base);
        while i < ms.len()
            invariant
                i <= ms.len(),
                n < 10000,
                v == migrations_view(ms@),
                names_well_formed(v),
                base == sorted_below(v, n as int),
                migrations_view(r@) == base + v.take(i as int).filter(numbered(n as int)),
            decreases ms.len() - i,
        {
            let ghost before = migrations_view(r@);
            proof {
                assert(v.take(i + 1).drop_last() =~= v.take(i as int));
                assert(v.take(i + 1).last() == v[i as int]);
                assert(is_well_formed_name(v[i as int].file_name));
            }
            proof {
                reveal(Seq::filter);
            }
            let ghost prev = v.take(i as int).filter(numbered(n as int));
            assert(v.take(i + 1).filter(numbered(n as int)) == if numbered(n as int)(v[i as int]) {
                prev.push(v[i as int])
            } else {
                prev
            });
            if ms[i].file_name.number() == n {
                r.push(ms[i].duplicate());
                assert(migrations_view(r@) =~= before.push(v[i as int]));
                assert(base + prev.push(v[i as int]) =~= (base + prev).push(v[i as int]));
            }
            i = i + 1;
        }
        assert(v.take(ms.len() as int) =~= v);
        n = n + 1;
    }
    r
}

/// The name of migration `m` renumbered to `number`.
fn renumbered_name(number: u64, m: &Migration) -> (r: Result<MigrationFileName, String>)
    requires
        is_well_formed_name(m@.file_name),
    ensures
        match r {
            Ok(n) => new_name_for(number as int, m@) == Ok::<Seq<char>, Seq<char>>(n@),
            Err(e) => new_name_for(number as int, m@) == Err::<Seq<char>, Seq<char>>(e@),
        },
{
    if number >= 10000 {
        let mut msg = String::from_str("Migration ");
        msg.append(m.file_name.0.as_str());
        msg.append(" cannot be renumbered past 9999");
        return Err(msg);
    }
    let mut text = number_prefix(number);
    text.append("_");
    proof {
        reveal_strlit("_");
    }
    let suffix = m.file_name.name();
    text.append(suffix.as_str());
    assert(text@ =~= four_digits(number as int) + seq!['_'] + name_suffix(m@.file_name));
    MigrationFileName::try_from(text)
}

/// The migrations `ms` renumbered from `first` on.
fn renumber(ms: &Vec<Migration>, first: u64) -> (r: Result<Vec<Migration>, String>)
    requires
        names_well_formed(migrations_view(ms@)),
        first <= 10000,
    ensures
        match r {
            Ok(v) => renumbering(migrations_view(ms@), first as int) == Ok::<Seq<MigrationView>, Seq<char>>(
                migrations_view(v@),
            ),
            Err(e) => renumbering(migrations_view(ms@), first as int) == Err::<Seq<MigrationView>, Seq<char>>(
                e@,
            ),
        },
{
    let ghost v = migrations_view(ms@);
    let mut out: Vec<Migration> = Vec::new();
    let mut i: usize = 0;
    assert(v.skip(0) =~= v);
    proof {
        match renumbering(v, first as int) {
            Ok(rest) => {
                assert(migrations_view(out@) + rest =~= rest);
            },
            Err(_) => {},
        }
    }
    while i < ms.len()
        invariant
            i <= ms.len(),
            first <= 10000,
            v == migrations_view(ms@),
            names_well_formed(v),
            out@.len() == i,
            renumbering(v, first as int) == match renumbering(v.skip(i as int), first + i) {
                Ok(rest) => Ok::<Seq<MigrationView>, Seq<char>>(migrations_view(out@) + rest),
                Err(e) => Err::<Seq<MigrationView>, Seq<char>>(e),
            },
        decreases ms.len() - i,
    {
        proof {
            assert(v.skip(i as int).drop_first() =~= v.skip(i + 1));
            assert(v.skip(i as int)[0] == ms@[i as int]@);
            assert(is_well_formed_name(v[i as int].file_name));
        }
        let number: u64 = if i < 10000 {
            first + i as u64
        } else {
            10000
        };
        assert(new_name_for(number as int, v[i as int]) == new_name_for(first + i, v[i as int]));
        let n = renumbered_name(number, &ms[i])?;
        let mut m = ms[i].duplicate();
        m.from_rebased_branch = true;
        m.name_change = Some(MigrationFileNameChange::new(ms[i].file_name.duplicate(), n));
        let ghost before = migrations_view(out@);
        out.push(m);
        proof {
            assert(migrations_view(out@) =~= before.push(m@));
            match renumbering(v.skip(i + 1), first + i + 1) {
                Ok(rest) => {
                    assert(before + (seq![m@] + rest) =~= migrations_view(out@) + rest);
                },
                Err(_) => {},
            }
        }
        i = i + 1;
    }
    proof {
        assert(v.skip(ms.len() as int) =~= Seq::<MigrationView>::empty());
        assert(migrations_view(out@) + Seq::<MigrationView>::empty() =~= migrations_view(out@));
    }
    Ok(out)
}

impl DjangoApp {
    /// Finds the last migration that the rebased branch shares with HEAD:
    /// along the walk from the incoming migration `max_rebased_migration`,
    /// the first one whose file is a HEAD migration. A merge migration met
    /// before it is refused, and nothing changes then.
    pub fn set_last_common_migration(
        &mut self,
        max_rebased_migration: MigrationFileName,
        files: &Vec<SourceFile>,
    ) -> (r: Result<(), String>)
        requires
            crate::migration::file::sources_fit(sources_view(files@)),
        ensures
            match r {
                Ok(_) => last_common_outcome(old(self)@, max_rebased_migration@, sources_view(files@)) matches Ok(n)
                    && final(self)@ == with_last_common(old(self)@, n),
                Err(e) => last_common_outcome(old(self)@, max_rebased_migration@, sources_view(files@))
                    == Err::<Option<Seq<char>>, Seq<char>>(e@) && final(self)@ == old(self)@,
            },
    {
        let path = migration_path(self.directory.as_str(), &max_rebased_migration);
        let rebased_migration = Migration::try_from(path.as_str(), files)?;
        let walked = rebased_migration.walk(files);
        let found = search_common(&walked, &self.head_migrations)?;
        match found {
            Some(n) => {
                self.last_common_migration = Some(n);
            },
            None => {},
        }
        Ok(())
    }

    /// Plans the renames of the rebased migrations: those met on the walk
    /// from the incoming migration of `conflict` before the last common
    /// migration, ordered by number, are renumbered after the latest HEAD
    /// migration and kept as the rebased migrations. A conflict in
    /// `max_migration.txt` then gives way to its HEAD side, to be replaced
    /// by the highest new name. Without a last common migration nothing is
    /// planned; on an error nothing changes.
    pub fn create_migration_name_changes(&mut self, conflict: MergeConflict, files: &Vec<SourceFile>) -> (r: Result<
        (),
        String,
    >)
        requires
            crate::migration::file::sources_fit(sources_view(files@)),
            old(self)@.last_common is Some ==> {
                &&& names_well_formed(old(self)@.heads)
                &&& names_well_formed(old(self)@.rebased)
                &&& highest_migration(old(self)@.heads, old(self)@.rebased, old(self)@.max, true) is Ok
            },
        ensures
            match r {
                Ok(_) => name_changes_outcome(old(self)@, conflict.incoming_change@, sources_view(files@))
                    == Ok::<AppView, Seq<char>>(final(self)@),
                Err(e) => name_changes_outcome(old(self)@, conflict.incoming_change@, sources_view(files@))
                    == Err::<AppView, Seq<char>>(e@) && final(self)@ == old(self)@,
            },
            names_well_formed(old(self)@.heads) ==> names_well_formed(final(self)@.heads),
            names_well_formed(old(self)@.rebased) ==> names_well_formed(final(self)@.rebased),
    {
        let last_common = match &self.last_common_migration {
            None => {
                return Ok(());
            },
            Some(lc) => lc.duplicate(),
        };
        let highest_head_number = match self.find_highest_migration_number(true) {
            Some(n) => n,
            None => {
                assert(false);
                0
            },
        };
        let path = migration_path(self.directory.as_str(), &conflict.incoming_change);
        let last_incoming_migration = Migration::try_from(path.as_str(), files)?;
        proof {
            let f = file_name_of(path@)->Some_0;
            lemma_parsed_name_well_formed(f);
        }
        let walked = last_incoming_migration.walk(files);
        let before = take_before(&walked, &last_common);
        proof {
            lemma_before_named_well_formed(migrations_view(walked@), last_common@);
        }
        let sorted = sort_by_number(&before);
        proof {
            lemma_sorted_well_formed(migrations_view(before@), 10000);
        }
        let rebased = renumber(&sorted, highest_head_number as u64 + 1)?;
        proof {
            lemma_renumbering_shape(migrations_view(sorted@), highest_head_number as int + 1);
        }
        let ghost old_max = self.max_migration_result@;
        if rebased.len() > 0 {
            let new_name = match &rebased[rebased.len() - 1].name_change {
                Some(c) => c.new_name.duplicate(),
                None => {
                    assert(false);
                    MigrationFileName(String::new())
                },
            };
            let updated = match &self.max_migration_result {
                MaxMigrationResult::Conflict(merge_conflict) => Some(
                    MaxMigrationFile { current_content: merge_conflict.head.duplicate(), new_content: Some(new_name) },
                ),
                _ => None,
            };
            match updated {
                Some(f) => {
                    self.max_migration_result = MaxMigrationResult::Found(f);
                },
                None => {},
            }
        }
        assert(self.max_migration_result@ == max_after(old_max, migrations_view(rebased@)));
        self.rebased_migrations = rebased;
        Ok(())
    }
}

proof fn lemma_before_named_well_formed(ws: Seq<MigrationView>, name: Seq<char>)
    requires
        names_well_formed(ws),
    ensures
        names_well_formed(before_named(ws, name)),
    decreases ws.len(),
{
    if ws.len() > 0 && ws[0].file_name != name {
        assert(names_well_formed(ws.drop_first())) by {
            assert forall|i: int| 0 <= i < ws.drop_first().len() implies is_well_formed_name(
                #[trigger] ws.drop_first()[i].file_name,
            ) by {
                assert(ws.drop_first()[i] == ws[i + 1]);
            }
        }
        lemma_before_named_well_formed(ws.drop_first(), name);
        let r = before_named(ws, name);
        let rest = before_named(ws.drop_first(), name);
        assert forall|i: int| 0 <= i < r.len() implies is_well_formed_name(#[trigger] r[i].file_name) by {
            if i > 0 {
                assert(r[i] == rest[i - 1]);
            } else {
                assert(is_well_formed_name(ws[0].file_name));
            }
        }
    }
}

/// Every migration that `sorted_below` keeps is one of `ms`.
proof fn lemma_sorted_well_formed(ms: Seq<MigrationView>, n: int)
    requires
        names_well_formed(ms),
    ensures
        names_well_formed(sorted_below(ms, n)),
    decreases n,
{
    if n > 0 {
        lemma_sorted_well_formed(ms, n - 1);
        let a = sorted_below(ms, n - 1);
        let b = ms.filter(numbered(n - 1));
        let r = sorted_below(ms, n);
        assert forall|i: int| 0 <= i < r.len() implies is_well_formed_name(#[trigger] r[i].file_name) by {
            if i >= a.len() {
                let x = b[i - a.len()];
                assert(r[i] == x);
                assert(b.contains(x));
                ms.lemma_filter_contains_rev(numbered(n - 1), x);
                let j = choose|j: int| 0 <= j < ms.len() && ms[j] == x;
                assert(is_well_formed_name(ms[j].file_name));
            } else {
                assert(r[i] == a[i]);
            }
        }
    }
}

/// The new name of a migration renumbered to `n` is `n` in four digits
/// followed by the descriptive part of its name.
proof fn lemma_new_name(n: int, m: MigrationView)
    requires
        is_well_formed_name(m.file_name),
        n >= 0,
    ensures
        new_name_for(n, m) matches Ok(t) ==> {
            &&& t == numbered_name(n, name_suffix(m.file_name))
            &&& is_well_formed_name(t)
            &&& name_number(t) == n
        },
{
    if n < 10000 {
        let text = four_digits(n) + seq!['_'] + name_suffix(m.file_name);
        if new_name_for(n, m) is Ok {
            lemma_parsed_name_well_formed(text);
            lemma_four_digits_number(n);
            let t = new_name_for(n, m)->Ok_0;
            assert(text.take(4) =~= four_digits(n));
            assert(t.take(4) =~= t.take(5).take(4));
            assert(text.take(4) =~= text.take(5).take(4));
        }
    }
}

proof fn lemma_renumbering_elements(ms: Seq<MigrationView>, first: int)
    ensures
        renumbering(ms, first) matches Ok(rs) ==> {
            &&& rs.len() == ms.len()
            &&& forall|i: int|
                0 <= i < ms.len() ==> new_name_for(first + i, ms[i]) is Ok && #[trigger] rs[i] == renamed(
                    ms[i],
                    new_name_for(first + i, ms[i])->Ok_0,
                )
        },
    decreases ms.len(),
{
    if ms.len() > 0 {
        lemma_renumbering_elements(ms.drop_first(), first + 1);
        if renumbering(ms, first) is Ok {
            let rs = renumbering(ms, first)->Ok_0;
            let rest = renumbering(ms.drop_first(), first + 1)->Ok_0;
            let n = new_name_for(first, ms[0])->Ok_0;
            assert(rs =~= seq![renamed(ms[0], n)] + rest);
            assert forall|i: int| 0 <= i < ms.len() implies new_name_for(first + i, ms[i]) is Ok
                && #[trigger] rs[i] == renamed(ms[i], new_name_for(first + i, ms[i])->Ok_0) by {
                if i > 0 {
                    assert(rs[i] == rest[i - 1]);
                    assert(ms[i] == ms.drop_first()[i - 1]);
                    assert(first + 1 + (i - 1) == first + i);
                }
            }
        }
    }
}

/// The renumbering keeps the migrations in their order and gives the
/// `i`-th one the number `first + i`, with the descriptive part of its
/// name.
pub proof fn lemma_renumbering_shape(ms: Seq<MigrationView>, first: int)
    requires
        names_well_formed(ms),
        first >= 0,
    ensures
        renumbering(ms, first) matches Ok(rs) ==> {
            &&& rs.len() == ms.len()
            &&& forall|i: int|
                0 <= i < ms.len() ==> {
                    &&& #[trigger] rs[i] == renamed(ms[i], numbered_name(first + i, name_suffix(ms[i].file_name)))
                    &&& is_well_formed_name(numbered_name(first + i, name_suffix(ms[i].file_name)))
                    &&& name_number(numbered_name(first + i, name_suffix(ms[i].file_name))) == first + i
                }
        },
{
    lemma_renumbering_elements(ms, first);
    if renumbering(ms, first) is Ok {
        let rs = renumbering(ms, first)->Ok_0;
        assert forall|i: int| 0 <= i < ms.len() implies #[trigger] rs[i] == renamed(
            ms[i],
            numbered_name(first + i, name_suffix(ms[i].file_name)),
        ) && is_well_formed_name(numbered_name(first + i, name_suffix(ms[i].file_name)))
            && name_number(numbered_name(first + i, name_suffix(ms[i].file_name))) == first + i by {
            assert(is_well_formed_name(ms[i].file_name));
            lemma_new_name(first + i, ms[i]);
        }
    }
}

/// The migrations that planning the renames of app `a` renumbers: those met
/// on the walk from the incoming migration before the last common one.
pub open spec fn walked_before_common(a: AppView, incoming: Seq<char>, files: Seq<(Seq<char>, Seq<char>)>) -> Seq<
    MigrationView,
> {
    before_named(
        dependency_walk(loaded_migration(migration_file_path(a.directory, incoming), files)->Ok_0, files),
        a.last_common->Some_0,
    )
}

/// The number of the latest HEAD migration of app `a`.
pub open spec fn head_number(a: AppView) -> int {
    name_number(highest_migration(a.heads, a.rebased, a.max, true)->Ok_0.file_name)
}

/// Planned renames follow HEAD: the rebased migrations are those met on the
/// walk from the incoming migration before the last common one, ordered by
/// their old numbers, each kept as often as it is met; the `i`-th of them is
/// renamed to the number just past the latest HEAD migration plus `i`,
/// followed by the descriptive part of its old name.
pub proof fn lemma_renames_follow_head(a: AppView, incoming: Seq<char>, files: Seq<(Seq<char>, Seq<char>)>)
    requires
        names_well_formed(a.heads),
        names_well_formed(a.rebased),
        a.last_common is Some,
        highest_migration(a.heads, a.rebased, a.max, true) is Ok,
    ensures
        name_changes_outcome(a, incoming, files) matches Ok(b) ==> {
            let ms = sorted_by_number(walked_before_common(a, incoming, files));
            &&& ms.to_multiset() == walked_before_common(a, incoming, files).to_multiset()
            &&& b.rebased.len() == ms.len()
            &&& forall|i: int, j: int|
                0 <= i <= j < ms.len() ==> name_number(#[trigger] ms[i].file_name) <= name_number(
                    #[trigger] ms[j].file_name,
                )
            &&& forall|i: int|
                0 <= i < ms.len() ==> {
                    &&& #[trigger] b.rebased[i] == renamed(
                        ms[i],
                        numbered_name(head_number(a) + 1 + i, name_suffix(ms[i].file_name)),
                    )
                    &&& name_number(numbered_name(head_number(a) + 1 + i, name_suffix(ms[i].file_name)))
                        == head_number(a) + 1 + i
                }
        },
{
    let p = migration_file_path(a.directory, incoming);
    if name_changes_outcome(a, incoming, files) is Ok {
        let start = loaded_migration(p, files)->Ok_0;
        let f = file_name_of(p)->Some_0;
        lemma_parsed_name_well_formed(f);
        lemma_walk_exists(start, files);
        let ws = dependency_walk(start, files);
        lemma_before_named_well_formed(ws, a.last_common->Some_0);
        let before = walked_before_common(a, incoming, files);
        lemma_sorted_well_formed(before, 10000);
        lemma_sorted_by_number(before);
        lemma_highest_in(a.heads, a.rebased, a.max, true);
        let head = highest_migration(a.heads, a.rebased, a.max, true)->Ok_0;
        assert(is_well_formed_name(head.file_name));
        lemma_well_formed_number(head);
        lemma_renumbering_shape(sorted_by_number(before), head_number(a) + 1);
    }
}

/// A migration whose name has a descriptive part gets a new name for every
/// number below 10000.
proof fn lemma_new_name_ok(n: int, m: MigrationView)
    requires
        0 <= n < 10000,
        is_well_formed_name(m.file_name),
        m.file_name.len() > 5,
    ensures
        new_name_for(n, m) is Ok,
{
    let text = four_digits(n) + seq!['_'] + name_suffix(m.file_name);
    lemma_four_digits_number(n);
    assert(text.take(4) =~= four_digits(n));
    assert forall|i: int| 0 <= i < 4 implies is_ascii_digit(#[trigger] text[i]) by {
        assert(text[i] == text.take(4)[i]);
    }
}

/// Renumbering migrations whose names have a descriptive part succeeds
/// exactly when every new number fits in four digits.
pub proof fn lemma_renumbering_succeeds(ms: Seq<MigrationView>, first: int)
    requires
        names_well_formed(ms),
        forall|i: int| 0 <= i < ms.len() ==> (#[trigger] ms[i]).file_name.len() > 5,
        first >= 0,
    ensures
        renumbering(ms, first) is Ok <==> (ms.len() == 0 || first + ms.len() <= 10000),
    decreases ms.len(),
{
    if ms.len() > 0 {
        let rest = ms.drop_first();
        assert forall|i: int| 0 <= i < rest.len() implies is_well_formed_name(#[trigger] rest[i].file_name) by {
            assert(rest[i] == ms[i + 1]);
        }
        assert forall|i: int| 0 <= i < rest.len() implies (#[trigger] rest[i]).file_name.len() > 5 by {
            assert(rest[i] == ms[i + 1]);
        }
        lemma_renumbering_succeeds(rest, first + 1);
        assert(is_well_formed_name(ms[0].file_name));
        assert(ms[0].file_name.len() > 5);
        if first < 10000 {
            lemma_new_name_ok(first, ms[0]);
        }
    }
}

/// Planning the renames succeeds, once the incoming migration is loaded,
/// exactly when every new number fits in four digits: where there is
/// nothing to renumber, or the latest HEAD number plus the number of
/// migrations to renumber stays below 10000.
pub proof fn lemma_name_changes_succeed(a: AppView, incoming: Seq<char>, files: Seq<(Seq<char>, Seq<char>)>)
    requires
        a.last_common is Some,
        names_well_formed(a.heads),
        names_well_formed(a.rebased),
        highest_migration(a.heads, a.rebased, a.max, true) is Ok,
        loaded_migration(migration_file_path(a.directory, incoming), files) is Ok,
        forall|i: int|
            0 <= i < sorted_by_number(walked_before_common(a, incoming, files)).len() ==> (#[trigger] sorted_by_number(
                walked_before_common(a, incoming, files),
            )[i]).file_name.len() > 5,
    ensures
        name_changes_outcome(a, incoming, files) is Ok <==> (walked_before_common(a, incoming, files).len() == 0
            || head_number(a) + walked_before_common(a, incoming, files).len() < 10000),
{
    let p = migration_file_path(a.directory, incoming);
    let start = loaded_migration(p, files)->Ok_0;
    let f = file_name_of(p)->Some_0;
    lemma_parsed_name_well_formed(f);
    lemma_walk_exists(start, files);
    let ws = dependency_walk(start, files);
    lemma_before_named_well_formed(ws, a.last_common->Some_0);
    let before = walked_before_common(a, incoming, files);
    lemma_sorted_well_formed(before, 10000);
    lemma_sorted_by_number(before);
    lemma_highest_in(a.heads, a.rebased, a.max, true);
    let head = highest_migration(a.heads, a.rebased, a.max, true)->Ok_0;
    assert(is_well_formed_name(head.file_name));
    lemma_well_formed_number(head);
    lemma_renumbering_succeeds(sorted_by_number(before), head_number(a) + 1);
}

/// The migrations numbered below `n`.
pub open spec fn numbered_below(n: int) -> spec_fn(MigrationView) -> bool {
    |m: MigrationView| name_number(m.file_name) < n
}

proof fn lemma_well_formed_number(m: MigrationView)
    requires
        is_well_formed_name(m.file_name),
    ensures
        0 <= name_number(m.file_name) < 10000,
{
    assert(is_ascii_digit(m.file_name[0]) && is_ascii_digit(m.file_name[1]) && is_ascii_digit(m.file_name[2])
        && is_ascii_digit(m.file_name[3]));
}

/// Splitting the migrations below `n + 1` into those below `n` and those
/// numbered `n`.
proof fn lemma_filter_split(s: Seq<MigrationView>, n: int)
    ensures
        s.filter(numbered_below(n + 1)).to_multiset() =~= s.filter(numbered_below(n)).to_multiset().add(
            s.filter(numbered(n)).to_multiset(),
        ),
    decreases s.len(),
{
    reveal(Seq::filter);
    broadcast use vstd::seq_lib::group_to_multiset_ensures;
    broadcast use vstd::multiset::group_multiset_axioms;

    if s.len() > 0 {
        lemma_filter_split(s.drop_last(), n);
    }
}

/// What `sorted_below` keeps is what lies below `n`, each migration as
/// often as in `ms`.
proof fn lemma_sorted_below_multiset(ms: Seq<MigrationView>, n: int)
    requires
        names_well_formed(ms),
        n >= 0,
    ensures
        sorted_below(ms, n).to_multiset() =~= ms.filter(numbered_below(n)).to_multiset(),
    decreases n,
{
    broadcast use vstd::seq_lib::group_to_multiset_ensures;
    broadcast use vstd::multiset::group_multiset_axioms;

    if n == 0 {
        lemma_filter_none(ms);
    } else {
        lemma_sorted_below_multiset(ms, n - 1);
        vstd::seq_lib::lemma_multiset_commutative(sorted_below(ms, n - 1), ms.filter(numbered(n - 1)));
        lemma_filter_split(ms, n - 1);
    }
}

/// No well-formed name is numbered below 0.
proof fn lemma_filter_none(ms: Seq<MigrationView>)
    requires
        names_well_formed(ms),
    ensures
        ms.filter(numbered_below(0)) =~= Seq::<MigrationView>::empty(),
    decreases ms.len(),
{
    reveal(Seq::filter);
    if ms.len() > 0 {
        assert(names_well_formed(ms.drop_last())) by {
            assert forall|i: int| 0 <= i < ms.drop_last().len() implies is_well_formed_name(
                #[trigger] ms.drop_last()[i].file_name,
            ) by {
                assert(ms.drop_last()[i] == ms[i]);
            }
        }
        lemma_filter_none(ms.drop_last());
        assert(is_well_formed_name(ms[ms.len() - 1].file_name));
        lemma_well_formed_number(ms.last());
    }
}

/// Every well-formed name is numbered below 10000.
proof fn lemma_filter_all(ms: Seq<MigrationView>)
    requires
        names_well_formed(ms),
    ensures
        ms.filter(numbered_below(10000)) =~= ms,
    decreases ms.len(),
{
    reveal(Seq::filter);
    if ms.len() > 0 {
        assert(names_well_formed(ms.drop_last())) by {
            assert forall|i: int| 0 <= i < ms.drop_last().len() implies is_well_formed_name(
                #[trigger] ms.drop_last()[i].file_name,
            ) by {
                assert(ms.drop_last()[i] == ms[i]);
            }
        }
        lemma_filter_all(ms.drop_last());
        assert(is_well_formed_name(ms[ms.len() - 1].file_name));
        lemma_well_formed_number(ms.last());
        assert(ms.drop_last().push(ms.last()) =~= ms);
    }
}

/// What `sorted_below` keeps is numbered below `n`, in non-decreasing
/// order of number.
proof fn lemma_sorted_below_ordered(ms: Seq<MigrationView>, n: int)
    ensures
        forall|i: int|
            0 <= i < sorted_below(ms, n).len() ==> name_number(#[trigger] sorted_below(ms, n)[i].file_name) < n,
        forall|i: int, j: int|
            0 <= i <= j < sorted_below(ms, n).len() ==> name_number(#[trigger] sorted_below(ms, n)[i].file_name)
                <= name_number(#[trigger] sorted_below(ms, n)[j].file_name),
    decreases n,
{
    broadcast use vstd::seq_lib::group_filter_ensures;

    if n > 0 {
        lemma_sorted_below_ordered(ms, n - 1);
        let a = sorted_below(ms, n - 1);
        let b = ms.filter(numbered(n - 1));
        let r = sorted_below(ms, n);
        assert forall|i: int| 0 <= i < r.len() implies name_number(#[trigger] r[i].file_name) < n by {
            if i < a.len() {
                assert(r[i] == a[i]);
            } else {
                assert(r[i] == b[i - a.len()]);
                assert(numbered(n - 1)(b[i - a.len()]));
            }
        }
        assert forall|i: int, j: int| 0 <= i <= j < r.len() implies name_number(#[trigger] r[i].file_name)
            <= name_number(#[trigger] r[j].file_name) by {
            if j < a.len() {
                assert(r[i] == a[i]);
                assert(r[j] == a[j]);
            } else if i < a.len() {
                assert(r[i] == a[i]);
                assert(r[j] == b[j - a.len()]);
                assert(numbered(n - 1)(b[j - a.len()]));
            } else {
                assert(r[i] == b[i - a.len()]);
                assert(r[j] == b[j - a.len()]);
                assert(numbered(n - 1)(b[i - a.len()]));
                assert(numbered(n - 1)(b[j - a.len()]));
            }
        }
    }
}

/// Ordering migrations by number puts them in non-decreasing order of
/// their numbers and keeps each of them, as often as it occurs.
pub proof fn lemma_sorted_by_number(ms: Seq<MigrationView>)
    requires
        names_well_formed(ms),
    ensures
        sorted_by_number(ms).to_multiset() == ms.to_multiset(),
        sorted_by_number(ms).len() == ms.len(),
        forall|i: int, j: int|
            0 <= i <= j < sorted_by_number(ms).len() ==> name_number(#[trigger] sorted_by_number(ms)[i].file_name)
                <= name_number(#[trigger] sorted_by_number(ms)[j].file_name),
{
    broadcast use vstd::seq_lib::group_to_multiset_ensures;

    lemma_sorted_below_multiset(ms, 10000);
    lemma_filter_all(ms);
    lemma_sorted_below_ordered(ms, 10000);
    assert(sorted_by_number(ms).to_multiset().len() == ms.to_multiset().len());
}

/// Some dependency of `deps` is on a migration of `app`.
proof fn lemma_same_app_count_one(deps: Seq<(Seq<char>, Seq<char>)>, app: Seq<char>)
    ensures
        same_app_count(deps, app) >= 1 <==> exists|a: int| 0 <= a < deps.len() && (#[trigger] deps[a]).0 == app,
    decreases deps.len(),
{
    if deps.len() > 0 {
        let d = deps.drop_last();
        lemma_same_app_count_one(d, app);
        if exists|a: int| 0 <= a < d.len() && (#[trigger] d[a]).0 == app {
            let a = choose|a: int| 0 <= a < d.len() && (#[trigger] d[a]).0 == app;
            assert(deps[a] == d[a]);
        }
        if exists|a: int| 0 <= a < deps.len() && (#[trigger] deps[a]).0 == app {
            let a = choose|a: int| 0 <= a < deps.len() && (#[trigger] deps[a]).0 == app;
            if a < deps.len() - 1 {
                assert(d[a] == deps[a]);
            }
        }
    }
}

/// Two dependencies of `deps` are on migrations of `app` exactly when the
/// count of such dependencies is above one.
pub proof fn lemma_same_app_count_two(deps: Seq<(Seq<char>, Seq<char>)>, app: Seq<char>)
    ensures
        same_app_count(deps, app) > 1 <==> exists|a: int, b: int|
            0 <= a < b < deps.len() && (#[trigger] deps[a]).0 == app && (#[trigger] deps[b]).0 == app,
    decreases deps.len(),
{
    if deps.len() > 0 {
        let d = deps.drop_last();
        lemma_same_app_count_two(d, app);
        lemma_same_app_count_one(d, app);
        if exists|a: int, b: int| 0 <= a < b < d.len() && (#[trigger] d[a]).0 == app && (#[trigger] d[b]).0 == app {
            let (a, b) = choose|a: int, b: int| 0 <= a < b < d.len() && (#[trigger] d[a]).0 == app && (#[trigger] d[b]).0 == app;
            assert(deps[a] == d[a] && deps[b] == d[b]);
        }
        if same_app_count(d, app) >= 1 && deps.last().0 == app {
            let a = choose|a: int| 0 <= a < d.len() && (#[trigger] d[a]).0 == app;
            assert(deps[a] == d[a]);
            assert(deps[deps.len() - 1] == deps.last());
        }
        if exists|a: int, b: int| 0 <= a < b < deps.len() && (#[trigger] deps[a]).0 == app && (#[trigger] deps[b]).0 == app {
            let (a, b) = choose|a: int, b: int| 0 <= a < b < deps.len() && (#[trigger] deps[a]).0 == app && (#[trigger] deps[b]).0 == app;
            assert(d[a] == deps[a]);
            if b < deps.len() - 1 {
                assert(d[b] == deps[b]);
            } else {
                assert(deps.last().0 == app);
            }
        }
    }
}

/// The search for the last common migration refuses only merge
/// migrations: where it fails, the walk meets, before any HEAD migration, a
/// migration with two dependencies on migrations of its own app, and the
/// error names it; a walk without such a migration is never refused,
/// whatever dependencies on other apps its migrations have.
pub proof fn lemma_common_search_refuses_only_merges(ws: Seq<MigrationView>, heads: Seq<MigrationView>)
    ensures
        common_search(ws, heads) matches Err(e) ==> exists|k: int|
            {
                &&& 0 <= k < ws.len()
                &&& forall|j: int| 0 <= j <= k ==> path_index(heads, (#[trigger] ws[j]).file_path) < 0
                &&& exists|a: int, b: int|
                    0 <= a < b < ws[k].dependencies.len() && (#[trigger] ws[k].dependencies[a]).0 == ws[k].app_name
                        && (#[trigger] ws[k].dependencies[b]).0 == ws[k].app_name
                &&& e == merge_migration_message(ws[k].file_name)
            },
        (forall|k: int, a: int, b: int|
            0 <= k < ws.len() && 0 <= a < b < ws[k].dependencies.len() ==> !((#[trigger] ws[k].dependencies[a]).0
                == ws[k].app_name && (#[trigger] ws[k].dependencies[b]).0 == ws[k].app_name)) ==> common_search(
            ws,
            heads,
        ) is Ok,
    decreases ws.len(),
{
    if ws.len() > 0 {
        let t = ws.drop_first();
        lemma_common_search_refuses_only_merges(t, heads);
        lemma_same_app_count_two(ws[0].dependencies, ws[0].app_name);
        if path_index(heads, ws[0].file_path) < 0 {
            if same_app_count(ws[0].dependencies, ws[0].app_name) > 1 {
                if common_search(ws, heads) is Err {
                    assert(forall|j: int| 0 <= j <= 0 ==> path_index(heads, (#[trigger] ws[j]).file_path) < 0);
                }
            } else {
                if common_search(ws, heads) is Err {
                    let e = common_search(ws, heads)->Err_0;
                    let k = choose|k: int|
                        {
                            &&& 0 <= k < t.len()
                            &&& forall|j: int| 0 <= j <= k ==> path_index(heads, (#[trigger] t[j]).file_path) < 0
                            &&& exists|a: int, b: int|
                                0 <= a < b < t[k].dependencies.len() && (#[trigger] t[k].dependencies[a]).0
                                    == t[k].app_name && (#[trigger] t[k].dependencies[b]).0 == t[k].app_name
                            &&& e == merge_migration_message(t[k].file_name)
                        };
                    assert(ws[k + 1] == t[k]);
                    assert forall|j: int| 0 <= j <= k + 1 implies path_index(heads, (#[trigger] ws[j]).file_path) < 0 by {
                        if j > 0 {
                            assert(ws[j] == t[j - 1]);
                        }
                    }
                }
                if forall|k: int, a: int, b: int|
                    0 <= k < ws.len() && 0 <= a < b < ws[k].dependencies.len() ==> !((#[trigger] ws[k].dependencies[a]).0
                        == ws[k].app_name && (#[trigger] ws[k].dependencies[b]).0 == ws[k].app_name) {
                    assert forall|k: int, a: int, b: int|
                        0 <= k < t.len() && 0 <= a < b < t[k].dependencies.len() implies !((#[trigger] t[k].dependencies[a]).0
                            == t[k].app_name && (#[trigger] t[k].dependencies[b]).0 == t[k].app_name) by {
                        assert(t[k] == ws[k + 1]);
                    }
                }
            }
        }
        if forall|k: int, a: int, b: int|
            0 <= k < ws.len() && 0 <= a < b < ws[k].dependencies.len() ==> !((#[trigger] ws[k].dependencies[a]).0
                == ws[k].app_name && (#[trigger] ws[k].dependencies[b]).0 == ws[k].app_name) {
            assert(same_app_count(ws[0].dependencies, ws[0].app_name) <= 1);
        }
    }
}

/// The last common migration that the search finds is one of the walk
/// whose file is a HEAD migration, and every migration before it on the
/// walk is neither a HEAD migration nor a merge migration.
pub proof fn lemma_common_search_found(ws: Seq<MigrationView>, heads: Seq<MigrationView>)
    ensures
        common_search(ws, heads) matches Ok(Some(n)) ==> exists|k: int|
            0 <= k < ws.len() && ws[k].file_name == n && path_index(heads, #[trigger] ws[k].file_path) >= 0 && forall|
                j: int,
            |
                0 <= j < k ==> path_index(heads, #[trigger] ws[j].file_path) < 0 && same_app_count(
                    ws[j].dependencies,
                    ws[j].app_name,
                ) <= 1,
    decreases ws.len(),
{
    if ws.len() > 0 && path_index(heads, ws[0].file_path) < 0 && same_app_count(ws[0].dependencies, ws[0].app_name)
        <= 1 {
        lemma_common_search_found(ws.drop_first(), heads);
        if common_search(ws, heads) is Ok && common_search(ws, heads)->Ok_0 is Some {
            let n = common_search(ws, heads)->Ok_0->Some_0;
            let t = ws.drop_first();
            let k = choose|k: int|
                0 <= k < t.len() && t[k].file_name == n && path_index(heads, #[trigger] t[k].file_path) >= 0
                    && forall|j: int|
                    0 <= j < k ==> path_index(heads, #[trigger] t[j].file_path) < 0 && same_app_count(
                        t[j].dependencies,
                        t[j].app_name,
                    ) <= 1;
            assert(ws[k + 1] == t[k]);
            assert forall|j: int| 0 <= j < k + 1 implies path_index(heads, #[trigger] ws[j].file_path) < 0
                && same_app_count(ws[j].dependencies, ws[j].app_name) <= 1 by {
                if j > 0 {
                    assert(ws[j] == t[j - 1]);
                }
            }
        }
    }
}

} // verus!
