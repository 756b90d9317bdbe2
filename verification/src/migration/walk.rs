//! The whole walk from a migration through its dependencies within its
//! app, as a sequence, with the proof that the walk ends.

use vstd::prelude::*;
use vstd::set_lib::{lemma_int_range, set_int_range};
use crate::migration::file::{
    is_well_formed_name, lemma_parsed_name_well_formed, parse_file_name,
    loaded_dependency, loaded_migration, migration_key, migrations_view, pushed_dependencies,
    source_of, sources_view, unvisited_top, Migration, MigrationView, SourceFile,
};

verus! {

/// What one step of the walk does in the state (stack, visited keys):
/// the migration it yields, if any, and the next state.
pub open spec fn walk_step(
    s: (Seq<MigrationView>, Seq<Seq<char>>),
    files: Seq<(Seq<char>, Seq<char>)>,
) -> (Option<MigrationView>, (Seq<MigrationView>, Seq<Seq<char>>)) {
    let top = unvisited_top(s.0, s.1);
    if top.len() == 0 {
        (None, (top, s.1))
    } else {
        let c = top.last();
        let v = s.1.push(migration_key(c));
        (Some(c), (top.drop_last() + pushed_dependencies(c.dependencies, c, v, files), v))
    }
}

/// `out` is what the walk from `start` yields until it stops, passing
/// through `states`.
pub open spec fn is_walk(
    start: MigrationView,
    files: Seq<(Seq<char>, Seq<char>)>,
    states: Seq<(Seq<MigrationView>, Seq<Seq<char>>)>,
    out: Seq<MigrationView>,
) -> bool {
    &&& states.len() == out.len() + 1
    &&& states[0] == (seq![start], Seq::<Seq<char>>::empty())
    &&& forall|i: int| 0 <= i < out.len() ==> #[trigger] walk_step(states[i], files) == (Some(out[i]), states[i + 1])
    &&& walk_step(states.last(), files).0 is None
}

/// What the walk from `start` yields.
pub open spec fn dependency_walk(start: MigrationView, files: Seq<(Seq<char>, Seq<char>)>) -> Seq<MigrationView> {
    choose|out: Seq<MigrationView>| has_walk(start, files, out)
}

/// Some states lead the walk from `start` to yield `out`.
pub open spec fn has_walk(start: MigrationView, files: Seq<(Seq<char>, Seq<char>)>, out: Seq<MigrationView>) -> bool {
    exists|states| #[trigger] is_walk(start, files, states, out)
}

proof fn lemma_walk_agree(
    start: MigrationView,
    files: Seq<(Seq<char>, Seq<char>)>,
    st1: Seq<(Seq<MigrationView>, Seq<Seq<char>>)>,
    o1: Seq<MigrationView>,
    st2: Seq<(Seq<MigrationView>, Seq<Seq<char>>)>,
    o2: Seq<MigrationView>,
    i: int,
)
    requires
        is_walk(start, files, st1, o1),
        is_walk(start, files, st2, o2),
        0 <= i <= o1.len(),
        i <= o2.len(),
    ensures
        st1[i] == st2[i],
        forall|k: int| 0 <= k < i ==> o1[k] == o2[k],
    decreases i,
{
    if i > 0 {
        lemma_walk_agree(start, files, st1, o1, st2, o2, i - 1);
        assert(walk_step(st1[i - 1], files) == (Some(o1[i - 1]), st1[i]));
        assert(walk_step(st2[i - 1], files) == (Some(o2[i - 1]), st2[i]));
    }
}

/// The walk is determined by where it starts.
pub proof fn lemma_walk_unique(
    start: MigrationView,
    files: Seq<(Seq<char>, Seq<char>)>,
    st1: Seq<(Seq<MigrationView>, Seq<Seq<char>>)>,
    o1: Seq<MigrationView>,
    st2: Seq<(Seq<MigrationView>, Seq<Seq<char>>)>,
    o2: Seq<MigrationView>,
)
    requires
        is_walk(start, files, st1, o1),
        is_walk(start, files, st2, o2),
    ensures
        o1 == o2,
{
    let n: int = if o1.len() <= o2.len() { o1.len() as int } else { o2.len() as int };
    lemma_walk_agree(start, files, st1, o1, st2, o2, n);
    if o1.len() < o2.len() {
        assert(walk_step(st2[n], files) == (Some(o2[n]), st2[n + 1]));
        assert(st1.last() == st1[n]);
    } else if o2.len() < o1.len() {
        assert(walk_step(st1[n], files) == (Some(o1[n]), st1[n + 1]));
        assert(st2.last() == st2[n]);
    }
    assert(o1 =~= o2);
}

/// The key of the migration that the file at index `j` of `files` loads,
/// or that of `start` where it does not load.
pub open spec fn index_key(files: Seq<(Seq<char>, Seq<char>)>, start: MigrationView, j: int) -> Seq<char> {
    match loaded_migration(files[j].0, files) {
        Ok(m) => migration_key(m),
        Err(_) => migration_key(start),
    }
}

/// Every key that the walk from `start` can meet.
pub open spec fn walk_keys(files: Seq<(Seq<char>, Seq<char>)>, start: MigrationView) -> Set<Seq<char>> {
    set_int_range(0, files.len() as int).map(|j: int| index_key(files, start, j)).insert(migration_key(start))
}

proof fn lemma_walk_keys_finite(files: Seq<(Seq<char>, Seq<char>)>, start: MigrationView)
    ensures
        walk_keys(files, start).finite(),
{
    lemma_int_range(0, files.len() as int);
    set_int_range(0, files.len() as int).lemma_map_finite(|j: int| index_key(files, start, j));
}

proof fn lemma_source_index(files: Seq<(Seq<char>, Seq<char>)>, p: Seq<char>)
    requires
        source_of(files, p) is Some,
    ensures
        exists|j: int| 0 <= j < files.len() && files[j].0 == p,
    decreases files.len(),
{
    if files[0].0 != p {
        lemma_source_index(files.drop_first(), p);
        let j = choose|j: int| 0 <= j < files.len() - 1 && files.drop_first()[j].0 == p;
        assert(files[j + 1].0 == p);
    }
}

proof fn lemma_pushed_in_keys(
    deps: Seq<(Seq<char>, Seq<char>)>,
    c: MigrationView,
    v: Seq<Seq<char>>,
    files: Seq<(Seq<char>, Seq<char>)>,
    start: MigrationView,
)
    ensures
        forall|i: int| 0 <= i < pushed_dependencies(deps, c, v, files).len()
            ==> walk_keys(files, start).contains(migration_key(#[trigger] pushed_dependencies(deps, c, v, files)[i])),
    decreases deps.len(),
{
    if deps.len() > 0 {
        lemma_pushed_in_keys(deps.drop_first(), c, v, files, start);
        let rest = pushed_dependencies(deps.drop_first(), c, v, files);
        match loaded_dependency(deps[0], c, files) {
            Ok(m) => {
                let p = crate::paths::with_py_extension(crate::paths::join_path(crate::migration::file::parent_text(c.file_path), deps[0].1));
                lemma_source_index(files, p);
                let j = choose|j: int| 0 <= j < files.len() && files[j].0 == p;
                assert(index_key(files, start, j) == migration_key(m));
                assert(set_int_range(0, files.len() as int).contains(j));
                assert(walk_keys(files, start).contains(migration_key(m)));
                let all = pushed_dependencies(deps, c, v, files);
                assert forall|i: int| 0 <= i < all.len() implies walk_keys(files, start).contains(
                    migration_key(#[trigger] all[i]),
                ) by {
                    if i < rest.len() {
                        assert(all[i] == rest[i]);
                    }
                }
            },
            Err(_) => {},
        }
    }
}

proof fn lemma_pushed_well_formed(
    deps: Seq<(Seq<char>, Seq<char>)>,
    c: MigrationView,
    v: Seq<Seq<char>>,
    files: Seq<(Seq<char>, Seq<char>)>,
)
    ensures
        forall|i: int| 0 <= i < pushed_dependencies(deps, c, v, files).len()
            ==> is_well_formed_name(#[trigger] pushed_dependencies(deps, c, v, files)[i].file_name),
    decreases deps.len(),
{
    if deps.len() > 0 {
        lemma_pushed_well_formed(deps.drop_first(), c, v, files);
        let rest = pushed_dependencies(deps.drop_first(), c, v, files);
        match loaded_dependency(deps[0], c, files) {
            Ok(m) => {
                let p = crate::paths::with_py_extension(crate::paths::join_path(crate::migration::file::parent_text(c.file_path), deps[0].1));
                let f = crate::paths::file_name_of(p)->Some_0;
                lemma_parsed_name_well_formed(f);
                let all = pushed_dependencies(deps, c, v, files);
                assert forall|i: int| 0 <= i < all.len() implies is_well_formed_name(#[trigger] all[i].file_name) by {
                    if i < rest.len() {
                        assert(all[i] == rest[i]);
                    }
                }
            },
            Err(_) => {},
        }
    }
}

proof fn lemma_unvisited_top_prefix(s: Seq<MigrationView>, v: Seq<Seq<char>>)
    ensures
        unvisited_top(s, v).len() <= s.len(),
        forall|i: int| 0 <= i < unvisited_top(s, v).len() ==> #[trigger] unvisited_top(s, v)[i] == s[i],
        unvisited_top(s, v).len() > 0 ==> !v.contains(migration_key(unvisited_top(s, v).last())),
    decreases s.len(),
{
    if s.len() > 0 && v.contains(migration_key(s.last())) {
        lemma_unvisited_top_prefix(s.drop_last(), v);
    }
}

/// The keys of `ms`.
pub open spec fn keys_of(ms: Seq<MigrationView>) -> Seq<Seq<char>> {
    ms.map_values(|m: MigrationView| migration_key(m))
}

proof fn lemma_walk_visited(
    start: MigrationView,
    files: Seq<(Seq<char>, Seq<char>)>,
    states: Seq<(Seq<MigrationView>, Seq<Seq<char>>)>,
    out: Seq<MigrationView>,
    k: int,
)
    requires
        is_walk(start, files, states, out),
        0 <= k <= out.len(),
    ensures
        states[k].1 == keys_of(out.take(k)),
        forall|i: int, j: int| 0 <= i < j < k ==> migration_key(#[trigger] out[i]) != migration_key(#[trigger] out[j]),
    decreases k,
{
    if k == 0 {
        assert(keys_of(out.take(0)) =~= Seq::<Seq<char>>::empty());
    } else {
        lemma_walk_visited(start, files, states, out, k - 1);
        let s = states[k - 1];
        assert(walk_step(s, files) == (Some(out[k - 1]), states[k]));
        lemma_unvisited_top_prefix(s.0, s.1);
        assert(!s.1.contains(migration_key(out[k - 1])));
        assert(keys_of(out.take(k)) =~= keys_of(out.take(k - 1)).push(migration_key(out[k - 1])));
        assert forall|i: int, j: int| 0 <= i < j < k implies migration_key(#[trigger] out[i]) != migration_key(
            #[trigger] out[j],
        ) by {
            if j == k - 1 {
                assert(s.1[i] == migration_key(out[i]));
            }
        }
    }
}

/// A walk starts with the migration that it starts from and meets no
/// migration twice: no two of the migrations it yields have the same app
/// and name.
pub proof fn lemma_walk_shape(
    start: MigrationView,
    files: Seq<(Seq<char>, Seq<char>)>,
    states: Seq<(Seq<MigrationView>, Seq<Seq<char>>)>,
    out: Seq<MigrationView>,
)
    requires
        is_walk(start, files, states, out),
    ensures
        out.len() >= 1,
        out[0] == start,
        forall|i: int, j: int|
            0 <= i < j < out.len() ==> migration_key(#[trigger] out[i]) != migration_key(#[trigger] out[j]),
{
    let s0 = states[0];
    assert(unvisited_top(s0.0, s0.1) == seq![start]);
    if out.len() == 0 {
        assert(states.last() == s0);
    } else {
        assert(walk_step(states[0], files) == (Some(out[0]), states[1]));
    }
    lemma_walk_visited(start, files, states, out, out.len() as int);
}

/// Continues the walk from the states met so far until it stops.
proof fn lemma_walk_from(
    start: MigrationView,
    files: Seq<(Seq<char>, Seq<char>)>,
    states: Seq<(Seq<MigrationView>, Seq<Seq<char>>)>,
    out: Seq<MigrationView>,
) -> (r: (Seq<(Seq<MigrationView>, Seq<Seq<char>>)>, Seq<MigrationView>))
    requires
        walk_keys(files, start).finite(),
        states.len() == out.len() + 1,
        states[0] == (seq![start], Seq::<Seq<char>>::empty()),
        forall|i: int| 0 <= i < out.len() ==> #[trigger] walk_step(states[i], files) == (Some(out[i]), states[i + 1]),
        forall|i: int|
            0 <= i < states.last().0.len() ==> walk_keys(files, start).contains(
                migration_key(#[trigger] states.last().0[i]),
            ),
        is_well_formed_name(start.file_name) ==> forall|i: int|
            0 <= i < states.last().0.len() ==> is_well_formed_name(#[trigger] states.last().0[i].file_name),
        is_well_formed_name(start.file_name) ==> forall|i: int|
            0 <= i < out.len() ==> is_well_formed_name(#[trigger] out[i].file_name),
    ensures
        is_walk(start, files, r.0, r.1),
        is_well_formed_name(start.file_name) ==> forall|i: int|
            0 <= i < r.1.len() ==> is_well_formed_name(#[trigger] r.1[i].file_name),
    decreases walk_keys(files, start).difference(states.last().1.to_set()).len(),
{
    let keys = walk_keys(files, start);
    let st = states.last();
    let top = unvisited_top(st.0, st.1);
    lemma_unvisited_top_prefix(st.0, st.1);
    if top.len() == 0 {
        (states, out)
    } else {
        let c = top.last();
        let v1 = st.1.push(migration_key(c));
        let pushed = pushed_dependencies(c.dependencies, c, v1, files);
        let dropped = top.drop_last();
        let ns = dropped + pushed;
        assert(top[top.len() - 1] == st.0[top.len() - 1]);
        assert(keys.contains(migration_key(c)));
        lemma_pushed_in_keys(c.dependencies, c, v1, files, start);
        lemma_pushed_well_formed(c.dependencies, c, v1, files);
        assert forall|i: int| 0 <= i < ns.len() implies keys.contains(migration_key(#[trigger] ns[i])) by {
            if i < dropped.len() {
                assert(ns[i] == dropped[i]);
                assert(dropped[i] == st.0[i]);
            } else {
                assert(ns[i] == pushed[i - dropped.len()]);
            }
        }
        if is_well_formed_name(start.file_name) {
            assert(is_well_formed_name(c.file_name)) by {
                assert(c == st.0[top.len() - 1]);
            }
            assert forall|i: int| 0 <= i < ns.len() implies is_well_formed_name(#[trigger] ns[i].file_name) by {
                if i < dropped.len() {
                    assert(ns[i] == dropped[i]);
                    assert(dropped[i] == st.0[i]);
                } else {
                    assert(ns[i] == pushed[i - dropped.len()]);
                }
            }
        }
        let d0 = keys.difference(st.1.to_set());
        let d1 = keys.difference(v1.to_set());
        st.1.lemma_push_to_set_commute(migration_key(c));
        assert(d1 =~= d0.remove(migration_key(c)));
        assert(d0.contains(migration_key(c)));
        vstd::set_lib::lemma_len_difference(keys, st.1.to_set());
        let states2 = states.push((ns, v1));
        let out2 = out.push(c);
        assert(walk_step(st, files) == (Some(c), (ns, v1)));
        assert forall|i: int| 0 <= i < out2.len() implies #[trigger] walk_step(states2[i], files) == (
            Some(out2[i]),
            states2[i + 1],
        ) by {
            if i < out.len() {
                assert(states2[i] == states[i]);
                assert(states2[i + 1] == states[i + 1]);
            }
        }
        assert(states2.last() == (ns, v1));
        lemma_walk_from(start, files, states2, out2)
    }
}

/// The walk from a migration exists: it stops, and where the migration has
/// a well-formed name, so has every migration it meets.
pub proof fn lemma_walk_exists(start: MigrationView, files: Seq<(Seq<char>, Seq<char>)>)
    ensures
        has_walk(start, files, dependency_walk(start, files)),
        is_well_formed_name(start.file_name) ==> forall|i: int|
            0 <= i < dependency_walk(start, files).len() ==> is_well_formed_name(
                #[trigger] dependency_walk(start, files)[i].file_name,
            ),
{
    lemma_walk_keys_finite(files, start);
    let init = (seq![start], Seq::<Seq<char>>::empty());
    let keys = walk_keys(files, start);
    assert(keys.contains(migration_key(start)));
    assert(seq![init].last() == init);
    assert forall|i: int| 0 <= i < seq![init].last().0.len() implies keys.contains(
        migration_key(#[trigger] seq![init].last().0[i]),
    ) by {
        assert(seq![init].last().0[i] == start);
    }
    let r = lemma_walk_from(start, files, seq![init], Seq::<MigrationView>::empty());
    assert(has_walk(start, files, r.1));
    let o = dependency_walk(start, files);
    let st = choose|st| is_walk(start, files, st, o);
    lemma_walk_unique(start, files, st, o, r.0, r.1);
}

impl Migration {
    /// Every migration of the walk from this one, in the order the walk
    /// meets them.
    pub fn walk(&self, files: &Vec<SourceFile>) -> (r: Vec<Migration>)
        requires
            crate::migration::file::sources_fit(sources_view(files@)),
        ensures
            migrations_view(r@) == dependency_walk(self@, sources_view(files@)),
            has_walk(self@, sources_view(files@), migrations_view(r@)),
            is_well_formed_name(self@.file_name) ==> forall|i: int| 0 <= i < r@.len()
                ==> is_well_formed_name(#[trigger] migrations_view(r@)[i].file_name),
    {
        let ghost fv = sources_view(files@);
        let ghost keys = walk_keys(fv, self@);
        proof {
            lemma_walk_keys_finite(fv, self@);
        }
        let mut it = self.iter();
        let mut out: Vec<Migration> = Vec::new();
        let ghost mut states: Seq<(Seq<MigrationView>, Seq<Seq<char>>)> = seq![
            (seq![self@], Seq::<Seq<char>>::empty()),
        ];
        loop
            invariant
                fv == sources_view(files@),
                crate::migration::file::sources_fit(sources_view(files@)),
                keys == walk_keys(fv, self@),
                keys.finite(),
                states.len() == out@.len() + 1,
                states[0] == (seq![self@], Seq::<Seq<char>>::empty()),
                forall|i: int| 0 <= i < out@.len() ==> #[trigger] walk_step(states[i], fv) == (
                    Some(migrations_view(out@)[i]),
                    states[i + 1],
                ),
                states.last() == (it.dependency_iterator.stack_view(), it.dependency_iterator.visited_view()),
                forall|i: int| 0 <= i < it.dependency_iterator.stack_view().len()
                    ==> keys.contains(migration_key(#[trigger] it.dependency_iterator.stack_view()[i])),
                is_well_formed_name(self@.file_name) ==> forall|i: int| 0 <= i < it.dependency_iterator.stack_view().len()
                    ==> is_well_formed_name(#[trigger] it.dependency_iterator.stack_view()[i].file_name),
                is_well_formed_name(self@.file_name) ==> forall|i: int| 0 <= i < out@.len()
                    ==> is_well_formed_name(#[trigger] migrations_view(out@)[i].file_name),
            decreases keys.difference(it.dependency_iterator.visited_view().to_set()).len(),
        {
            let ghost s0 = it.dependency_iterator.stack_view();
            let ghost v0 = it.dependency_iterator.visited_view();
            proof {
                lemma_unvisited_top_prefix(s0, v0);
            }
            match it.next(files) {
                None => {
                    proof {
                        assert(walk_step(states.last(), fv).0 is None);
                        assert(is_walk(self@, fv, states, migrations_view(out@)));
                        assert(has_walk(self@, fv, migrations_view(out@)));
                        let o = dependency_walk(self@, fv);
                        let st = choose|st| is_walk(self@, fv, st, o);
                        lemma_walk_unique(self@, fv, st, o, states, migrations_view(out@));
                    }
                    return out;
                },
                Some(c) => {
                    let ghost top = unvisited_top(s0, v0);
                    let ghost old_out = migrations_view(out@);
                    let ghost old_states = states;
                    proof {
                        assert(top[top.len() - 1] == s0[top.len() - 1]);
                        assert(keys.contains(migration_key(c@)));
                        lemma_pushed_in_keys(c@.dependencies, c@, v0.push(migration_key(c@)), fv, self@);
                        lemma_pushed_well_formed(c@.dependencies, c@, v0.push(migration_key(c@)), fv);
                        let dropped = top.drop_last();
                        let pushed = pushed_dependencies(c@.dependencies, c@, v0.push(migration_key(c@)), fv);
                        let ns = it.dependency_iterator.stack_view();
                        assert forall|i: int| 0 <= i < ns.len() implies keys.contains(migration_key(#[trigger] ns[i])) by {
                            if i < dropped.len() {
                                assert(ns[i] == dropped[i]);
                                assert(dropped[i] == s0[i]);
                            } else {
                                assert(ns[i] == pushed[i - dropped.len()]);
                            }
                        }
                        if is_well_formed_name(self@.file_name) {
                            assert(is_well_formed_name(c@.file_name));
                            assert forall|i: int| 0 <= i < ns.len() implies is_well_formed_name(#[trigger] ns[i].file_name) by {
                                if i < dropped.len() {
                                    assert(ns[i] == dropped[i]);
                                    assert(dropped[i] == s0[i]);
                                } else {
                                    assert(ns[i] == pushed[i - dropped.len()]);
                                }
                            }
                        }
                        let d0 = keys.difference(v0.to_set());
                        let d1 = keys.difference(v0.push(migration_key(c@)).to_set());
                        v0.lemma_push_to_set_commute(migration_key(c@));
                        assert(d1 =~= d0.remove(migration_key(c@)));
                        assert(d0.contains(migration_key(c@)));
                        vstd::set_lib::lemma_len_difference(keys, v0.to_set());
                        assert(d0.finite());
                    }
                    out.push(c);
                    proof {
                        states = states.push((it.dependency_iterator.stack_view(), it.dependency_iterator.visited_view()));
                        assert(migrations_view(out@) =~= old_out.push(c@));
                        assert(is_well_formed_name(self@.file_name) ==> is_well_formed_name(c@.file_name));
                        assert forall|i: int| 0 <= i < out@.len() implies #[trigger] walk_step(states[i], fv) == (
                            Some(migrations_view(out@)[i]),
                            states[i + 1],
                        ) by {
                            if i < out@.len() - 1 {
                                assert(states[i] == old_states[i]);
                                assert(states[i + 1] == old_states[i + 1]);
                                assert(migrations_view(out@)[i] == old_out[i]);
                            } else {
                                assert(states[i] == old_states.last());
                            }
                        }
                    }
                },
            }
        }
    }
}

} // verus!
