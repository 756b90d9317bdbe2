//! Paths as text, with the meaning that Unix paths have: joining, the
//! components of a path and the change of a file's extension.

use vstd::prelude::*;
use vstd::string::*;

verus! {

/// `dir` joined with the relative or absolute path `name`.
pub open spec fn join_path(dir: Seq<char>, name: Seq<char>) -> Seq<char> {
    if name.len() > 0 && name[0] == '/' {
        name
    } else if dir.len() == 0 {
        name
    } else if dir.last() == '/' {
        dir + name
    } else {
        dir + seq!['/'] + name
    }
}

/// The pieces of `p` between its slashes, empty pieces included.
pub open spec fn raw_segments(p: Seq<char>) -> Seq<Seq<char>>
    decreases p.len(),
{
    if p.len() == 0 {
        seq![Seq::empty()]
    } else if p.last() == '/' {
        raw_segments(p.drop_last()).push(Seq::empty())
    } else {
        let s = raw_segments(p.drop_last());
        s.update(s.len() - 1, s.last().push(p.last()))
    }
}

/// A piece that names a directory entry: neither empty nor `.`.
pub open spec fn is_kept_segment(s: Seq<char>) -> bool {
    s.len() > 0 && s != seq!['.']
}

/// The components of `p`: the root `/` where `p` is absolute, a leading
/// `.` where a relative `p` starts with one, then every other non-empty
/// piece that is not `.`.
pub open spec fn path_components(p: Seq<char>) -> Seq<Seq<char>> {
    let raw = raw_segments(p);
    let root: Seq<Seq<char>> = if p.len() > 0 && p[0] == '/' {
        seq![seq!['/']]
    } else {
        Seq::empty()
    };
    let first: Seq<Seq<char>> = if raw[0].len() > 0 {
        seq![raw[0]]
    } else {
        Seq::empty()
    };
    root + first + raw.skip(1).filter(kept_segment())
}

/// `is_kept_segment` as a predicate value.
pub open spec fn kept_segment() -> spec_fn(Seq<char>) -> bool {
    |s: Seq<char>| is_kept_segment(s)
}

/// A component that names an entry: not the root, `.` or `..`.
pub open spec fn is_normal_component(c: Seq<char>) -> bool {
    &&& c.len() > 0
    &&& c != seq!['/']
    &&& c != seq!['.']
    &&& c != seq!['.', '.']
}

/// The last component of `p`, where it names an entry.
pub open spec fn file_name_of(p: Seq<char>) -> Option<Seq<char>> {
    let c = path_components(p);
    if c.len() >= 1 && is_normal_component(c.last()) {
        Some(c.last())
    } else {
        None
    }
}

/// The name of the directory two levels above the file `p`, where there
/// is one.
pub open spec fn grandparent_name_of(p: Seq<char>) -> Option<Seq<char>> {
    let c = path_components(p);
    if c.len() >= 3 && is_normal_component(c[c.len() - 3]) {
        Some(c[c.len() - 3])
    } else {
        None
    }
}

/// Index of the last `/` in `s`, or -1.
pub open spec fn last_slash(s: Seq<char>) -> int
    decreases s.len(),
{
    if s.len() == 0 {
        -1
    } else if s.last() == '/' {
        s.len() - 1
    } else {
        last_slash(s.drop_last())
    }
}

/// Index of the last `.` in `s`, or -1.
pub open spec fn last_dot(s: Seq<char>) -> int
    decreases s.len(),
{
    if s.len() == 0 {
        -1
    } else if s.last() == '.' {
        s.len() - 1
    } else {
        last_dot(s.drop_last())
    }
}

/// `p` without the slashes at its end.
pub open spec fn trim_trailing_slashes(p: Seq<char>) -> Seq<char>
    decreases p.len(),
{
    if p.len() > 0 && p.last() == '/' {
        trim_trailing_slashes(p.drop_last())
    } else {
        p
    }
}

/// `p` with the extension of its file name set to `py`: the text after the
/// last dot of the file name (where that dot is not its first character)
/// is replaced, or `.py` is added. A path without a file name is left as
/// it is.
pub open spec fn with_py_extension(p: Seq<char>) -> Seq<char> {
    let t = trim_trailing_slashes(p);
    let start = last_slash(t) + 1;
    let name = t.skip(start);
    if name.len() == 0 || name == seq!['.', '.'] {
        p
    } else {
        let d = last_dot(name);
        let stem = if d > 0 {
            name.take(d)
        } else {
            name
        };
        t.take(start) + stem + seq!['.', 'p', 'y']
    }
}

pub proof fn lemma_last_slash_unique(s: Seq<char>, i: int)
    requires
        -1 <= i < s.len(),
        i >= 0 ==> s[i] == '/',
        forall|k: int| i < k < s.len() ==> s[k] != '/',
    ensures
        last_slash(s) == i,
    decreases s.len(),
{
    if s.len() > 0 && s.last() != '/' {
        lemma_last_slash_unique(s.drop_last(), i);
    }
}

proof fn lemma_last_dot_unique(s: Seq<char>, i: int)
    requires
        -1 <= i < s.len(),
        i >= 0 ==> s[i] == '.',
        forall|k: int| i < k < s.len() ==> s[k] != '.',
    ensures
        last_dot(s) == i,
    decreases s.len(),
{
    if s.len() > 0 && s.last() != '.' {
        lemma_last_dot_unique(s.drop_last(), i);
    }
}

pub proof fn lemma_trim_trailing_slashes(p: Seq<char>, n: int)
    requires
        0 <= n <= p.len(),
        forall|k: int| n <= k < p.len() ==> p[k] == '/',
        n > 0 ==> p[n - 1] != '/',
    ensures
        trim_trailing_slashes(p) == p.take(n),
    decreases p.len(),
{
    if p.len() > n {
        lemma_trim_trailing_slashes(p.drop_last(), n);
        assert(p.drop_last().take(n) =~= p.take(n));
    } else {
        assert(p.take(n) =~= p);
        if n > 0 {
            assert(p.last() == p[n - 1]);
        }
    }
}

/// `dir` joined with `name`.
pub fn join(dir: &str, name: &str) -> (r: String)
    ensures
        r@ == join_path(dir@, name@),
{
    let nl = name.unicode_len();
    let dl = dir.unicode_len();
    if nl > 0 && name.get_char(0) == '/' {
        String::from_str(name)
    } else if dl == 0 {
        String::from_str(name)
    } else if dir.get_char(dl - 1) == '/' {
        let mut r = String::from_str(dir);
        r.append(name);
        r
    } else {
        let mut r = String::from_str(dir);
        r.append("/");
        r.append(name);
        proof {
            reveal_strlit("/");
        }
        assert(r@ =~= dir@ + seq!['/'] + name@);
        r
    }
}

/// `p` with the extension of its file name set to `py`.
pub fn set_py_extension(p: &str) -> (r: String)
    ensures
        r@ == with_py_extension(p@),
{
    let n = p.unicode_len();
    let mut e = n;
    while e > 0 && p.get_char(e - 1) == '/'
        invariant
            n == p@.len(),
            e <= n,
            forall|k: int| e <= k < n ==> p@[k] == '/',
        decreases e,
    {
        e = e - 1;
    }
    let ghost t = p@.take(e as int);
    proof {
        lemma_trim_trailing_slashes(p@, e as int);
    }
    let mut s = e;
    while s > 0 && p.get_char(s - 1) != '/'
        invariant
            n == p@.len(),
            s <= e <= n,
            t == p@.take(e as int),
            forall|k: int| s <= k < e ==> p@[k] != '/',
        decreases s,
    {
        s = s - 1;
    }
    proof {
        if s > 0 {
            assert(t[s - 1] == '/');
        }
        assert forall|k: int| s - 1 < k < t.len() implies t[k] != '/' by {
            assert(t[k] == p@[k]);
        }
        lemma_last_slash_unique(t, s - 1);
    }
    let name = p.substring_char(s, e);
    assert(name@ =~= t.skip(s as int));
    let nl = e - s;
    if nl == 0 || (nl == 2 && name.get_char(0) == '.' && name.get_char(1) == '.') {
        proof {
            if nl == 2 {
                assert(name@ =~= seq!['.', '.']);
            }
        }
        return String::from_str(p);
    }
    assert(name@ != seq!['.', '.']) by {
        if name@ == seq!['.', '.'] {
            assert(name@[0] == '.' && name@[1] == '.');
        }
    }
    let mut d = nl;
    while d > 0 && name.get_char(d - 1) != '.'
        invariant
            nl == name@.len(),
            d <= nl,
            forall|k: int| d <= k < nl ==> name@[k] != '.',
        decreases d,
    {
        d = d - 1;
    }
    proof {
        if d > 0 {
            assert(name@[d - 1] == '.');
        }
        lemma_last_dot_unique(name@, d - 1);
    }
    let stem_end = if d > 1 { d - 1 } else { nl };
    let mut r = String::from_str(p.substring_char(0, s));
    r.append(name.substring_char(0, stem_end));
    r.append(".py");
    proof {
        reveal_strlit(".py");
        assert(p@.take(s as int) =~= t.take(s as int));
        if d > 1 {
            assert(name@.take(stem_end as int) =~= name@.take(last_dot(name@)));
        } else {
            assert(name@.take(stem_end as int) =~= name@);
        }
    }
    r
}


/// The texts that a list of strings holds.
pub open spec fn texts(v: Seq<String>) -> Seq<Seq<char>> {
    v.map_values(|s: String| s@)
}

/// The pieces of `p` between its slashes.
fn segments(p: &str) -> (r: Vec<String>)
    ensures
        texts(r@) == raw_segments(p@),
{
    let n = p.unicode_len();
    let mut done: Vec<String> = Vec::new();
    let mut start: usize = 0;
    let mut i: usize = 0;
    proof {
        assert(p@.take(0) =~= Seq::<char>::empty());
        assert(p@.subrange(0, 0) =~= Seq::<char>::empty());
        assert(texts(done@) =~= Seq::empty());
        assert(texts(done@).push(p@.subrange(0, 0)) =~= seq![Seq::<char>::empty()]);
    }
    while i < n
        invariant
            n == p@.len(),
            start <= i <= n,
            raw_segments(p@.take(i as int)) == texts(done@).push(p@.subrange(start as int, i as int)),
        decreases n - i,
    {
        let c = p.get_char(i);
        let ghost before = texts(done@);
        let ghost old_start = start;
        proof {
            assert(p@.take(i + 1).drop_last() =~= p@.take(i as int));
            assert(p@.take(i + 1).last() == c);
        }
        if c == '/' {
            done.push(String::from_str(p.substring_char(start, i)));
            start = i + 1;
            proof {
                assert(texts(done@) =~= before.push(p@.subrange(old_start as int, i as int)));
                assert(p@.subrange(start as int, i + 1) =~= Seq::<char>::empty());
                assert(raw_segments(p@.take(i + 1)) =~= texts(done@).push(p@.subrange(start as int, i + 1)));
            }
        } else {
            proof {
                assert(p@.subrange(start as int, i as int).push(c) =~= p@.subrange(start as int, i + 1));
                let sq = before.push(p@.subrange(start as int, i as int));
                assert(sq.update(sq.len() - 1, sq.last().push(c)) =~= before.push(p@.subrange(start as int, i + 1)));
            }
        }
        i = i + 1;
    }
    done.push(String::from_str(p.substring_char(start, n)));
    assert(p@.take(n as int) =~= p@);
    assert(texts(done@) =~= raw_segments(p@));
    done
}

/// The components of `p`.
pub fn components(p: &str) -> (r: Vec<String>)
    ensures
        texts(r@) == path_components(p@),
{
    let raw = segments(p);
    let ghost rs = raw_segments(p@);
    proof {
        reveal_with_fuel(raw_segments, 1);
        assert(rs.len() > 0) by {
            lemma_raw_segments_nonempty(p@);
        }
    }
    let mut r: Vec<String> = Vec::new();
    if p.unicode_len() > 0 && p.get_char(0) == '/' {
        let root = String::from_str("/");
        proof {
            reveal_strlit("/");
            assert(root@ =~= seq!['/']);
        }
        r.push(root);
    }
    if raw[0].as_str().unicode_len() > 0 {
        r.push(raw[0].clone());
    }
    let ghost prefix = texts(r@);
    proof {
        let root: Seq<Seq<char>> = if p@.len() > 0 && p@[0] == '/' {
            seq![seq!['/']]
        } else {
            Seq::empty()
        };
        let first: Seq<Seq<char>> = if rs[0].len() > 0 {
            seq![rs[0]]
        } else {
            Seq::empty()
        };
        assert(rs[0] == raw@[0]@);
        assert(prefix =~= root + first);
    }
    let mut i: usize = 1;
    proof {
        reveal(Seq::filter);
        assert(rs.subrange(1, 1).filter(kept_segment()) =~= Seq::empty());
        assert(texts(r@) =~= prefix + rs.subrange(1, 1).filter(kept_segment()));
    }
    while i < raw.len()
        invariant
            1 <= i <= raw.len(),
            texts(raw@) == rs,
            texts(r@) == prefix + rs.subrange(1, i as int).filter(kept_segment()),
        decreases raw.len() - i,
    {
        let seg = raw[i].as_str();
        let len = seg.unicode_len();
        let keep = len > 0 && !(len == 1 && seg.get_char(0) == '.');
        let ghost before = texts(r@);
        proof {
            assert(rs[i as int] == seg@);
            if len == 1 && seg@[0] == '.' {
                assert(seg@ =~= seq!['.']);
            }
            if len == 1 && seg@[0] != '.' {
                assert(seg@ != seq!['.']) by {
                    if seg@ == seq!['.'] {
                        assert(seg@[0] == '.');
                    }
                }
            }
            assert(keep == is_kept_segment(rs[i as int]));
            let sub = rs.subrange(1, i + 1);
            assert(sub.drop_last() =~= rs.subrange(1, i as int));
            assert(sub.last() == rs[i as int]);
            reveal(Seq::filter);
            assert(sub.filter(kept_segment()) == if keep {
                rs.subrange(1, i as int).filter(kept_segment()).push(rs[i as int])
            } else {
                rs.subrange(1, i as int).filter(kept_segment())
            });
        }
        if keep {
            r.push(raw[i].clone());
            proof {
                assert(texts(r@) =~= before.push(rs[i as int]));
            }
        } else {
            assert(texts(r@) =~= before);
        }
        i = i + 1;
        proof {
            assert(texts(r@) =~= prefix + rs.subrange(1, i as int).filter(kept_segment()));
        }
    }
    proof {
        assert(rs.subrange(1, rs.len() as int) =~= rs.skip(1));
        assert(texts(r@) =~= path_components(p@));
    }
    r
}

proof fn lemma_raw_segments_nonempty(p: Seq<char>)
    ensures
        raw_segments(p).len() > 0,
    decreases p.len(),
{
    if p.len() > 0 {
        lemma_raw_segments_nonempty(p.drop_last());
    }
}


/// Whether `c` names an entry: not the root, `.` or `..`.
pub fn is_normal(c: &str) -> (r: bool)
    ensures
        r == is_normal_component(c@),
{
    let n = c.unicode_len();
    if n == 0 {
        return false;
    }
    if n == 1 && (c.get_char(0) == '/' || c.get_char(0) == '.') {
        assert(c@ =~= seq![c@[0]]);
        return false;
    }
    if n == 2 && c.get_char(0) == '.' && c.get_char(1) == '.' {
        assert(c@ =~= seq!['.', '.']);
        return false;
    }
    proof {
        if c@ == seq!['/'] || c@ == seq!['.'] {
            assert(c@.len() == 1 && c@[0] == seq!['/'][0] || c@.len() == 1);
        }
        if c@ == seq!['.', '.'] {
            assert(c@[0] == '.' && c@[1] == '.');
        }
    }
    true
}

/// The last component of `p`, where it names an entry.
pub fn file_name(p: &str) -> (r: Option<String>)
    ensures
        match r {
            Some(n) => file_name_of(p@) == Some(n@),
            None => file_name_of(p@) is None,
        },
{
    let c = components(p);
    let n = c.len();
    proof {
        assert(texts(c@).len() == n);
        if n >= 1 {
            assert(texts(c@).last() == c@[n - 1]@);
        }
    }
    if n >= 1 && is_normal(c[n - 1].as_str()) {
        Some(c[n - 1].clone())
    } else {
        None
    }
}

/// The name of the directory two levels above the file `p`, where there
/// is one.
pub fn grandparent_name(p: &str) -> (r: Option<String>)
    ensures
        match r {
            Some(n) => grandparent_name_of(p@) == Some(n@),
            None => grandparent_name_of(p@) is None,
        },
{
    let c = components(p);
    let n = c.len();
    proof {
        assert(texts(c@).len() == n);
        if n >= 3 {
            assert(texts(c@)[n - 3] == c@[n - 3]@);
        }
    }
    if n >= 3 && is_normal(c[n - 3].as_str()) {
        Some(c[n - 3].clone())
    } else {
        None
    }
}

} // verus!
