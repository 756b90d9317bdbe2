//! Character-level helpers on strings, each with its specification over
//! `Seq<char>`: searching for a pattern, splitting at its occurrences and
//! trimming white space.

use vstd::prelude::*;
use vstd::string::*;

verus! {

/// `p` occurs in `s` starting at index `i`.
pub open spec fn occurs_at(s: Seq<char>, p: Seq<char>, i: int) -> bool {
    &&& 0 <= i
    &&& i + p.len() <= s.len()
    &&& s.subrange(i, i + p.len()) == p
}

/// `p` occurs somewhere in `s`.
pub open spec fn contains_seq(s: Seq<char>, p: Seq<char>) -> bool {
    exists|i: int| occurs_at(s, p, i)
}

/// The first index at or after `start` where `p` occurs in `s`.
pub open spec fn find_from(s: Seq<char>, p: Seq<char>, start: int) -> Option<int>
    decreases s.len() + 1 - start,
{
    if start < 0 || start + p.len() > s.len() {
        None
    } else if occurs_at(s, p, start) {
        Some(start)
    } else {
        find_from(s, p, start + 1)
    }
}

/// The first piece of `s` split at the occurrences of `p`
/// (what `s.split(p).nth(0)` yields).
pub open spec fn split_first(s: Seq<char>, p: Seq<char>) -> Seq<char> {
    match find_from(s, p, 0) {
        Some(i) => s.take(i),
        None => s,
    }
}

/// The second piece of `s` split at the occurrences of `p`, or the empty
/// sequence where `p` does not occur (what `s.split(p).nth(1).unwrap_or("")`
/// yields).
pub open spec fn split_second(s: Seq<char>, p: Seq<char>) -> Seq<char> {
    match find_from(s, p, 0) {
        Some(i) => {
            let r = i + p.len();
            match find_from(s, p, r) {
                Some(j) => s.subrange(r, j),
                None => s.skip(r),
            }
        },
        None => Seq::empty(),
    }
}

/// Characters with the Unicode `White_Space` property.
pub open spec fn is_white_space(c: char) -> bool {
    ||| '\u{9}' <= c <= '\u{d}'
    ||| c == ' '
    ||| c == '\u{85}'
    ||| c == '\u{a0}'
    ||| c == '\u{1680}'
    ||| '\u{2000}' <= c <= '\u{200a}'
    ||| c == '\u{2028}'
    ||| c == '\u{2029}'
    ||| c == '\u{202f}'
    ||| c == '\u{205f}'
    ||| c == '\u{3000}'
}

/// Number of white-space characters at the start of `s`.
pub open spec fn leading_white_space(s: Seq<char>) -> nat
    decreases s.len(),
{
    if s.len() > 0 && is_white_space(s[0]) {
        1 + leading_white_space(s.drop_first())
    } else {
        0
    }
}

/// Number of white-space characters at the end of `s`.
pub open spec fn trailing_white_space(s: Seq<char>) -> nat
    decreases s.len(),
{
    if s.len() > 0 && is_white_space(s.last()) {
        1 + trailing_white_space(s.drop_last())
    } else {
        0
    }
}

/// `s` without its leading and trailing white space.
pub open spec fn trim_seq(s: Seq<char>) -> Seq<char> {
    let t = s.skip(leading_white_space(s) as int);
    t.take(t.len() - trailing_white_space(t))
}

proof fn lemma_leading_white_space(s: Seq<char>)
    ensures
        leading_white_space(s) <= s.len(),
        forall|k: int| 0 <= k < leading_white_space(s) ==> is_white_space(#[trigger] s[k]),
        leading_white_space(s) < s.len() ==> !is_white_space(s[leading_white_space(s) as int]),
    decreases s.len(),
{
    if s.len() > 0 && is_white_space(s[0]) {
        lemma_leading_white_space(s.drop_first());
        assert forall|k: int| 0 <= k < leading_white_space(s) implies is_white_space(
            #[trigger] s[k],
        ) by {
            if k > 0 {
                assert(s[k] == s.drop_first()[k - 1]);
            }
        }
    }
}

pub proof fn lemma_leading_white_space_unique(s: Seq<char>, n: int)
    requires
        0 <= n <= s.len(),
        forall|k: int| 0 <= k < n ==> is_white_space(#[trigger] s[k]),
        n < s.len() ==> !is_white_space(s[n]),
    ensures
        leading_white_space(s) == n,
    decreases s.len(),
{
    if n > 0 {
        assert(is_white_space(s[0]));
        let t = s.drop_first();
        assert forall|k: int| 0 <= k < n - 1 implies is_white_space(#[trigger] t[k]) by {
            assert(t[k] == s[k + 1]);
        }
        if n - 1 < t.len() {
            assert(t[n - 1] == s[n]);
        }
        lemma_leading_white_space_unique(t, n - 1);
    }
}

pub proof fn lemma_trailing_white_space_unique(s: Seq<char>, n: int)
    requires
        0 <= n <= s.len(),
        forall|k: int| s.len() - n <= k < s.len() ==> is_white_space(#[trigger] s[k]),
        n < s.len() ==> !is_white_space(s[s.len() - n - 1]),
    ensures
        trailing_white_space(s) == n,
    decreases s.len(),
{
    if n > 0 {
        assert(is_white_space(s[s.len() - 1]));
        let t = s.drop_last();
        assert forall|k: int| t.len() - (n - 1) <= k < t.len() implies is_white_space(
            #[trigger] t[k],
        ) by {
            assert(t[k] == s[k]);
        }
        if n - 1 < t.len() {
            assert(t[t.len() - (n - 1) - 1] == s[s.len() - n - 1]);
        }
        lemma_trailing_white_space_unique(t, n - 1);
    } else {
        if s.len() > 0 {
            assert(s.last() == s[s.len() - 1]);
        }
    }
}

/// Decides `is_white_space`.
pub fn char_is_white_space(c: char) -> (r: bool)
    ensures
        r == is_white_space(c),
{
    ('\u{9}' <= c && c <= '\u{d}') || c == ' ' || c == '\u{85}' || c == '\u{a0}' || c
        == '\u{1680}' || ('\u{2000}' <= c && c <= '\u{200a}') || c == '\u{2028}' || c == '\u{2029}'
        || c == '\u{202f}' || c == '\u{205f}' || c == '\u{3000}'
}

/// The characters of `s`, one by one.
pub fn chars_of(s: &str) -> (r: Vec<char>)
    ensures
        r@ == s@,
{
    let n = s.unicode_len();
    let mut r: Vec<char> = Vec::new();
    let mut i: usize = 0;
    while i < n
        invariant
            n == s@.len(),
            i <= n,
            r@ == s@.take(i as int),
        decreases n - i,
    {
        let c = s.get_char(i);
        r.push(c);
        i = i + 1;
        assert(r@ =~= s@.take(i as int));
    }
    assert(r@ =~= s@);
    r
}

/// Whether `p` occurs in `s` at index `i`.
pub fn occurs_at_index(s: &Vec<char>, p: &Vec<char>, i: usize) -> (r: bool)
    ensures
        r == occurs_at(s@, p@, i as int),
{
    if i > s.len() || p.len() > s.len() - i {
        return false;
    }
    let mut k: usize = 0;
    while k < p.len()
        invariant
            i + p.len() <= s.len(),
            i + p@.len() <= s@.len(),
            k <= p@.len(),
            forall|m: int| 0 <= m < k ==> s@[i + m] == p@[m],
        decreases p.len() - k,
    {
        if s[i + k] != p[k] {
            assert(s@.subrange(i as int, i + p@.len())[k as int] != p@[k as int]);
            return false;
        }
        k = k + 1;
    }
    assert(s@.subrange(i as int, i + p@.len()) =~= p@);
    true
}

/// The first index at or after `start` where `p` occurs in `s`.
pub fn find_from_index(s: &Vec<char>, p: &Vec<char>, start: usize) -> (r: Option<usize>)
    ensures
        match r {
            Some(i) => find_from(s@, p@, start as int) == Some(i as int),
            None => find_from(s@, p@, start as int) is None,
        },
{
    if p.len() == 0 {
        if start <= s.len() {
            assert(occurs_at(s@, p@, start as int)) by {
                assert(s@.subrange(start as int, start as int) =~= p@);
            }
            return Some(start);
        } else {
            return None;
        }
    }
    let mut i = start;
    while i < s.len() && p.len() <= s.len() - i
        invariant
            start <= i,
            p.len() > 0,
            find_from(s@, p@, start as int) == find_from(s@, p@, i as int),
        decreases s.len() - i,
    {
        if occurs_at_index(s, p, i) {
            return Some(i);
        }
        i = i + 1;
    }
    None
}

/// Whether `p` occurs somewhere in `s`.
pub fn contains_chars(s: &Vec<char>, p: &Vec<char>) -> (r: bool)
    ensures
        r == contains_seq(s@, p@),
{
    let f = find_from_index(s, p, 0);
    proof {
        lemma_find_from_contains(s@, p@, 0);
    }
    f.is_some()
}

/// `find_from` finds an occurrence exactly when one exists at or after
/// `start`, and the one it finds is the first.
pub proof fn lemma_find_from_contains(s: Seq<char>, p: Seq<char>, start: int)
    requires
        0 <= start,
    ensures
        find_from(s, p, start) is Some <==> exists|i: int| start <= i && occurs_at(s, p, i),
        find_from(s, p, start) matches Some(i) ==> {
            &&& start <= i
            &&& occurs_at(s, p, i)
            &&& forall|j: int| start <= j < i ==> !occurs_at(s, p, j)
        },
    decreases s.len() + 1 - start,
{
    if start + p.len() > s.len() {
        assert forall|i: int| start <= i implies !occurs_at(s, p, i) by {}
    } else if occurs_at(s, p, start) {
    } else {
        assert(p.len() > 0) by {
            if p.len() == 0 {
                assert(s.subrange(start, start + p.len()) =~= p);
            }
        }
        lemma_find_from_contains(s, p, start + 1);
        assert forall|i: int| start <= i && occurs_at(s, p, i) implies start + 1 <= i by {}
    }
}

/// The first piece of `s` split at the occurrences of `p`.
pub fn split_first_piece(s: &str, p: &str) -> (r: String)
    ensures
        r@ == split_first(s@, p@),
{
    let sc = chars_of(s);
    let pc = chars_of(p);
    match find_from_index(&sc, &pc, 0) {
        Some(i) => {
            proof {
                lemma_find_from_contains(s@, p@, 0);
            }
            String::from_str(s.substring_char(0, i))
        },
        None => String::from_str(s),
    }
}

/// The second piece of `s` split at the occurrences of `p`, or the empty
/// string where `p` does not occur.
pub fn split_second_piece(s: &str, p: &str) -> (r: String)
    ensures
        r@ == split_second(s@, p@),
{
    let sc = chars_of(s);
    let pc = chars_of(p);
    let slen = sc.len();
    let plen = pc.len();
    match find_from_index(&sc, &pc, 0) {
        Some(i) => {
            proof {
                lemma_find_from_contains(s@, p@, 0);
                assert(occurs_at(sc@, pc@, i as int));
                assert(i + plen <= slen);
            }
            let r = i + pc.len();
            match find_from_index(&sc, &pc, r) {
                Some(j) => {
                    proof {
                        lemma_find_from_contains(s@, p@, r as int);
                    }
                    String::from_str(s.substring_char(r, j))
                },
                None => String::from_str(s.substring_char(r, sc.len())),
            }
        },
        None => String::new(),
    }
}

/// `s` without leading and trailing white space.
pub fn trim_text(s: &str) -> (r: String)
    ensures
        r@ == trim_seq(s@),
{
    let sc = chars_of(s);
    let n = sc.len();
    let mut a: usize = 0;
    while a < n && char_is_white_space(sc[a])
        invariant
            n == sc@.len(),
            a <= n,
            forall|k: int| 0 <= k < a ==> is_white_space(#[trigger] sc@[k]),
        decreases n - a,
    {
        a = a + 1;
    }
    proof {
        lemma_leading_white_space_unique(s@, a as int);
    }
    let mut b: usize = n;
    while b > a && char_is_white_space(sc[b - 1])
        invariant
            n == sc@.len(),
            a <= b <= n,
            forall|k: int| b <= k < n ==> is_white_space(#[trigger] sc@[k]),
        decreases b,
    {
        b = b - 1;
    }
    let ghost t = s@.skip(a as int);
    proof {
        assert forall|k: int| t.len() - (n - b) <= k < t.len() implies is_white_space(
            #[trigger] t[k],
        ) by {
            assert(t[k] == sc@[k + a]);
        }
        if n - b < t.len() {
            assert(t[t.len() - (n - b) - 1] == sc@[b - 1]);
        }
        lemma_trailing_white_space_unique(t, n - b);
        assert(t.take(t.len() - (n - b)) =~= s@.subrange(a as int, b as int));
    }
    String::from_str(s.substring_char(a, b))
}

} // verus!
