//! Package versions: dot-separated decimal numbers such as `1.2.0`, compared
//! part by part, a missing part counting as 0.
use vstd::prelude::*;
use crate::shell::{parse_u64, parse_u64_str};
use crate::text::{chars_of, string_of};

verus! {

/// The parts of `s` between dots (`"1.2"` has the parts `"1"` and `"2"`).
pub open spec fn dot_parts(s: Seq<char>) -> Seq<Seq<char>>
    decreases s.len(),
{
    if s.len() == 0 {
        seq![Seq::empty()]
    } else {
        let rest = dot_parts(s.drop_last());
        if s.last() == '.' {
            rest.push(Seq::empty())
        } else {
            rest.update(rest.len() - 1, rest.last().push(s.last()))
        }
    }
}

proof fn lemma_dot_parts_nonempty(s: Seq<char>)
    ensures
        dot_parts(s).len() >= 1,
    decreases s.len(),
{
    if s.len() > 0 {
        lemma_dot_parts_nonempty(s.drop_last());
    }
}

/// The version `s` names: each of its dot-separated parts read as a decimal
/// number, or `None` when a part is not one.
pub open spec fn version_of(s: Seq<char>) -> Option<Seq<u64>> {
    let ps = dot_parts(s);
    if forall|i: int| 0 <= i < ps.len() ==> #[trigger] parse_u64(ps[i]) is Some {
        Some(Seq::new(ps.len(), |i: int| parse_u64(ps[i])->0))
    } else {
        None
    }
}

/// Part `i` of a version, 0 past its end.
pub open spec fn part_at(v: Seq<u64>, i: int) -> u64 {
    if 0 <= i < v.len() {
        v[i]
    } else {
        0
    }
}

/// Whether `a` is newer than `b` from part `i` on: the first part where they
/// differ is larger in `a`.
pub open spec fn newer_from(a: Seq<u64>, b: Seq<u64>, i: int) -> bool
    decreases a.len() + b.len() - i,
{
    if i < 0 || (i >= a.len() && i >= b.len()) {
        false
    } else if part_at(a, i) != part_at(b, i) {
        part_at(a, i) > part_at(b, i)
    } else {
        newer_from(a, b, i + 1)
    }
}

/// Whether version `a` is newer than version `b`.
pub open spec fn newer(a: Seq<u64>, b: Seq<u64>) -> bool {
    newer_from(a, b, 0)
}

/// Splits a string at its dots (see [`dot_parts`]).
fn split_dots(s: &str) -> (r: Vec<String>)
    ensures
        r@.map_values(|p: String| p@) == dot_parts(s@),
{
    let cs = chars_of(s);
    let mut done: Vec<String> = Vec::new();
    let mut cur: Vec<char> = Vec::new();
    let mut i: usize = 0;
    assert(cs@.take(0) =~= Seq::<char>::empty());
    assert(dot_parts(Seq::<char>::empty()) =~= done@.map_values(|p: String| p@).push(cur@));
    while i < cs.len()
        invariant
            i <= cs.len(),
            cs@ == s@,
            done@.map_values(|p: String| p@).push(cur@) == dot_parts(cs@.take(i as int)),
        decreases cs.len() - i,
    {
        let ghost before = done@.map_values(|p: String| p@).push(cur@);
        assert(cs@.take(i + 1).drop_last() =~= cs@.take(i as int));
        assert(cs@.take(i + 1).last() == cs@[i as int]);
        proof {
            lemma_dot_parts_nonempty(cs@.take(i as int));
        }
        if cs[i] == '.' {
            let piece = string_of(&cur);
            done.push(piece);
            cur = Vec::new();
            assert(done@.map_values(|p: String| p@).push(cur@) =~= before.push(Seq::<char>::empty()));
        } else {
            cur.push(cs[i]);
            assert(done@.map_values(|p: String| p@).push(cur@) =~= before.update(before.len() - 1, before.last().push(cs@[i as int])));
        }
        i = i + 1;
    }
    assert(cs@.take(cs.len() as int) =~= cs@);
    let ghost before = done@.map_values(|p: String| p@);
    let last = string_of(&cur);
    done.push(last);
    assert(done@.map_values(|p: String| p@) =~= before.push(cur@));
    done
}

/// Reads a version (see [`version_of`]).
pub fn parse_version(s: &str) -> (r: Option<Vec<u64>>)
    ensures
        match version_of(s@) {
            Some(v) => r matches Some(x) && x@ == v,
            None => r is None,
        },
{
    let parts = split_dots(s);
    let ghost ps = dot_parts(s@);
    let mut out: Vec<u64> = Vec::new();
    let mut i: usize = 0;
    while i < parts.len()
        invariant
            i <= parts.len(),
            parts@.map_values(|p: String| p@) == ps,
            ps == dot_parts(s@),
            out@.len() == i,
            forall|j: int| 0 <= j < i ==> #[trigger] parse_u64(ps[j]) == Some(out@[j]),
        decreases parts.len() - i,
    {
        assert(ps[i as int] == parts@[i as int]@);
        match parse_u64_str(parts[i].as_str()) {
            Some(n) => {
                out.push(n);
            },
            None => {
                assert(parse_u64(ps[i as int]) is None);
                return None;
            },
        }
        i = i + 1;
    }
    assert(out@ =~= Seq::new(ps.len(), |j: int| parse_u64(ps[j])->0));
    Some(out)
}

/// Whether version `a` is newer than version `b` (see [`newer`]).
pub fn version_newer(a: &Vec<u64>, b: &Vec<u64>) -> (r: bool)
    ensures
        r == newer(a@, b@),
{
    let n = if a.len() > b.len() { a.len() } else { b.len() };
    let mut i: usize = 0;
    while i < n
        invariant
            i <= n,
            n == (if a.len() > b.len() { a.len() } else { b.len() }),
            newer(a@, b@) == newer_from(a@, b@, i as int),
        decreases n - i,
    {
        let x: u64 = if i < a.len() { a[i] } else { 0 };
        let y: u64 = if i < b.len() { b[i] } else { 0 };
        assert(x == part_at(a@, i as int) && y == part_at(b@, i as int));
        if x != y {
            return x > y;
        }
        i = i + 1;
    }
    false
}

} // verus!
