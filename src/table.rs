use vstd::prelude::*;
use crate::strs::{str_pairs, strs};

verus! {

pub type PairView = (Seq<char>, Seq<char>);

/// The value under `key`: the latest entry with that key.
pub open spec fn lookup_key(s: Seq<PairView>, key: Seq<char>) -> Option<Seq<char>>
    decreases s.len(),
{
    if s.len() == 0 {
        None
    } else if s.last().0 == key {
        Some(s.last().1)
    } else {
        lookup_key(s.drop_last(), key)
    }
}

/// The entries of `s` but those under `key`.
pub open spec fn without_key(s: Seq<PairView>, key: Seq<char>) -> Seq<PairView>
    decreases s.len(),
{
    if s.len() == 0 {
        Seq::empty()
    } else {
        let rest = without_key(s.drop_last(), key);
        if s.last().0 == key { rest } else { rest.push(s.last()) }
    }
}

/// The entries of `s` but the pair (`a`, `b`).
pub open spec fn without_pair(s: Seq<PairView>, a: Seq<char>, b: Seq<char>) -> Seq<PairView>
    decreases s.len(),
{
    if s.len() == 0 {
        Seq::empty()
    } else {
        let rest = without_pair(s.drop_last(), a, b);
        if s.last() == (a, b) { rest } else { rest.push(s.last()) }
    }
}

/// The second members of the entries whose first member is `a`, in order.
pub open spec fn seconds_of(s: Seq<PairView>, a: Seq<char>) -> Seq<Seq<char>>
    decreases s.len(),
{
    if s.len() == 0 {
        Seq::empty()
    } else {
        let rest = seconds_of(s.drop_last(), a);
        if s.last().0 == a { rest.push(s.last().1) } else { rest }
    }
}

/// The number of entries whose second member is `b`.
pub open spec fn count_second(s: Seq<PairView>, b: Seq<char>) -> nat
    decreases s.len(),
{
    if s.len() == 0 {
        0
    } else {
        count_second(s.drop_last(), b) + if s.last().1 == b { 1nat } else { 0nat }
    }
}

/// The first members of the entries, each once, in order of first occurrence.
pub open spec fn distinct_firsts(s: Seq<PairView>) -> Seq<Seq<char>>
    decreases s.len(),
{
    if s.len() == 0 {
        Seq::empty()
    } else {
        let rest = distinct_firsts(s.drop_last());
        if rest.contains(s.last().0) { rest } else { rest.push(s.last().0) }
    }
}

/// Whether the pair (`a`, `b`) is present.
pub open spec fn has_pair(s: Seq<PairView>, a: Seq<char>, b: Seq<char>) -> bool {
    exists|i: int| 0 <= i < s.len() && s[i] == (a, b)
}

/// The value under `key`.
pub fn get_value(v: &Vec<(String, String)>, key: &String) -> (r: Option<String>)
    ensures
        r matches Some(x) ==> lookup_key(str_pairs(v@), key@) == Some(x@),
        r is None ==> lookup_key(str_pairs(v@), key@) is None,
{
    let mut i: usize = v.len();
    assert(str_pairs(v@).subrange(0, i as int) =~= str_pairs(v@));
    while i > 0
        invariant
            0 <= i <= v@.len(),
            lookup_key(str_pairs(v@).subrange(0, i as int), key@) == lookup_key(str_pairs(v@), key@),
        decreases i,
    {
        assert(str_pairs(v@).subrange(0, i as int).drop_last() =~= str_pairs(v@).subrange(0, i - 1));
        if v[i - 1].0 == *key {
            return Some(v[i - 1].1.clone());
        }
        i = i - 1;
    }
    None
}

/// `v` without the entries under `key`.
pub fn without_key_vec(v: &Vec<(String, String)>, key: &String) -> (r: Vec<(String, String)>)
    ensures
        str_pairs(r@) == without_key(str_pairs(v@), key@),
{
    let mut kept: Vec<(String, String)> = Vec::new();
    let mut i: usize = 0;
    while i < v.len()
        invariant
            0 <= i <= v@.len(),
            str_pairs(kept@) == without_key(str_pairs(v@).subrange(0, i as int), key@),
        decreases v@.len() - i,
    {
        assert(str_pairs(v@).subrange(0, i + 1).drop_last() =~= str_pairs(v@).subrange(0, i as int));
        if v[i].0 != *key {
            kept.push((v[i].0.clone(), v[i].1.clone()));
        }
        i = i + 1;
        assert(str_pairs(kept@) =~= without_key(str_pairs(v@).subrange(0, i as int), key@));
    }
    assert(str_pairs(v@).subrange(0, i as int) =~= str_pairs(v@));
    kept
}

/// `v` with `key` set to `value`.
pub fn with_value(v: &Vec<(String, String)>, key: &String, value: &String) -> (r: Vec<(String, String)>)
    ensures
        str_pairs(r@) == without_key(str_pairs(v@), key@).push((key@, value@)),
        lookup_key(str_pairs(r@), key@) == Some(value@),
{
    let mut kept = without_key_vec(v, key);
    let ghost before = str_pairs(kept@);
    kept.push((key.clone(), value.clone()));
    assert(str_pairs(kept@) =~= before.push((key@, value@)));
    kept
}

/// Whether the pair (`a`, `b`) is present.
pub fn contains_pair(v: &Vec<(String, String)>, a: &String, b: &String) -> (r: bool)
    ensures
        r == has_pair(str_pairs(v@), a@, b@),
{
    let mut i: usize = 0;
    while i < v.len()
        invariant
            0 <= i <= v@.len(),
            forall|j: int| 0 <= j < i ==> str_pairs(v@)[j] != (a@, b@),
        decreases v@.len() - i,
    {
        if v[i].0 == *a && v[i].1 == *b {
            assert(str_pairs(v@)[i as int] == (a@, b@));
            return true;
        }
        i = i + 1;
    }
    false
}

/// `v` without the pair (`a`, `b`).
pub fn remove_pair(v: &Vec<(String, String)>, a: &String, b: &String) -> (r: Vec<(String, String)>)
    ensures
        str_pairs(r@) == without_pair(str_pairs(v@), a@, b@),
{
    let mut kept: Vec<(String, String)> = Vec::new();
    let mut i: usize = 0;
    while i < v.len()
        invariant
            0 <= i <= v@.len(),
            str_pairs(kept@) == without_pair(str_pairs(v@).subrange(0, i as int), a@, b@),
        decreases v@.len() - i,
    {
        assert(str_pairs(v@).subrange(0, i + 1).drop_last() =~= str_pairs(v@).subrange(0, i as int));
        if !(v[i].0 == *a && v[i].1 == *b) {
            kept.push((v[i].0.clone(), v[i].1.clone()));
        }
        i = i + 1;
        assert(str_pairs(kept@) =~= without_pair(str_pairs(v@).subrange(0, i as int), a@, b@));
    }
    assert(str_pairs(v@).subrange(0, i as int) =~= str_pairs(v@));
    kept
}

/// Adds the pair (`a`, `b`) unless it is present.
pub fn add_pair(v: &mut Vec<(String, String)>, a: &String, b: &String)
    ensures
        has_pair(str_pairs(old(v)@), a@, b@) ==> final(v)@ == old(v)@,
        !has_pair(str_pairs(old(v)@), a@, b@) ==> str_pairs(final(v)@) == str_pairs(old(v)@).push((a@, b@)),
{
    if !contains_pair(v, a, b) {
        let ghost before = str_pairs(v@);
        v.push((a.clone(), b.clone()));
        assert(str_pairs(v@) =~= before.push((a@, b@)));
    }
}

/// The second members of the entries whose first member is `a`.
pub fn seconds(v: &Vec<(String, String)>, a: &String) -> (r: Vec<String>)
    ensures
        strs(r@) == seconds_of(str_pairs(v@), a@),
{
    let mut r: Vec<String> = Vec::new();
    let mut i: usize = 0;
    while i < v.len()
        invariant
            0 <= i <= v@.len(),
            strs(r@) == seconds_of(str_pairs(v@).subrange(0, i as int), a@),
        decreases v@.len() - i,
    {
        assert(str_pairs(v@).subrange(0, i + 1).drop_last() =~= str_pairs(v@).subrange(0, i as int));
        if v[i].0 == *a {
            r.push(v[i].1.clone());
        }
        i = i + 1;
        assert(strs(r@) =~= seconds_of(str_pairs(v@).subrange(0, i as int), a@));
    }
    assert(str_pairs(v@).subrange(0, i as int) =~= str_pairs(v@));
    r
}

/// The number of entries whose second member is `b`, wrapped to 32 bits.
pub fn count_seconds(v: &Vec<(String, String)>, b: &String) -> (r: u32)
    ensures
        r == count_second(str_pairs(v@), b@) as u32,
{
    let mut n: usize = 0;
    let mut i: usize = 0;
    while i < v.len()
        invariant
            0 <= i <= v@.len(),
            n <= i,
            n == count_second(str_pairs(v@).subrange(0, i as int), b@),
        decreases v@.len() - i,
    {
        assert(str_pairs(v@).subrange(0, i + 1).drop_last() =~= str_pairs(v@).subrange(0, i as int));
        if v[i].1 == *b {
            n = n + 1;
        }
        i = i + 1;
    }
    assert(str_pairs(v@).subrange(0, i as int) =~= str_pairs(v@));
    n as u32
}

/// Whether `x` is among `v`.
pub fn contains_str(v: &Vec<String>, x: &String) -> (r: bool)
    ensures
        r == strs(v@).contains(x@),
{
    let mut i: usize = 0;
    while i < v.len()
        invariant
            0 <= i <= v@.len(),
            forall|j: int| 0 <= j < i ==> strs(v@)[j] != x@,
        decreases v@.len() - i,
    {
        if v[i] == *x {
            assert(strs(v@)[i as int] == x@);
            return true;
        }
        i = i + 1;
    }
    false
}

/// The first members of the entries, each once, in order of first occurrence.
pub fn firsts(v: &Vec<(String, String)>) -> (r: Vec<String>)
    ensures
        strs(r@) == distinct_firsts(str_pairs(v@)),
{
    let mut r: Vec<String> = Vec::new();
    let mut i: usize = 0;
    while i < v.len()
        invariant
            0 <= i <= v@.len(),
            strs(r@) == distinct_firsts(str_pairs(v@).subrange(0, i as int)),
        decreases v@.len() - i,
    {
        assert(str_pairs(v@).subrange(0, i + 1).drop_last() =~= str_pairs(v@).subrange(0, i as int));
        if !contains_str(&r, &v[i].0) {
            r.push(v[i].0.clone());
        }
        i = i + 1;
        assert(strs(r@) =~= distinct_firsts(str_pairs(v@).subrange(0, i as int)));
    }
    assert(str_pairs(v@).subrange(0, i as int) =~= str_pairs(v@));
    r
}

} // verus!
