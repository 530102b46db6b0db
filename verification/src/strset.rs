//! Finite sets of strings held in a `Vec<String>` without repeats.

use vstd::prelude::*;

verus! {

/// The character sequences of a sequence of strings.
pub open spec fn views(v: Seq<String>) -> Seq<Seq<char>> {
    v.map_values(|s: String| s@)
}

/// `v` holds no string twice.
pub open spec fn distinct(v: Seq<String>) -> bool {
    views(v).no_duplicates()
}

/// The set that `v` stands for.
pub open spec fn set_of(v: Seq<String>) -> Set<Seq<char>> {
    views(v).to_set()
}

pub fn strings_equal(a: &String, b: &String) -> (r: bool)
    ensures
        r == (a@ == b@),
{
    a.eq(b)
}

/// Whether `s` is the literal `t`.
pub fn str_is(s: &str, t: &str) -> (r: bool)
    ensures
        r == (s@ == t@),
{
    let a = crate::text::owned(s);
    let b = crate::text::owned(t);
    a == b
}

/// The first index of `s` in `v`.
pub fn index_of(v: &Vec<String>, s: &String) -> (r: Option<usize>)
    ensures
        r matches Some(i) ==> i < v.len() && v@[i as int]@ == s@ && forall|k: int|
            0 <= k < i ==> v@[k]@ != s@,
        r is None ==> forall|k: int| 0 <= k < v.len() ==> v@[k]@ != s@,
        r is None <==> !views(v@).contains(s@),
{
    let mut i: usize = 0;
    while i < v.len()
        invariant
            0 <= i <= v.len(),
            forall|k: int| 0 <= k < i ==> v@[k]@ != s@,
        decreases v.len() - i,
    {
        if strings_equal(&v[i], s) {
            assert(views(v@)[i as int] == s@);
            return Some(i);
        }
        i = i + 1;
    }
    assert forall|k: int| 0 <= k < views(v@).len() implies views(v@)[k] != s@ by {
        assert(views(v@)[k] == v@[k]@);
    }
    None
}

pub fn contains(v: &Vec<String>, s: &String) -> (r: bool)
    ensures
        r == set_of(v@).contains(s@),
        r == views(v@).contains(s@),
{
    index_of(v, s).is_some()
}

/// Adds `s` to the set.
pub fn insert(v: &mut Vec<String>, s: &String)
    requires
        distinct(old(v)@),
    ensures
        distinct(final(v)@),
        set_of(final(v)@) == set_of(old(v)@).insert(s@),
        views(final(v)@) == if views(old(v)@).contains(s@) {
            views(old(v)@)
        } else {
            views(old(v)@).push(s@)
        },
{
    if !contains(v, s) {
        let ghost before = views(v@);
        v.push(s.clone());
        assert(views(v@) =~= before.push(s@));
        proof {
            before.lemma_push_to_set_commute(s@);
        }
        assert(set_of(v@) =~= set_of(old(v)@).insert(s@));
    } else {
        assert(set_of(v@).insert(s@) =~= set_of(v@));
    }
}

/// Removes `s` from the set.
pub fn remove(v: &mut Vec<String>, s: &String)
    requires
        distinct(old(v)@),
    ensures
        distinct(final(v)@),
        set_of(final(v)@) == set_of(old(v)@).remove(s@),
{
    match index_of(v, s) {
        None => {
            assert(set_of(v@).remove(s@) =~= set_of(v@));
        },
        Some(i) => {
            let ghost before = views(v@);
            assert(before[i as int] == s@);
            v.remove(i);
            assert(views(v@) =~= before.remove(i as int));
            assert forall|x: Seq<char>| set_of(v@).contains(x) <==> set_of(old(v)@).remove(s@).contains(x) by {
                if set_of(v@).contains(x) {
                    let k = choose|k: int| 0 <= k < views(v@).len() && views(v@)[k] == x;
                    if k < i {
                        assert(before[k] == x);
                        assert(x != s@);
                    } else {
                        assert(before[k + 1] == x);
                        assert(x != s@);
                    }
                    assert(before.contains(x));
                }
                if set_of(old(v)@).remove(s@).contains(x) {
                    let k = choose|k: int| 0 <= k < before.len() && before[k] == x;
                    assert(k != i);
                    if k < i {
                        assert(views(v@)[k] == x);
                    } else {
                        assert(views(v@)[k - 1] == x);
                    }
                }
            }
            assert(set_of(v@) =~= set_of(old(v)@).remove(s@));
        },
    }
}

/// The set of the strings in `v`, without repeats.
pub fn from_vec(v: &Vec<String>) -> (r: Vec<String>)
    ensures
        distinct(r@),
        set_of(r@) == views(v@).to_set(),
{
    let mut r: Vec<String> = Vec::new();
    let mut i: usize = 0;
    assert(set_of(r@) =~= Set::<Seq<char>>::empty());
    while i < v.len()
        invariant
            0 <= i <= v.len(),
            distinct(r@),
            set_of(r@) == views(v@).take(i as int).to_set(),
        decreases v.len() - i,
    {
        insert(&mut r, &v[i]);
        proof {
            assert(views(v@).take(i + 1) =~= views(v@).take(i as int).push(v@[i as int]@));
            views(v@).take(i as int).lemma_push_to_set_commute(v@[i as int]@);
        }
        i = i + 1;
    }
    assert(views(v@).take(i as int) =~= views(v@));
    r
}

/// The set of a one-string vector.
pub proof fn lemma_singleton(v: Seq<String>)
    requires
        v.len() == 1,
    ensures
        set_of(v) == set![v[0]@],
        set_of(v).choose() == v[0]@,
{
    assert(views(v)[0] == v[0]@);
    assert(views(v).contains(v[0]@));
    assert(set_of(v) =~= set![v[0]@]);
    assert(set_of(v).contains(v[0]@));
}

/// A set held without repeats has as many members as the vector has entries.
pub proof fn lemma_len(v: Seq<String>)
    requires
        distinct(v),
    ensures
        set_of(v).len() == v.len(),
        set_of(v).finite(),
{
    views(v).unique_seq_to_set();
    vstd::seq_lib::seq_to_set_is_finite(views(v));
}

} // verus!
