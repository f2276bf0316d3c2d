//! Sets of identifiers held in vectors without duplicates.

use vstd::prelude::*;

verus! {

/// Whether `x` occurs in `v`.
pub fn contains_id(v: &Vec<usize>, x: usize) -> (r: bool)
    ensures
        r == v@.contains(x),
{
    let mut i: usize = 0;
    while i < v.len()
        invariant
            i <= v@.len(),
            forall|j: int| 0 <= j < i ==> v@[j] != x,
        decreases v@.len() - i,
    {
        if v[i] == x {
            return true;
        }
        i = i + 1;
    }
    false
}

/// Appends `x` unless it is already there.
pub fn insert_id(v: &mut Vec<usize>, x: usize)
    requires
        old(v)@.no_duplicates(),
    ensures
        final(v)@.no_duplicates(),
        final(v)@.to_set() == old(v)@.to_set().insert(x),
        old(v)@.contains(x) ==> final(v)@ == old(v)@,
        !old(v)@.contains(x) ==> final(v)@ == old(v)@.push(x),
{
    if !contains_id(v, x) {
        v.push(x);
        proof {
            lemma_push_keeps_no_duplicates(old(v)@, x);
            old(v)@.lemma_push_to_set_commute(x);
        }
    } else {
        proof {
            assert(old(v)@.to_set().contains(x));
            assert(old(v)@.to_set().insert(x) =~= old(v)@.to_set());
        }
    }
}

pub proof fn lemma_push_keeps_no_duplicates(s: Seq<usize>, x: usize)
    requires
        s.no_duplicates(),
        !s.contains(x),
    ensures
        s.push(x).no_duplicates(),
{
    let t = s.push(x);
    assert forall|i: int, j: int| 0 <= i < t.len() && 0 <= j < t.len() && i != j implies t[i]
        != t[j] by {
        if i < s.len() && j < s.len() {
            assert(t[i] == s[i] && t[j] == s[j]);
        } else if i == s.len() {
            assert(t[j] == s[j]);
        } else {
            assert(t[i] == s[i]);
        }
    }
}

/// Removes `x`, if it is there; the order of the others is kept.
pub fn remove_id(v: &mut Vec<usize>, x: usize)
    requires
        old(v)@.no_duplicates(),
    ensures
        final(v)@.no_duplicates(),
        final(v)@.to_set() == old(v)@.to_set().remove(x),
        !old(v)@.contains(x) ==> final(v)@ == old(v)@,
        old(v)@.contains(x) ==> final(v)@.len() + 1 == old(v)@.len(),
{
    let mut i: usize = 0;
    while i < v.len()
        invariant
            i <= v@.len(),
            forall|j: int| 0 <= j < i ==> v@[j] != x,
            v@ == old(v)@,
            old(v)@.no_duplicates(),
        decreases v@.len() - i,
    {
        if v[i] == x {
            let ghost before = v@;
            v.remove(i);
            proof {
                before.remove_ensures(i as int);
                assert forall|a: int, b: int|
                    0 <= a < v@.len() && 0 <= b < v@.len() && a != b implies v@[a] != v@[b] by {
                    let a0 = if a < i {
                        a
                    } else {
                        a + 1
                    };
                    let b0 = if b < i {
                        b
                    } else {
                        b + 1
                    };
                    assert(a0 != b0);
                    assert(v@[a] == before[a0]);
                    assert(v@[b] == before[b0]);
                }
                assert forall|y: usize| #[trigger]
                    v@.to_set().contains(y) <==> before.to_set().remove(x).contains(y) by {
                    if y != x && before.contains(y) {
                        let k = choose|k: int| 0 <= k < before.len() && before[k] == y;
                        if k < i {
                            assert(v@[k] == y);
                        } else {
                            assert(v@[k - 1] == y);
                        }
                        assert(v@.contains(y));
                    }
                    if v@.contains(y) {
                        let k = choose|k: int| 0 <= k < v@.len() && v@[k] == y;
                        let k0 = if k < i {
                            k
                        } else {
                            k + 1
                        };
                        assert(before[k0] == y);
                        assert(k0 != i);
                        assert(before.contains(y));
                    }
                }
                assert(v@.to_set() =~= before.to_set().remove(x));
                assert(v@.no_duplicates());
            }
            return;
        }
        i = i + 1;
    }
    proof {
        assert(!old(v)@.contains(x));
        assert(old(v)@.to_set().remove(x) =~= old(v)@.to_set());
    }
}

} // verus!
