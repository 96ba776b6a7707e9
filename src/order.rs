//! Canonical order for the sets that a report shows: ascending, each
//! element once, whatever order the facts came in.

use vstd::prelude::*;

verus! {

/// Strictly ascending.
pub open spec fn ascending(s: Seq<usize>) -> bool {
    forall|i: int, j: int| 0 <= i < j < s.len() ==> s[i] < s[j]
}

/// Strictly ascending in lexicographic order.
pub open spec fn ascending_pairs(s: Seq<(usize, usize)>) -> bool {
    forall|i: int, j: int|
        0 <= i < j < s.len() ==> (s[i].0 < s[j].0 || (s[i].0 == s[j].0 && s[i].1 < s[j].1))
}

fn insert_ascending(r: &mut Vec<usize>, x: usize)
    requires
        ascending(old(r)@),
    ensures
        ascending(final(r)@),
        forall|y: usize| final(r)@.contains(y) <==> (old(r)@.contains(y) || y == x),
{
    let mut pos: usize = 0;
    while pos < r.len() && r[pos] < x
        invariant
            r@ == old(r)@,
            pos <= r@.len(),
            forall|k: int| 0 <= k < pos ==> r@[k] < x,
        decreases r@.len() - pos,
    {
        pos = pos + 1;
    }
    if pos < r.len() && r[pos] == x {
        assert(r@[pos as int] == x);
        assert(forall|y: usize| r@.contains(y) <==> (old(r)@.contains(y) || y == x));
        return;
    }
    let ghost before = r@;
    r.insert(pos, x);
    assert(r@ == before.insert(pos as int, x));
    assert forall|y: usize| r@.contains(y) <==> (before.contains(y) || y == x) by {
        if r@.contains(y) {
            let k = choose|k: int| 0 <= k < r@.len() && r@[k] == y;
            if k < pos {
                assert(before[k] == y);
            } else if k > pos {
                assert(before[k - 1] == y);
            }
        }
        if before.contains(y) {
            let k = choose|k: int| 0 <= k < before.len() && before[k] == y;
            if k < pos {
                assert(r@[k] == y);
            } else {
                assert(r@[k + 1] == y);
            }
        }
        if y == x {
            assert(r@[pos as int] == x);
        }
    }
    assert(before == old(r)@);
    assert(forall|y: usize| r@.contains(y) <==> (old(r)@.contains(y) || y == x));
    assert forall|i: int, j: int| 0 <= i < j < r@.len() implies r@[i] < r@[j] by {
        if j < pos {
            assert(r@[i] == before[i] && r@[j] == before[j]);
        } else if j == pos {
            assert(r@[i] == before[i] && r@[j] == x);
        } else if i < pos {
            assert(r@[i] == before[i] && r@[j] == before[j - 1]);
            assert(before[pos as int] >= x && before[pos as int] != x);
        } else if i == pos {
            assert(r@[i] == x && r@[j] == before[j - 1]);
            assert(before[pos as int] >= x && before[pos as int] != x);
        } else {
            assert(r@[i] == before[i - 1] && r@[j] == before[j - 1]);
        }
    }
}

/// The elements of `v`, ascending, each once.
pub fn sorted_set(v: &Vec<usize>) -> (r: Vec<usize>)
    ensures
        ascending(r@),
        forall|y: usize| r@.contains(y) <==> v@.contains(y),
{
    let mut r: Vec<usize> = Vec::new();
    let mut i: usize = 0;
    while i < v.len()
        invariant
            i <= v@.len(),
            ascending(r@),
            forall|y: usize| r@.contains(y) <==> v@.subrange(0, i as int).contains(y),
        decreases v@.len() - i,
    {
        insert_ascending(&mut r, v[i]);
        i = i + 1;
        assert forall|y: usize| #[trigger] v@.subrange(0, i as int).contains(y) <==> (v@.subrange(0, i - 1).contains(y)
            || y == v@[i - 1]) by {
            if v@.subrange(0, i as int).contains(y) {
                let k = choose|k: int| 0 <= k < i && #[trigger] v@.subrange(0, i as int)[k] == y;
                if k < i - 1 {
                    assert(v@.subrange(0, i - 1)[k] == y);
                }
            }
            if v@.subrange(0, i - 1).contains(y) {
                let k = choose|k: int| 0 <= k < i - 1 && #[trigger] v@.subrange(0, i - 1)[k] == y;
                assert(v@.subrange(0, i as int)[k] == y);
            }
            if y == v@[i - 1] {
                assert(v@.subrange(0, i as int)[i - 1] == y);
            }
        }
    }
    assert(v@.subrange(0, i as int) =~= v@);
    r
}

fn insert_ascending_pair(r: &mut Vec<(usize, usize)>, x: (usize, usize))
    requires
        ascending_pairs(old(r)@),
    ensures
        ascending_pairs(final(r)@),
        forall|y: (usize, usize)| final(r)@.contains(y) <==> (old(r)@.contains(y) || y == x),
{
    let mut pos: usize = 0;
    while pos < r.len() && (r[pos].0 < x.0 || (r[pos].0 == x.0 && r[pos].1 < x.1))
        invariant
            r@ == old(r)@,
            pos <= r@.len(),
            forall|k: int| 0 <= k < pos ==> (r@[k].0 < x.0 || (r@[k].0 == x.0 && r@[k].1 < x.1)),
        decreases r@.len() - pos,
    {
        pos = pos + 1;
    }
    if pos < r.len() && r[pos].0 == x.0 && r[pos].1 == x.1 {
        assert(r@[pos as int] == x);
        assert(forall|y: (usize, usize)| r@.contains(y) <==> (old(r)@.contains(y) || y == x));
        return;
    }
    let ghost before = r@;
    r.insert(pos, x);
    assert(r@ == before.insert(pos as int, x));
    assert forall|y: (usize, usize)| r@.contains(y) <==> (before.contains(y) || y == x) by {
        if r@.contains(y) {
            let k = choose|k: int| 0 <= k < r@.len() && r@[k] == y;
            if k < pos {
                assert(before[k] == y);
            } else if k > pos {
                assert(before[k - 1] == y);
            }
        }
        if before.contains(y) {
            let k = choose|k: int| 0 <= k < before.len() && before[k] == y;
            if k < pos {
                assert(r@[k] == y);
            } else {
                assert(r@[k + 1] == y);
            }
        }
        if y == x {
            assert(r@[pos as int] == x);
        }
    }
    assert(before == old(r)@);
    assert(forall|y: (usize, usize)| r@.contains(y) <==> (old(r)@.contains(y) || y == x));
    assert forall|i: int, j: int| 0 <= i < j < r@.len() implies (r@[i].0 < r@[j].0 || (r@[i].0 == r@[j].0 && r@[i].1 < r@[j].1)) by {
        if j < pos {
            assert(r@[i] == before[i] && r@[j] == before[j]);
        } else if j == pos {
            assert(r@[i] == before[i] && r@[j] == x);
        } else if i < pos {
            assert(r@[i] == before[i] && r@[j] == before[j - 1]);
            assert(!(before[pos as int].0 < x.0 || (before[pos as int].0 == x.0 && before[pos as int].1 < x.1)) && before[pos as int] != x);
        } else if i == pos {
            assert(r@[i] == x && r@[j] == before[j - 1]);
            assert(!(before[pos as int].0 < x.0 || (before[pos as int].0 == x.0 && before[pos as int].1 < x.1)) && before[pos as int] != x);
        } else {
            assert(r@[i] == before[i - 1] && r@[j] == before[j - 1]);
        }
    }
}

/// The pairs of `v`, in ascending lexicographic order, each once.
pub fn sorted_pair_set(v: &Vec<(usize, usize)>) -> (r: Vec<(usize, usize)>)
    ensures
        ascending_pairs(r@),
        forall|y: (usize, usize)| r@.contains(y) <==> v@.contains(y),
{
    let mut r: Vec<(usize, usize)> = Vec::new();
    let mut i: usize = 0;
    while i < v.len()
        invariant
            i <= v@.len(),
            ascending_pairs(r@),
            forall|y: (usize, usize)| r@.contains(y) <==> v@.subrange(0, i as int).contains(y),
        decreases v@.len() - i,
    {
        insert_ascending_pair(&mut r, v[i]);
        i = i + 1;
        assert forall|y: (usize, usize)| #[trigger] v@.subrange(0, i as int).contains(y) <==> (v@.subrange(0, i - 1).contains(y)
            || y == v@[i - 1]) by {
            if v@.subrange(0, i as int).contains(y) {
                let k = choose|k: int| 0 <= k < i && #[trigger] v@.subrange(0, i as int)[k] == y;
                if k < i - 1 {
                    assert(v@.subrange(0, i - 1)[k] == y);
                }
            }
            if v@.subrange(0, i - 1).contains(y) {
                let k = choose|k: int| 0 <= k < i - 1 && #[trigger] v@.subrange(0, i - 1)[k] == y;
                assert(v@.subrange(0, i as int)[k] == y);
            }
            if y == v@[i - 1] {
                assert(v@.subrange(0, i as int)[i - 1] == y);
            }
        }
    }
    assert(v@.subrange(0, i as int) =~= v@);
    r
}

} // verus!
