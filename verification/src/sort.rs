use vstd::prelude::*;
use vstd::multiset::Multiset;
use vstd::seq_lib::{lemma_multiset_commutative, to_multiset_build};

verus! {

/// The order of the spatial lookup: by cell key first, then by particle index.
/// An entry is `(particle_index, cell_key)`.
pub open spec fn entry_le(a: (usize, usize), b: (usize, usize)) -> bool {
    a.1 < b.1 || (a.1 == b.1 && a.0 <= b.0)
}

/// `s` is ordered by `entry_le`.
pub open spec fn sorted_by_cell(s: Seq<(usize, usize)>) -> bool {
    forall|i: int, j: int| 0 <= i < j < s.len() ==> entry_le(s[i], s[j])
}

fn entry_le_exec(a: (usize, usize), b: (usize, usize)) -> (r: bool)
    ensures
        r == entry_le(a, b),
{
    a.1 < b.1 || (a.1 == b.1 && a.0 <= b.0)
}

/// Merges two runs that are each ordered by cell into one ordered run
/// holding the elements of both.
fn merge(a: &Vec<(usize, usize)>, b: &Vec<(usize, usize)>) -> (r: Vec<(usize, usize)>)
    requires
        sorted_by_cell(a@),
        sorted_by_cell(b@),
    ensures
        sorted_by_cell(r@),
        r@.to_multiset() == a@.to_multiset().add(b@.to_multiset()),
        r@.len() == a@.len() + b@.len(),
{
    let mut r: Vec<(usize, usize)> = Vec::new();
    let mut i: usize = 0;
    let mut j: usize = 0;
    proof {
        assert(a@.subrange(0, 0) =~= Seq::<(usize, usize)>::empty());
        assert(b@.subrange(0, 0) =~= Seq::<(usize, usize)>::empty());
        broadcast use vstd::seq_lib::group_to_multiset_ensures;
        assert(r@.to_multiset().len() == 0);
        assert(r@.to_multiset() =~= Multiset::empty());
    }
    while i < a.len() || j < b.len()
        invariant
            i <= a@.len(),
            j <= b@.len(),
            r@.len() == i + j,
            sorted_by_cell(a@),
            sorted_by_cell(b@),
            sorted_by_cell(r@),
            r@.to_multiset() == a@.subrange(0, i as int).to_multiset().add(
                b@.subrange(0, j as int).to_multiset(),
            ),
            forall|k: int| 0 <= k < r@.len() && i < a@.len() ==> entry_le(#[trigger] r@[k], a@[i as int]),
            forall|k: int| 0 <= k < r@.len() && j < b@.len() ==> entry_le(#[trigger] r@[k], b@[j as int]),
        decreases a@.len() + b@.len() - i - j,
    {
        let take_a = j >= b.len() || (i < a.len() && entry_le_exec(a[i], b[j]));
        if take_a {
            let x = a[i];
            proof {
                to_multiset_build(r@, x);
                to_multiset_build(a@.subrange(0, i as int), x);
                assert(a@.subrange(0, i as int + 1) =~= a@.subrange(0, i as int).push(x));
            }
            let ghost old_r = r@;
            r.push(x);
            i = i + 1;
            proof {
                assert forall|k: int| 0 <= k < r@.len() && i < a@.len() implies entry_le(
                    #[trigger] r@[k],
                    a@[i as int],
                ) by {
                    assert(entry_le(a@[i - 1], a@[i as int]));
                    if k < old_r.len() {
                        assert(r@[k] == old_r[k]);
                        assert(entry_le(old_r[k], x));
                    }
                }
                assert forall|k: int| 0 <= k < r@.len() && j < b@.len() implies entry_le(
                    #[trigger] r@[k],
                    b@[j as int],
                ) by {
                    if k < old_r.len() {
                        assert(r@[k] == old_r[k]);
                    }
                }
            }
        } else {
            let x = b[j];
            proof {
                to_multiset_build(r@, x);
                to_multiset_build(b@.subrange(0, j as int), x);
                assert(b@.subrange(0, j as int + 1) =~= b@.subrange(0, j as int).push(x));
            }
            let ghost old_r = r@;
            r.push(x);
            j = j + 1;
            proof {
                assert forall|k: int| 0 <= k < r@.len() && j < b@.len() implies entry_le(
                    #[trigger] r@[k],
                    b@[j as int],
                ) by {
                    assert(entry_le(b@[j - 1], b@[j as int]));
                    if k < old_r.len() {
                        assert(r@[k] == old_r[k]);
                        assert(entry_le(old_r[k], x));
                    }
                }
                assert forall|k: int| 0 <= k < r@.len() && i < a@.len() implies entry_le(
                    #[trigger] r@[k],
                    a@[i as int],
                ) by {
                    if k < old_r.len() {
                        assert(r@[k] == old_r[k]);
                    }
                }
            }
        }
    }
    proof {
        assert(a@.subrange(0, a@.len() as int) =~= a@);
        assert(b@.subrange(0, b@.len() as int) =~= b@);
    }
    r
}

/// Sorts `v[lo..hi]` by cell key, then particle index.
fn sort_range(v: &Vec<(usize, usize)>, lo: usize, hi: usize) -> (r: Vec<(usize, usize)>)
    requires
        lo <= hi <= v@.len(),
    ensures
        sorted_by_cell(r@),
        r@.to_multiset() == v@.subrange(lo as int, hi as int).to_multiset(),
        r@.len() == hi - lo,
    decreases hi - lo,
{
    if hi - lo <= 1 {
        let mut r: Vec<(usize, usize)> = Vec::new();
        if hi - lo == 1 {
            r.push(v[lo]);
            proof {
                assert(v@.subrange(lo as int, hi as int) =~= r@);
            }
        } else {
            proof {
                assert(v@.subrange(lo as int, hi as int) =~= r@);
            }
        }
        r
    } else {
        let mid = lo + (hi - lo) / 2;
        let left = sort_range(v, lo, mid);
        let right = sort_range(v, mid, hi);
        proof {
            let s = v@.subrange(lo as int, hi as int);
            assert(s =~= v@.subrange(lo as int, mid as int) + v@.subrange(mid as int, hi as int));
            lemma_multiset_commutative(
                v@.subrange(lo as int, mid as int),
                v@.subrange(mid as int, hi as int),
            );
        }
        merge(&left, &right)
    }
}

/// Returns the entries of `v` ordered by cell key and, within a cell, by
/// particle index (the order a stable sort by cell key gives when `v` is in
/// particle order).
pub fn sort_by_cell(v: &Vec<(usize, usize)>) -> (r: Vec<(usize, usize)>)
    ensures
        sorted_by_cell(r@),
        r@.to_multiset() == v@.to_multiset(),
        r@.len() == v@.len(),
{
    let r = sort_range(v, 0, v.len());
    proof {
        assert(v@.subrange(0, v@.len() as int) =~= v@);
    }
    r
}

} // verus!
