//! Ordering of points by the numbers they denote: sorting, removal of
//! repeated values, and search in what is left.

use vstd::prelude::*;
use crate::scalar::{rank, rank_of};

verus! {

/// The order of keys: by the first component, then the second, then the third.
pub open spec fn key_below(a: (int, int, int), b: (int, int, int)) -> bool {
    a.0 < b.0 || (a.0 == b.0 && (a.1 < b.1 || (a.1 == b.1 && a.2 < b.2)))
}

/// A point that is ordered by a key. Two points denote the same value exactly
/// when their keys are equal.
pub trait Ranked: Sized {
    /// The ranks of the coordinates, padded with zeros.
    spec fn key(&self) -> (int, int, int);

    /// Tells whether this point comes strictly before the other.
    fn below(&self, other: &Self) -> (r: bool)
        ensures
            r == key_below(self.key(), other.key()),
    ;
}

impl Ranked for (u32, u32, u32) {
    open spec fn key(&self) -> (int, int, int) {
        (rank(self.0), rank(self.1), rank(self.2))
    }

    fn below(&self, other: &Self) -> (r: bool) {
        let a0: i64 = rank_of(self.0);
        let a1: i64 = rank_of(self.1);
        let a2: i64 = rank_of(self.2);
        let b0: i64 = rank_of(other.0);
        let b1: i64 = rank_of(other.1);
        let b2: i64 = rank_of(other.2);
        a0 < b0 || (a0 == b0 && (a1 < b1 || (a1 == b1 && a2 < b2)))
    }
}

impl Ranked for (u32, u32) {
    open spec fn key(&self) -> (int, int, int) {
        (rank(self.0), rank(self.1), 0)
    }

    fn below(&self, other: &Self) -> (r: bool) {
        let a0: i64 = rank_of(self.0);
        let a1: i64 = rank_of(self.1);
        let b0: i64 = rank_of(other.0);
        let b1: i64 = rank_of(other.1);
        a0 < b0 || (a0 == b0 && a1 < b1)
    }
}

/// No point comes before an earlier one.
pub open spec fn ascending<T: Ranked>(s: Seq<T>) -> bool {
    forall|i: int, j: int| 0 <= i < j < s.len() ==> !key_below(#[trigger] s[j].key(), #[trigger] s[i].key())
}

/// Every point comes strictly before the later ones, so no value occurs twice.
pub open spec fn strictly_ascending<T: Ranked>(s: Seq<T>) -> bool {
    forall|i: int, j: int| 0 <= i < j < s.len() ==> key_below(#[trigger] s[i].key(), #[trigger] s[j].key())
}

/// Every point of `s` is a point of `source`.
pub open spec fn drawn_from<T>(s: Seq<T>, source: Seq<T>) -> bool {
    forall|i: int| 0 <= i < s.len() ==> source.contains(#[trigger] s[i])
}

/// Whether some point of `s` has the key `k`.
pub open spec fn has_key<T: Ranked>(s: Seq<T>, k: (int, int, int)) -> bool {
    exists|j: int| 0 <= j < s.len() && (#[trigger] s[j]).key() == k
}

/// Every value that `source` denotes is denoted by a point of `s`.
pub open spec fn covers<T: Ranked>(s: Seq<T>, source: Seq<T>) -> bool {
    forall|i: int| 0 <= i < source.len() ==> has_key(s, (#[trigger] source[i]).key())
}

/// Two sequences without repetition that denote the same values hold them
/// at the same places.
pub proof fn same_values_same_places<T: Ranked>(a: Seq<T>, b: Seq<T>)
    requires
        strictly_ascending(a),
        strictly_ascending(b),
        covers(a, b),
        covers(b, a),
    ensures
        a.len() == b.len(),
        forall|i: int| 0 <= i < a.len() ==> (#[trigger] a[i]).key() == b[i].key(),
    decreases a.len(),
{
    if a.len() == 0 {
        if b.len() > 0 {
            assert(has_key(a, b[0].key()));
        }
    } else if b.len() == 0 {
        assert(has_key(b, a[0].key()));
    } else {
        assert(has_key(b, a[0].key()));
        let j = choose|j: int| 0 <= j < b.len() && (#[trigger] b[j]).key() == a[0].key();
        assert(has_key(a, b[0].key()));
        let i = choose|i: int| 0 <= i < a.len() && (#[trigger] a[i]).key() == b[0].key();
        if j > 0 {
            assert(key_below(b[0].key(), b[j].key()));
            if i > 0 {
                assert(key_below(a[0].key(), a[i].key()));
            }
        }
        assert(a[0].key() == b[0].key());
        let ta = a.skip(1);
        let tb = b.skip(1);
        assert forall|m: int, n: int| 0 <= m < n < ta.len() implies key_below(
            #[trigger] ta[m].key(),
            #[trigger] ta[n].key(),
        ) by {
            assert(key_below(a[m + 1].key(), a[n + 1].key()));
        }
        assert forall|m: int, n: int| 0 <= m < n < tb.len() implies key_below(
            #[trigger] tb[m].key(),
            #[trigger] tb[n].key(),
        ) by {
            assert(key_below(b[m + 1].key(), b[n + 1].key()));
        }
        assert forall|n: int| 0 <= n < tb.len() implies has_key(ta, (#[trigger] tb[n]).key()) by {
            assert(has_key(a, b[n + 1].key()));
            let m = choose|m: int| 0 <= m < a.len() && (#[trigger] a[m]).key() == b[n + 1].key();
            assert(key_below(b[0].key(), b[n + 1].key()));
            assert(m > 0);
            assert(ta[m - 1].key() == tb[n].key());
        }
        assert forall|n: int| 0 <= n < ta.len() implies has_key(tb, (#[trigger] ta[n]).key()) by {
            assert(has_key(b, a[n + 1].key()));
            let m = choose|m: int| 0 <= m < b.len() && (#[trigger] b[m]).key() == a[n + 1].key();
            assert(key_below(a[0].key(), a[n + 1].key()));
            assert(m > 0);
            assert(tb[m - 1].key() == ta[n].key());
        }
        same_values_same_places(ta, tb);
        assert forall|k: int| 0 <= k < a.len() implies (#[trigger] a[k]).key() == b[k].key() by {
            if k > 0 {
                assert(ta[k - 1].key() == tb[k - 1].key());
            }
        }
    }
}

/// Merges two ascending sequences into one. Of two points of one value, the
/// one from `a` comes first.
pub fn merged<T: Ranked + Copy>(a: &Vec<T>, b: &Vec<T>) -> (out: Vec<T>)
    requires
        ascending(a@),
        ascending(b@),
    ensures
        ascending(out@),
        out@.len() == a@.len() + b@.len(),
        drawn_from(out@, a@ + b@),
        drawn_from(a@ + b@, out@),
{
    let mut out: Vec<T> = Vec::new();
    let mut i: usize = 0;
    let mut j: usize = 0;
    while i < a.len() || j < b.len()
        invariant
            i <= a.len(),
            j <= b.len(),
            out@.len() == i + j,
            ascending(a@),
            ascending(b@),
            ascending(out@),
            forall|k: int, p: int|
                0 <= k < out@.len() && i <= p < a@.len() ==> !key_below(
                    #[trigger] a@[p].key(),
                    #[trigger] out@[k].key(),
                ),
            forall|k: int, q: int|
                0 <= k < out@.len() && j <= q < b@.len() ==> !key_below(
                    #[trigger] b@[q].key(),
                    #[trigger] out@[k].key(),
                ),
            drawn_from(out@, a@ + b@),
            forall|p: int| 0 <= p < i ==> out@.contains(#[trigger] a@[p]),
            forall|q: int| 0 <= q < j ==> out@.contains(#[trigger] b@[q]),
        decreases a.len() - i + (b.len() - j),
    {
        let ghost before = out@;
        let from_a = if j >= b.len() {
            true
        } else if i >= a.len() {
            false
        } else {
            !b[j].below(&a[i])
        };
        if from_a {
            let x = a[i];
            out.push(x);
            i = i + 1;
            proof {
                assert((a@ + b@)[i - 1] == x);
            }
        } else {
            let x = b[j];
            out.push(x);
            j = j + 1;
            proof {
                assert((a@ + b@)[a@.len() + j - 1] == x);
            }
        }
        proof {
            let last = out@.len() - 1;
            assert(forall|k: int| 0 <= k < before.len() ==> out@[k] == before[k]);
            assert forall|k: int| 0 <= k < out@.len() implies (a@ + b@).contains(
                #[trigger] out@[k],
            ) by {
                if k < last {
                    assert(out@[k] == before[k]);
                }
            }
            assert forall|p: int| 0 <= p < i implies out@.contains(#[trigger] a@[p]) by {
                if from_a && p == i - 1 {
                    assert(out@[last] == a@[p]);
                } else {
                    let k = choose|k: int| 0 <= k < before.len() && before[k] == a@[p];
                    assert(out@[k] == a@[p]);
                }
            }
            assert forall|q: int| 0 <= q < j implies out@.contains(#[trigger] b@[q]) by {
                if !from_a && q == j - 1 {
                    assert(out@[last] == b@[q]);
                } else {
                    let k = choose|k: int| 0 <= k < before.len() && before[k] == b@[q];
                    assert(out@[k] == b@[q]);
                }
            }
        }
    }
    out
}

/// Sorts the points of `v` from `lo` up to `hi` by merging sorted halves.
pub fn sorted_range<T: Ranked + Copy>(v: &Vec<T>, lo: usize, hi: usize) -> (out: Vec<T>)
    requires
        lo <= hi <= v@.len(),
    ensures
        ascending(out@),
        out@.len() == hi - lo,
        drawn_from(out@, v@.subrange(lo as int, hi as int)),
        drawn_from(v@.subrange(lo as int, hi as int), out@),
    decreases hi - lo,
{
    let ghost part = v@.subrange(lo as int, hi as int);
    if hi - lo == 0 {
        Vec::new()
    } else if hi - lo == 1 {
        let mut out: Vec<T> = Vec::new();
        out.push(v[lo]);
        proof {
            assert(part[0] == v@[lo as int]);
            assert(out@[0] == part[0]);
        }
        out
    } else {
        let mid = lo + (hi - lo) / 2;
        let left = sorted_range(v, lo, mid);
        let right = sorted_range(v, mid, hi);
        let out = merged(&left, &right);
        proof {
            let l = v@.subrange(lo as int, mid as int);
            let r = v@.subrange(mid as int, hi as int);
            assert(part =~= l + r);
            assert forall|k: int| 0 <= k < out@.len() implies part.contains(#[trigger] out@[k]) by {
                let x = out@[k];
                let n = choose|n: int| 0 <= n < (left@ + right@).len() && (left@ + right@)[n] == x;
                if n < left@.len() {
                    assert(left@[n] == x);
                    let m = choose|m: int| 0 <= m < l.len() && l[m] == x;
                    assert(part[m] == x);
                } else {
                    assert(right@[n - left@.len()] == x);
                    let m = choose|m: int| 0 <= m < r.len() && r[m] == x;
                    assert(part[l.len() + m] == x);
                }
            }
            assert forall|n: int| 0 <= n < part.len() implies out@.contains(#[trigger] part[n]) by {
                let x = part[n];
                if n < l.len() {
                    assert(l[n] == x);
                    let m = choose|m: int| 0 <= m < left@.len() && left@[m] == x;
                    assert((left@ + right@)[m] == x);
                } else {
                    assert(r[n - l.len()] == x);
                    let m = choose|m: int| 0 <= m < right@.len() && right@[m] == x;
                    assert((left@ + right@)[left@.len() + m] == x);
                }
                assert((left@ + right@).contains(x));
            }
        }
        out
    }
}

/// A sorted copy of `v`.
pub fn sorted<T: Ranked + Copy>(v: &Vec<T>) -> (out: Vec<T>)
    ensures
        ascending(out@),
        out@.len() == v@.len(),
        drawn_from(out@, v@),
        drawn_from(v@, out@),
{
    proof {
        assert(v@.subrange(0, v@.len() as int) =~= v@);
    }
    sorted_range(v, 0, v.len())
}

/// Keeps the first point of every run of points of one value.
pub fn distinct<T: Ranked + Copy>(v: &Vec<T>) -> (out: Vec<T>)
    requires
        ascending(v@),
    ensures
        strictly_ascending(out@),
        drawn_from(out@, v@),
        covers(out@, v@),
{
    let mut out: Vec<T> = Vec::new();
    let mut i: usize = 0;
    while i < v.len()
        invariant
            i <= v.len(),
            ascending(v@),
            strictly_ascending(out@),
            drawn_from(out@, v@),
            forall|p: int| 0 <= p < i ==> has_key(out@, (#[trigger] v@[p]).key()),
            i > 0 ==> out@.len() > 0 && out@[out@.len() - 1].key() == v@[i - 1].key(),
            i == 0 ==> out@.len() == 0,
        decreases v.len() - i,
    {
        let ghost before = out@;
        let x = v[i];
        let fresh = if out.len() == 0 {
            true
        } else {
            out[out.len() - 1].below(&x)
        };
        if fresh {
            out.push(x);
            proof {
                let last = out@.len() - 1;
                assert(forall|k: int| 0 <= k < before.len() ==> out@[k] == before[k]);
                assert forall|a: int, b: int| 0 <= a < b < out@.len() implies key_below(
                    #[trigger] out@[a].key(),
                    #[trigger] out@[b].key(),
                ) by {
                    if b == last && before.len() > 0 {
                        assert(key_below(before[before.len() - 1].key(), x.key()));
                        if a < before.len() - 1 {
                            assert(key_below(before[a].key(), before[before.len() - 1].key()));
                        }
                    }
                }
                assert forall|k: int| 0 <= k < out@.len() implies v@.contains(#[trigger] out@[k]) by {
                    if k == last {
                        assert(v@[i as int] == x);
                    } else {
                        assert(out@[k] == before[k]);
                    }
                }
                assert forall|p: int| 0 <= p < i + 1 implies has_key(
                    out@,
                    (#[trigger] v@[p]).key(),
                ) by {
                    if p == i {
                        assert(out@[last].key() == v@[p].key());
                    } else {
                        let k = choose|k: int|
                            0 <= k < before.len() && (#[trigger] before[k]).key() == v@[p].key();
                        assert(out@[k].key() == v@[p].key());
                    }
                }
            }
        } else {
        }
        i = i + 1;
    }
    out
}

/// Finds the place of the value of `x` among points without repetition.
pub fn position<T: Ranked + Copy>(v: &Vec<T>, x: &T) -> (r: Option<usize>)
    requires
        strictly_ascending(v@),
    ensures
        match r {
            Some(i) => i < v@.len() && v@[i as int].key() == x.key(),
            None => !has_key(v@, x.key()),
        },
{
    let mut lo: usize = 0;
    let mut hi: usize = v.len();
    while lo < hi
        invariant
            lo <= hi <= v.len(),
            strictly_ascending(v@),
            forall|k: int| 0 <= k < lo ==> key_below(#[trigger] v@[k].key(), x.key()),
            forall|k: int| hi <= k < v@.len() ==> key_below(x.key(), #[trigger] v@[k].key()),
        decreases hi - lo,
    {
        let mid = lo + (hi - lo) / 2;
        let probe = v[mid];
        if probe.below(x) {
            lo = mid + 1;
        } else if x.below(&probe) {
            hi = mid;
        } else {
            return Some(mid);
        }
    }
    None
}

} // verus!
