//! Small verified building blocks shared by the checkers: duplicate
//! detection, membership, canonical reordering of move lists, and the
//! tolerance-band test of the uniformity checker.

use vstd::prelude::*;

use crate::board::Board;

verus! {

/// A sequence without duplicates.
pub open spec fn dupfree<A>(s: Seq<A>) -> bool {
    forall|i: int, j: int| 0 <= i < j < s.len() ==> s[i] != s[j]
}

/// Filtering distributes over push.
pub proof fn lemma_filter_push<A>(s: Seq<A>, pred: spec_fn(A) -> bool, x: A)
    ensures
        s.push(x).filter(pred) == if pred(x) {
            s.filter(pred).push(x)
        } else {
            s.filter(pred)
        },
{
    reveal(Seq::filter);
    assert(s.push(x).drop_last() =~= s);
    assert(s.push(x).last() == x);
}

/// Every element of a filtered sequence is an element of the original.
pub proof fn lemma_filter_subset<A>(s: Seq<A>, pred: spec_fn(A) -> bool, x: A)
    requires
        s.filter(pred).contains(x),
    ensures
        s.contains(x),
    decreases s.len(),
{
    reveal(Seq::filter);
    if s.len() > 0 {
        if s.last() == x {
        } else {
            assert(s.drop_last().filter(pred).contains(x));
            lemma_filter_subset(s.drop_last(), pred, x);
            let i = choose|i: int| 0 <= i < s.drop_last().len() && s.drop_last()[i] == x;
            assert(s[i] == x);
        }
    }
}

/// Filtering a duplicate-free sequence yields a duplicate-free sequence.
pub proof fn lemma_filter_dupfree<A>(s: Seq<A>, pred: spec_fn(A) -> bool)
    requires
        dupfree(s),
    ensures
        dupfree(s.filter(pred)),
    decreases s.len(),
{
    reveal(Seq::filter);
    if s.len() > 0 {
        let d = s.drop_last();
        assert(dupfree(d));
        lemma_filter_dupfree(d, pred);
        if pred(s.last()) {
            let f = d.filter(pred);
            assert forall|i: int| 0 <= i < f.len() implies f[i] != s.last() by {
                if f[i] == s.last() {
                    lemma_filter_subset(d, pred, f[i]);
                    let j = choose|j: int| 0 <= j < d.len() && d[j] == f[i];
                    assert(s[j] == s.last());
                }
            }
            assert(s.filter(pred) == f.push(s.last()));
        }
    }
}

/// Whether the list `v` holds the move `m`.
pub fn contains_move<B: Board>(v: &Vec<B::Move>, m: B::Move) -> (r: bool)
    ensures
        r == v@.contains(m),
{
    let mut i: usize = 0;
    while i < v.len()
        invariant
            0 <= i <= v@.len(),
            forall|j: int| 0 <= j < i ==> v@[j] != m,
        decreases v@.len() - i,
    {
        if B::move_eq(v[i], m) {
            assert(v@.contains(m));
            return true;
        }
        i += 1;
    }
    false
}

/// Whether the list `v` holds no move twice.
pub fn is_dupfree<B: Board>(v: &Vec<B::Move>) -> (r: bool)
    ensures
        r == dupfree(v@),
{
    let n = v.len();
    let mut i: usize = 0;
    while i < n
        invariant
            0 <= i <= n == v@.len(),
            forall|p: int, q: int| 0 <= p < q < v@.len() && p < i ==> v@[p] != v@[q],
        decreases n - i,
    {
        let mut j: usize = i + 1;
        while j < n
            invariant
                0 <= i < j <= n == v@.len(),
                forall|p: int, q: int| 0 <= p < q < v@.len() && p < i ==> v@[p] != v@[q],
                forall|q: int| i < q < j ==> v@[i as int] != v@[q],
            decreases n - j,
        {
            if B::move_eq(v[i], v[j]) {
                return false;
            }
            j += 1;
        }
        i += 1;
    }
    true
}

/// Whether two move lists are identical, element for element.
pub fn moves_equal<B: Board>(a: &Vec<B::Move>, b: &Vec<B::Move>) -> (r: bool)
    ensures
        r == (a@ == b@),
{
    if a.len() != b.len() {
        assert(a@ != b@);
        return false;
    }
    let n = a.len();
    let mut i: usize = 0;
    while i < n
        invariant
            0 <= i <= n == a@.len() == b@.len(),
            forall|j: int| 0 <= j < i ==> a@[j] == b@[j],
        decreases n - i,
    {
        if !B::move_eq(a[i], b[i]) {
            assert(a@ != b@);
            return false;
        }
        i += 1;
    }
    proof {
        assert(a@ =~= b@);
    }
    true
}

/// The membership predicate of a move list, as a named function value.
pub open spec fn member_pred<M>(sel: Seq<M>) -> spec_fn(M) -> bool {
    |m: M| sel.contains(m)
}

/// `all` reordered canonically against `sel`: exactly the members of `all`
/// that occur in `sel`, in the order of `all`.
pub open spec fn members_of<M>(all: Seq<M>, sel: Seq<M>) -> Seq<M> {
    all.filter(member_pred(sel))
}

/// Reorders `sel` canonically: keeps exactly the members of `all` that occur
/// in `sel`, in the order of `all`.  The checkers use this to compare move
/// lists independently of each list's own iteration order.
pub fn filter_members<B: Board>(all: &Vec<B::Move>, sel: &Vec<B::Move>) -> (r: Vec<B::Move>)
    ensures
        r@ == members_of(all@, sel@),
{
    let ghost pred = member_pred(sel@);
    let mut r: Vec<B::Move> = Vec::new();
    let mut i: usize = 0;
    proof {
        assert(all@.take(0).filter(pred) =~= Seq::<B::Move>::empty());
        assert(r@ =~= all@.take(0).filter(pred));
    }
    while i < all.len()
        invariant
            0 <= i <= all@.len(),
            pred == member_pred(sel@),
            r@ == all@.take(i as int).filter(pred),
        decreases all@.len() - i,
    {
        let keep = contains_move::<B>(sel, all[i]);
        proof {
            lemma_filter_push(all@.take(i as int), pred, all@[i as int]);
            assert(all@.take(i + 1 as int) =~= all@.take(i as int).push(all@[i as int]));
        }
        if keep {
            r.push(all[i]);
        }
        i += 1;
    }
    proof {
        assert(all@.take(all@.len() as int) =~= all@);
    }
    r
}

/// Whether every move drawn at least once has a count strictly inside the
/// tolerance band `(lo, hi)`.
pub open spec fn band_ok_spec(counts: Seq<u64>, lo: u64, hi: u64) -> bool {
    forall|i: int| 0 <= i < counts.len() && counts[i] > 0 ==> lo < counts[i] < hi
}

/// Decides the tolerance-band test over a tally of draw counts.
pub fn band_ok(counts: &Vec<u64>, lo: u64, hi: u64) -> (r: bool)
    ensures
        r == band_ok_spec(counts@, lo, hi),
{
    let mut i: usize = 0;
    while i < counts.len()
        invariant
            0 <= i <= counts@.len(),
            forall|j: int| 0 <= j < i && counts@[j] > 0 ==> lo < counts@[j] < hi,
        decreases counts@.len() - i,
    {
        let c = counts[i];
        if c > 0 && !(lo < c && c < hi) {
            return false;
        }
        i += 1;
    }
    true
}

} // verus!

verus! {

/// How often `m` occurs in the draw record `ds`.
pub open spec fn tally_of<M>(ds: Seq<M>, m: M) -> nat
    decreases ds.len(),
{
    if ds.len() == 0 {
        0
    } else {
        tally_of(ds.drop_last(), m) + if ds.last() == m {
            1nat
        } else {
            0nat
        }
    }
}

/// Recording one more draw raises exactly the tally of the drawn move.
pub proof fn lemma_tally_of_push<M>(ds: Seq<M>, d: M, m: M)
    ensures
        tally_of(ds.push(d), m) == tally_of(ds, m) + if d == m {
            1nat
        } else {
            0nat
        },
{
    assert(ds.push(d).drop_last() =~= ds);
    assert(ds.push(d).last() == d);
}

/// A tally never exceeds the number of draws.
pub proof fn lemma_tally_of_le_len<M>(ds: Seq<M>, m: M)
    ensures
        tally_of(ds, m) <= ds.len(),
    decreases ds.len(),
{
    if ds.len() > 0 {
        lemma_tally_of_le_len(ds.drop_last(), m);
    }
}

} // verus!
