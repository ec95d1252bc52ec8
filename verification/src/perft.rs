//! Perft: exhaustive game-tree node counting, the classic independent
//! cross-check of a rule implementation.  `spec_perft` is the mathematical
//! count of the leaf states reachable by legal move sequences of exactly the
//! given depth (depth `0` counts the root itself; a decided board has no
//! such sequences); the executable counter is proven to compute it, and the
//! scenario checker compares it against a table of reference values.

use vstd::prelude::*;

use crate::board::{avail_seq, done_of, Board};

verus! {

/// The number of leaf states reachable from `v` by legal move sequences of
/// exactly `depth` moves.
pub open spec fn spec_perft<B: Board>(v: B::V, depth: nat) -> nat
    decreases depth, 1nat, 0nat,
{
    if depth == 0 {
        1
    } else if done_of::<B>(v) {
        0
    } else {
        sum_perft::<B>(v, avail_seq::<B>(v), depth)
    }
}

/// The sum of the counts one level down, over the legal moves `ms` of `v`.
pub open spec fn sum_perft<B: Board>(v: B::V, ms: Seq<B::Move>, depth: nat) -> nat
    decreases depth, 0nat, ms.len(),
{
    if ms.len() == 0 || depth == 0 {
        0
    } else {
        sum_perft::<B>(v, ms.drop_last(), depth) + spec_perft::<B>(
            B::step(v, ms.last()),
            (depth - 1) as nat,
        )
    }
}

/// A prefix of the move list never counts more than the whole list.
proof fn lemma_sum_perft_prefix<B: Board>(v: B::V, ms: Seq<B::Move>, depth: nat, i: int)
    requires
        0 <= i <= ms.len(),
    ensures
        sum_perft::<B>(v, ms.take(i), depth) <= sum_perft::<B>(v, ms, depth),
    decreases ms.len() - i,
{
    if i == ms.len() {
        assert(ms.take(i) =~= ms);
    } else {
        lemma_sum_perft_prefix::<B>(v, ms.take(ms.len() - 1), depth, i);
        assert(ms.take(ms.len() - 1) =~= ms.drop_last());
        assert(ms.take(ms.len() - 1).take(i) =~= ms.take(i));
    }
}

/// Counts the leaf states reachable from `b` in exactly `depth` moves.
/// Returns `None` exactly when the count does not fit in a `u64`.
pub fn perft<B: Board>(b: &B, depth: u64) -> (r: Option<u64>)
    requires
        B::inv(b@),
    ensures
        r matches Some(n) ==> n == spec_perft::<B>(b@, depth as nat),
        r is None ==> spec_perft::<B>(b@, depth as nat) > u64::MAX,
    decreases depth,
{
    if depth == 0 {
        return Some(1);
    }
    if b.is_done() {
        return Some(0);
    }
    let moves = match b.available_moves() {
        Ok(v) => v,
        Err(_) => {
            proof {
                assert(false);
            }
            return Some(0);
        },
    };
    let ghost pred = B::avail_pred_of(b@);
    let mut acc: u64 = 0;
    let mut i: usize = 0;
    while i < moves.len()
        invariant
            B::inv(b@),
            !done_of::<B>(b@),
            depth >= 1,
            pred == B::avail_pred_of(b@),
            moves@ == avail_seq::<B>(b@),
            0 <= i <= moves@.len(),
            acc == sum_perft::<B>(b@, moves@.take(i as int), depth as nat),
        decreases moves@.len() - i,
    {
        proof {
            B::spec_all_moves().lemma_filter_pred(pred, i as int);
        }
        let child = match b.clone_and_play(moves[i]) {
            Ok(c) => c,
            Err(_) => {
                proof {
                    assert(false);
                }
                return None;
            },
        };
        let ghost child_count = spec_perft::<B>(child@, (depth - 1) as nat);
        proof {
            assert(moves@.take(i + 1).drop_last() =~= moves@.take(i as int));
            assert(moves@.take(i + 1).last() == moves@[i as int]);
            assert(sum_perft::<B>(b@, moves@.take(i + 1), depth as nat) == acc + child_count);
            lemma_sum_perft_prefix::<B>(b@, moves@, depth as nat, i + 1);
        }
        let sub = perft(&child, depth - 1);
        match sub {
            None => {
                return None;
            },
            Some(x) => {
                match acc.checked_add(x) {
                    None => {
                        return None;
                    },
                    Some(a2) => {
                        acc = a2;
                    },
                }
            },
        }
        i += 1;
    }
    proof {
        assert(moves@.take(moves@.len() as int) =~= moves@);
    }
    Some(acc)
}

/// Checks a perft scenario: whether the count from `b` matches `expected[d]`
/// at every depth `d` the table holds.
pub fn perft_check<B: Board>(b: &B, expected: &Vec<u64>) -> (r: bool)
    requires
        B::inv(b@),
    ensures
        r == (forall|d: int|
            0 <= d < expected@.len() ==> spec_perft::<B>(b@, d as nat) == expected@[d]),
{
    let mut d: usize = 0;
    while d < expected.len()
        invariant
            B::inv(b@),
            0 <= d <= expected@.len(),
            forall|x: int| 0 <= x < d ==> spec_perft::<B>(b@, x as nat) == expected@[x],
        decreases expected@.len() - d,
    {
        match perft(b, d as u64) {
            Some(n) => {
                if n != expected[d] {
                    proof {
                        assert(spec_perft::<B>(b@, d as nat) != expected@[d as int]);
                    }
                    return false;
                }
            },
            None => {
                proof {
                    assert(spec_perft::<B>(b@, d as nat) > u64::MAX);
                    assert(expected@[d as int] <= u64::MAX);
                    assert(spec_perft::<B>(b@, d as nat) != expected@[d as int]);
                }
                return false;
            },
        }
        d += 1;
    }
    true
}

} // verus!
