//! The contract checkers: consistency of move enumeration, terminal-state
//! behaviour, statistical uniformity of random drawing, and the symmetry
//! laws.  Each checker takes one board position and re-validates at run time
//! what the contract promises, returning exactly the conjunction of the
//! properties that the contract alone does not force.

use vstd::prelude::*;

use crate::board::{avail_seq, done_of, Board, GroupSymmetry, Outcome};
use crate::kernels::{
    band_ok, band_ok_spec, contains_move, dupfree, filter_members, is_dupfree,
    lemma_filter_dupfree, members_of, moves_equal,
};
use crate::rng::Rng64;

verus! {

/// Whether the list `v` holds the symmetry element `x`.
pub fn contains_sym<S: GroupSymmetry>(v: &Vec<S>, x: S) -> (r: bool)
    ensures
        r == v@.contains(x),
{
    let mut i: usize = 0;
    while i < v.len()
        invariant
            0 <= i <= v@.len(),
            forall|j: int| 0 <= j < i ==> v@[j] != x,
        decreases v@.len() - i,
    {
        if S::sym_eq(v[i], x) {
            assert(v@.contains(x));
            return true;
        }
        i += 1;
    }
    false
}

/// Cross-validates move enumeration on a non-done board: counts agree across
/// repeated enumeration, the available list is non-empty and duplicate-free,
/// every available move is in the static space and reports available, every
/// static move's availability report agrees with list membership, and every
/// available move can actually be played.  Everything the contract already
/// forces is re-checked at run time; what remains open is exactly that the
/// static space is duplicate-free and that some move is available.
pub fn consistency_check<B: Board>(b: &B) -> (r: bool)
    requires
        B::inv(b@),
        !done_of::<B>(b@),
    ensures
        r == (dupfree(B::spec_all_moves()) && avail_seq::<B>(b@).len() > 0),
{
    let ghost pred = B::avail_pred_of(b@);
    let all = B::all_possible_moves();
    let available = match b.available_moves() {
        Ok(v) => v,
        Err(_) => {
            proof {
                assert(false);
            }
            return false;
        },
    };
    // counts obtained by a second, independent enumeration
    let all_count = B::all_possible_moves().len();
    let available_count = match b.available_moves() {
        Ok(v) => v.len(),
        Err(_) => {
            proof {
                assert(false);
            }
            return false;
        },
    };
    if all.len() != all_count || available.len() != available_count {
        proof {
            assert(false);
        }
        return false;
    }
    if !is_dupfree::<B>(&all) {
        return false;
    }
    if available.len() == 0 {
        return false;
    }
    proof {
        lemma_filter_dupfree(B::spec_all_moves(), pred);
    }
    if !is_dupfree::<B>(&available) {
        proof {
            assert(false);
        }
        return false;
    }
    // every generated move is available and lies in the static space,
    // and playing it succeeds
    let mut i: usize = 0;
    while i < available.len()
        invariant
            B::inv(b@),
            !done_of::<B>(b@),
            pred == B::avail_pred_of(b@),
            available@ == avail_seq::<B>(b@),
            all@ == B::spec_all_moves(),
            0 <= i <= available@.len(),
        decreases available@.len() - i,
    {
        let m = available[i];
        proof {
            B::spec_all_moves().lemma_filter_pred(pred, i as int);
            assert(available@.contains(available@[i as int]));
            crate::kernels::lemma_filter_subset(B::spec_all_moves(), pred, m);
        }
        if !contains_move::<B>(&all, m) {
            proof {
                assert(false);
            }
            return false;
        }
        match b.is_available_move(m) {
            Ok(true) => {},
            _ => {
                proof {
                    assert(false);
                }
                return false;
            },
        }
        match b.clone_and_play(m) {
            Ok(_) => {},
            Err(_) => {
                proof {
                    assert(false);
                }
                return false;
            },
        }
        i += 1;
    }
    // every static move's availability report agrees with list membership
    let mut j: usize = 0;
    while j < all.len()
        invariant
            B::inv(b@),
            !done_of::<B>(b@),
            pred == B::avail_pred_of(b@),
            available@ == avail_seq::<B>(b@),
            all@ == B::spec_all_moves(),
            0 <= j <= all@.len(),
        decreases all@.len() - j,
    {
        let m = all[j];
        let f = match b.is_available_move(m) {
            Ok(x) => x,
            Err(_) => {
                proof {
                    assert(false);
                }
                return false;
            },
        };
        let inav = contains_move::<B>(&available, m);
        proof {
            if f {
                B::spec_all_moves().lemma_filter_contains(pred, j as int);
            }
            if inav {
                let x = choose|x: int|
                    0 <= x < available@.len() && available@[x] == m;
                B::spec_all_moves().lemma_filter_pred(pred, x);
            }
        }
        if f != inav {
            proof {
                assert(false);
            }
            return false;
        }
        j += 1;
    }
    true
}

/// Re-validates terminal-state behaviour on a done board: move enumeration,
/// random drawing, availability queries and play attempts must all fail.
/// The contract forces each failure, so the checker always passes; running
/// it still exercises every operation on the done board.
pub fn terminal_check<B: Board>(b: &B, rng: &mut Rng64) -> (r: bool)
    requires
        B::inv(b@),
        done_of::<B>(b@),
    ensures
        r,
{
    let ok_avail = b.available_moves().is_err();
    let ok_random = b.random_available_move(rng).is_err();
    let all = B::all_possible_moves();
    let mut ok_moves = true;
    let mut i: usize = 0;
    while i < all.len()
        invariant
            B::inv(b@),
            done_of::<B>(b@),
            ok_moves,
        decreases all@.len() - i,
    {
        let m = all[i];
        match b.clone_and_play(m) {
            Err(crate::board::PlayError::BoardDone) => {},
            _ => {
                ok_moves = false;
                proof {
                    assert(false);
                }
            },
        }
        if !b.is_available_move(m).is_err() {
            ok_moves = false;
            proof {
                assert(false);
            }
        }
        i += 1;
    }
    ok_avail && ok_random && ok_moves
}

/// One sampling run on the board model `v`: `ds` records `1000 · k` draws
/// (`k` the number of legal moves), each drawn move is legal on `v`, and
/// `counts` is exactly the tally of the record against the legal-move list.
pub open spec fn tallied_run<B: Board>(v: B::V, ds: Seq<B::Move>, counts: Seq<u64>) -> bool {
    &&& ds.len() == 1000 * avail_seq::<B>(v).len()
    &&& (forall|j: int| 0 <= j < ds.len() ==> B::avail_pred_of(v)(#[trigger] ds[j]))
    &&& counts.len() == avail_seq::<B>(v).len()
    &&& (forall|i: int|
        0 <= i < counts.len() ==> (#[trigger] counts[i]) as nat == crate::kernels::tally_of(
            ds,
            avail_seq::<B>(v)[i],
        ))
}

/// Draws `1000 · k` moves (`k` the number of available moves) from a
/// non-done board with the supplied deterministic source and tallies them
/// against the available-move list.  Returns the tolerance-band verdict —
/// every move drawn at least once must have a count strictly between `800`
/// and `1200`, the ±20% band around the uniform expectation of `1000` — and
/// the tally, which is pinned to an actual record of legal draws.
pub fn uniformity_check<B: Board>(b: &B, rng: &mut Rng64) -> (r: (bool, Vec<u64>))
    requires
        B::inv(b@),
        !done_of::<B>(b@),
        1000 * avail_seq::<B>(b@).len() <= u64::MAX,
    ensures
        r.0 == band_ok_spec(r.1@, 800, 1200),
        exists|ds: Seq<B::Move>| #[trigger] tallied_run::<B>(b@, ds, r.1@),
{
    let moves = match b.available_moves() {
        Ok(v) => v,
        Err(_) => {
            proof {
                assert(false);
            }
            return (false, Vec::new());
        },
    };
    let k = moves.len();
    let mut counts: Vec<u64> = Vec::new();
    let mut z: usize = 0;
    while z < k
        invariant
            counts@.len() == z,
            0 <= z <= k,
            forall|x: int| 0 <= x < z ==> counts@[x] == 0u64,
        decreases k - z,
    {
        counts.push(0);
        z += 1;
    }
    let ghost mut ds: Seq<B::Move> = Seq::empty();
    proof {
        assert forall|x: int| 0 <= x < k implies (#[trigger] counts@[x]) as nat
            == crate::kernels::tally_of(ds, moves@[x]) by {
            assert(counts@[x] == 0u64);
        }
    }
    let mut i: usize = 0;
    while i < k
        invariant
            B::inv(b@),
            !done_of::<B>(b@),
            moves@ == avail_seq::<B>(b@),
            k == moves@.len(),
            1000 * k <= u64::MAX,
            counts@.len() == k,
            0 <= i <= k,
            ds.len() == 1000 * i,
            forall|j: int| 0 <= j < ds.len() ==> B::avail_pred_of(b@)(#[trigger] ds[j]),
            forall|x: int|
                0 <= x < k ==> (#[trigger] counts@[x]) as nat == crate::kernels::tally_of(
                    ds,
                    moves@[x],
                ),
        decreases k - i,
    {
        let mut t: usize = 0;
        while t < 1000
            invariant
                B::inv(b@),
                !done_of::<B>(b@),
                moves@ == avail_seq::<B>(b@),
                k == moves@.len(),
                1000 * k <= u64::MAX,
                counts@.len() == k,
                0 <= i < k,
                0 <= t <= 1000,
                ds.len() == 1000 * i + t,
                forall|j: int| 0 <= j < ds.len() ==> B::avail_pred_of(b@)(#[trigger] ds[j]),
                forall|x: int|
                    0 <= x < k ==> (#[trigger] counts@[x]) as nat == crate::kernels::tally_of(
                        ds,
                        moves@[x],
                    ),
            decreases 1000 - t,
        {
            let drawn = match b.random_available_move(rng) {
                Ok(m) => m,
                Err(_) => {
                    proof {
                        assert(false);
                    }
                    return (false, Vec::new());
                },
            };
            let ghost ds0 = ds;
            let mut w: usize = 0;
            while w < k
                invariant
                    counts@.len() == k,
                    k == moves@.len(),
                    0 <= w <= k,
                    ds0.len() < 1000 * k <= u64::MAX,
                    B::avail_pred_of(b@)(drawn),
                    forall|x: int|
                        0 <= x < w ==> (#[trigger] counts@[x]) as nat == crate::kernels::tally_of(
                            ds0.push(drawn),
                            moves@[x],
                        ),
                    forall|x: int|
                        w <= x < k ==> (#[trigger] counts@[x]) as nat == crate::kernels::tally_of(
                            ds0,
                            moves@[x],
                        ),
                decreases k - w,
            {
                proof {
                    crate::kernels::lemma_tally_of_push(ds0, drawn, moves@[w as int]);
                    crate::kernels::lemma_tally_of_le_len(ds0, moves@[w as int]);
                }
                if B::move_eq(moves[w], drawn) {
                    let c = counts[w];
                    counts.set(w, c + 1);
                }
                w += 1;
            }
            proof {
                ds = ds0.push(drawn);
            }
            t += 1;
        }
        i += 1;
    }
    let verdict = band_ok(&counts, 800, 1200);
    proof {
        assert(tallied_run::<B>(b@, ds, counts@));
    }
    (verdict, counts)
}

/// The move mapping of one symmetry element, as a named function value.
pub open spec fn mapper<B: Board>(s: B::Sym) -> spec_fn(B::Move) -> B::Move {
    |m: B::Move| B::move_map_of(s, m)
}

/// A board model's legal moves, each carried through a symmetry element's
/// move mapping.
pub open spec fn mapped_moves<B: Board>(v: B::V, s: B::Sym) -> Seq<B::Move> {
    avail_seq::<B>(v).map_values(mapper::<B>(s))
}

/// The laws one symmetry element must satisfy on one board model: its
/// inverse is in the element set, mapping and then mapping back restores the
/// model, the identity maps the model to itself, outcome and next player are
/// invariant, the available moves transport through the move mapping (after
/// canonical reordering against the static move space), and the canonical
/// form is invariant.
pub open spec fn sym_elem_ok<B: Board>(v: B::V, s: B::Sym) -> bool {
    &&& B::Sym::spec_all().contains(s.spec_inverse())
    &&& B::map_of(B::map_of(v, s), s.spec_inverse()) == v
    &&& (s == B::Sym::spec_identity() ==> B::map_of(v, s) == v)
    &&& B::outcome_of(B::map_of(v, s)) == B::outcome_of(v)
    &&& B::player_of(B::map_of(v, s)) == B::player_of(v)
    &&& (B::outcome_of(v) == Outcome::Undecided ==> members_of(
        B::spec_all_moves(),
        mapped_moves::<B>(v, s),
    ) == members_of(B::spec_all_moves(), avail_seq::<B>(B::map_of(v, s))))
    &&& B::canon_of(B::map_of(v, s)) == B::canon_of(v)
}

/// The full symmetry law bundle on one board model: the element set holds
/// the identity, and every element satisfies [`sym_elem_ok`].
pub open spec fn symmetry_ok<B: Board>(v: B::V) -> bool {
    &&& B::Sym::spec_all().contains(B::Sym::spec_identity())
    &&& forall|i: int|
        0 <= i < B::Sym::spec_all().len() ==> sym_elem_ok::<B>(v, #[trigger] B::Sym::spec_all()[i])
}

/// Decides [`sym_elem_ok`] for one element at run time.
fn check_sym_elem<B: Board>(b: &B, s: B::Sym) -> (r: bool)
    requires
        B::inv(b@),
    ensures
        r == sym_elem_ok::<B>(b@, s),
{
    let syms = B::Sym::all();
    let s_inv = s.inverse();
    let inv_in = contains_sym::<B::Sym>(&syms, s_inv);
    let mapped = b.map(s);
    let back = mapped.map(s_inv);
    let rt_ok = back.eq_board(b);
    let id_ok = if B::Sym::sym_eq(s, B::Sym::identity()) {
        mapped.eq_board(b)
    } else {
        true
    };
    let oc_ok = b.outcome() == mapped.outcome();
    let pl_ok = b.next_player() == mapped.next_player();
    let canon_b = b.canonicalize();
    let canon_m = mapped.canonicalize();
    let canon_ok = canon_b.eq_board(&canon_m);
    let mut transport_ok = true;
    if !b.is_done() {
        let avail = match b.available_moves() {
            Ok(v) => v,
            Err(_) => {
                proof {
                    assert(false);
                }
                return false;
            },
        };
        let mut carried: Vec<B::Move> = Vec::new();
        let mut i: usize = 0;
        while i < avail.len()
            invariant
                0 <= i <= avail@.len(),
                carried@.len() == i,
                forall|x: int|
                    0 <= x < i ==> #[trigger] carried@[x] == B::move_map_of(s, avail@[x]),
            decreases avail@.len() - i,
        {
            carried.push(b.map_move(s, avail[i]));
            i += 1;
        }
        proof {
            assert(carried@ =~= mapped_moves::<B>(b@, s));
        }
        match mapped.available_moves() {
            Err(_) => {
                // the image is done although the original is not, so the
                // outcome-invariance law has already failed
                proof {
                    assert(!oc_ok);
                }
                transport_ok = true;
            },
            Ok(mapped_avail) => {
                let all = B::all_possible_moves();
                let expected = filter_members::<B>(&all, &carried);
                let actual = filter_members::<B>(&all, &mapped_avail);
                transport_ok = moves_equal::<B>(&expected, &actual);
                // every transported move must also report available directly
                let mut w: usize = 0;
                while w < mapped_avail.len()
                    invariant
                        B::inv(mapped@),
                        !done_of::<B>(mapped@),
                        mapped_avail@ == avail_seq::<B>(mapped@),
                        0 <= w <= mapped_avail@.len(),
                    decreases mapped_avail@.len() - w,
                {
                    proof {
                        B::spec_all_moves().lemma_filter_pred(
                            B::avail_pred_of(mapped@),
                            w as int,
                        );
                    }
                    match mapped.is_available_move(mapped_avail[w]) {
                        Ok(true) => {},
                        _ => {
                            proof {
                                assert(false);
                            }
                            return false;
                        },
                    }
                    w += 1;
                }
            },
        }
    }
    inv_in && rt_ok && id_ok && oc_ok && pl_ok && canon_ok && transport_ok
}

/// Re-validates the symmetry laws on one board position, done or not:
/// returns exactly whether [`symmetry_ok`] holds of its model.
pub fn symmetry_check<B: Board>(b: &B) -> (r: bool)
    requires
        B::inv(b@),
    ensures
        r == symmetry_ok::<B>(b@),
{
    let syms = B::Sym::all();
    let id_in = contains_sym::<B::Sym>(&syms, B::Sym::identity());
    if !id_in {
        return false;
    }
    let mut ok = true;
    let mut i: usize = 0;
    while i < syms.len()
        invariant
            B::inv(b@),
            syms@ == B::Sym::spec_all(),
            0 <= i <= syms@.len(),
            ok == forall|j: int| 0 <= j < i ==> sym_elem_ok::<B>(b@, #[trigger] syms@[j]),
        decreases syms@.len() - i,
    {
        let e = check_sym_elem(b, syms[i]);
        ok = ok && e;
        i += 1;
    }
    ok
}

/// Runs every checker that applies to one board position: the terminal
/// checker on a done board, otherwise the consistency and uniformity
/// checkers, and the symmetry checker in either case.  On a non-done board
/// the verdict equals the conjunction of the decidable laws with the
/// tolerance-band verdict of an actual tallied sampling run.
pub fn run_board_checks<B: Board>(b: &B, rng: &mut Rng64) -> (r: bool)
    requires
        B::inv(b@),
        !done_of::<B>(b@) ==> 1000 * avail_seq::<B>(b@).len() <= u64::MAX,
    ensures
        r ==> symmetry_ok::<B>(b@),
        done_of::<B>(b@) ==> r == symmetry_ok::<B>(b@),
        !done_of::<B>(b@) ==> exists|ds: Seq<B::Move>, counts: Seq<u64>|
            #[trigger] tallied_run::<B>(b@, ds, counts) && r == (dupfree(B::spec_all_moves())
                && avail_seq::<B>(b@).len() > 0 && band_ok_spec(counts, 800, 1200)
                && symmetry_ok::<B>(b@)),
{
    if b.is_done() {
        let base = terminal_check(b, rng);
        let s = symmetry_check(b);
        base && s
    } else {
        let c = consistency_check(b);
        let (u, counts) = uniformity_check(b, rng);
        let s = symmetry_check(b);
        let r = c && u && s;
        proof {
            let dsw = choose|ds: Seq<B::Move>| #[trigger] tallied_run::<B>(b@, ds, counts@);
            assert(tallied_run::<B>(b@, dsw, counts@) && r == (dupfree(B::spec_all_moves())
                && avail_seq::<B>(b@).len() > 0 && band_ok_spec(counts@, 800, 1200)
                && symmetry_ok::<B>(b@)));
        }
        r
    }
}

} // verus!

