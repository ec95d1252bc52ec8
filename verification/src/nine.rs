//! Nine-board tic-tac-toe: a concrete game implementing the board contract.
//!
//! The board is a 3×3 grid of 3×3 sub-boards.  A move is a cell index
//! `0..81` (`om * 9 + os`: sub-board, then cell within it).  Placing a mark
//! on cell `os` sends the opponent to sub-board `os`; if that sub-board is
//! already closed the opponent may play in any open sub-board.  A sub-board
//! closes when a player completes a line in it or it fills up; the game is
//! won by a line of owned sub-boards on the 3×3 macro grid and drawn when
//! every sub-board is closed.  The opening position forces the first move
//! into sub-board `0`.
//!
//! The symmetry group is the dihedral group of the square, acting on the
//! macro grid and on every sub-board at once.

use vstd::prelude::*;

use crate::board::{Board, BoardDone, GroupSymmetry, Outcome, PlayError, Player};
use crate::rng::Rng64;

verus! {

// ---------------------------------------------------------------------------
// The dihedral symmetry elements and their action on a 3x3 grid.
// ---------------------------------------------------------------------------

/// One symmetry element, by code: `0` identity, `1`..`3` rotations by
/// quarter turns, `4`..`7` the four reflections.  Codes outside `0..8` act
/// as the identity, so every operation below is total.
#[derive(Clone, Copy, PartialEq, Eq, Structural, Debug)]
pub struct NineSym {
    pub code: u8,
}

/// Where cell `j` of a 3×3 grid lands under element `c`.
pub open spec fn sym_cell(c: u8, j: u8) -> u8 {
    match c {
        0u8 => j,
        1u8 => match j {
            0u8 => 6, 1u8 => 3, 2u8 => 0,
            3u8 => 7, 4u8 => 4, 5u8 => 1,
            6u8 => 8, 7u8 => 5, 8u8 => 2,
            _ => j,
        },
        2u8 => match j {
            0u8 => 8, 1u8 => 7, 2u8 => 6,
            3u8 => 5, 4u8 => 4, 5u8 => 3,
            6u8 => 2, 7u8 => 1, 8u8 => 0,
            _ => j,
        },
        3u8 => match j {
            0u8 => 2, 1u8 => 5, 2u8 => 8,
            3u8 => 1, 4u8 => 4, 5u8 => 7,
            6u8 => 0, 7u8 => 3, 8u8 => 6,
            _ => j,
        },
        4u8 => match j {
            0u8 => 2, 1u8 => 1, 2u8 => 0,
            3u8 => 5, 4u8 => 4, 5u8 => 3,
            6u8 => 8, 7u8 => 7, 8u8 => 6,
            _ => j,
        },
        5u8 => match j {
            0u8 => 8, 1u8 => 5, 2u8 => 2,
            3u8 => 7, 4u8 => 4, 5u8 => 1,
            6u8 => 6, 7u8 => 3, 8u8 => 0,
            _ => j,
        },
        6u8 => match j {
            0u8 => 6, 1u8 => 7, 2u8 => 8,
            3u8 => 3, 4u8 => 4, 5u8 => 5,
            6u8 => 0, 7u8 => 1, 8u8 => 2,
            _ => j,
        },
        7u8 => match j {
            0u8 => 0, 1u8 => 3, 2u8 => 6,
            3u8 => 1, 4u8 => 4, 5u8 => 7,
            6u8 => 2, 7u8 => 5, 8u8 => 8,
            _ => j,
        },
        _ => j,
    }
}

/// The code of the inverse element: the quarter turns swap, everything else
/// is an involution.
pub open spec fn inv_code(c: u8) -> u8 {
    match c {
        1u8 => 3,
        3u8 => 1,
        _ => c,
    }
}

/// The action keeps cells on the grid.
pub proof fn lemma_sym_cell_bound(c: u8, j: u8)
    requires
        j < 9,
    ensures
        sym_cell(c, j) < 9,
{
}

/// Applying an element and then its inverse restores every cell, and the
/// other way round as well.
pub proof fn lemma_sym_cell_round_trip(c: u8, j: u8)
    requires
        j < 9,
    ensures
        sym_cell(inv_code(c), sym_cell(c, j)) == j,
        sym_cell(c, sym_cell(inv_code(c), j)) == j,
{
}

/// Where a whole-board cell index `0..81` lands under element `c`: the
/// sub-board index and the cell within the sub-board transform alike.
pub open spec fn sym_coord(c: u8, o: u8) -> u8 {
    if o < 81 {
        (sym_cell(c, o / 9) * 9 + sym_cell(c, o % 9)) as u8
    } else {
        o
    }
}

/// The whole-board action keeps indices in range.
pub proof fn lemma_sym_coord_bound(c: u8, o: u8)
    requires
        o < 81,
    ensures
        sym_coord(c, o) < 81,
{
    lemma_sym_cell_bound(c, o / 9);
    lemma_sym_cell_bound(c, o % 9);
}

/// Splitting a combined index into sub-board and cell.
pub proof fn lemma_coord_split(m: u8, k: u8)
    requires
        m < 9,
        k < 9,
    ensures
        (m * 9 + k) / 9 == m,
        (m * 9 + k) % 9 == k,
        m * 9 + k < 81,
{
    vstd::arithmetic::div_mod::lemma_fundamental_div_mod_converse(
        m * 9 + k,
        9,
        m as int,
        k as int,
    );
}

/// The whole-board round trip.
pub proof fn lemma_sym_coord_round_trip(c: u8, o: u8)
    requires
        o < 81,
    ensures
        sym_coord(inv_code(c), sym_coord(c, o)) == o,
        sym_coord(c, sym_coord(inv_code(c), o)) == o,
{
    let om = o / 9;
    let os = o % 9;
    assert(om < 9 && os < 9 && o == om * 9 + os) by {
        vstd::arithmetic::div_mod::lemma_fundamental_div_mod(o as int, 9);
    }
    lemma_sym_cell_bound(c, om);
    lemma_sym_cell_bound(c, os);
    lemma_sym_cell_bound(inv_code(c), om);
    lemma_sym_cell_bound(inv_code(c), os);
    lemma_coord_split(sym_cell(c, om), sym_cell(c, os));
    lemma_coord_split(sym_cell(inv_code(c), om), sym_cell(inv_code(c), os));
    lemma_sym_cell_round_trip(c, om);
    lemma_sym_cell_round_trip(c, os);
}

impl GroupSymmetry for NineSym {
    open spec fn spec_all() -> Seq<NineSym> {
        Seq::new(8, |i: int| NineSym { code: i as u8 })
    }

    open spec fn spec_identity() -> NineSym {
        NineSym { code: 0 }
    }

    open spec fn spec_inverse(self) -> NineSym {
        NineSym { code: inv_code(self.code) }
    }

    fn all() -> (r: Vec<NineSym>)
        ensures
            r@ == Self::spec_all(),
    {
        let mut r: Vec<NineSym> = Vec::new();
        let mut c: u8 = 0;
        while c < 8
            invariant
                0 <= c <= 8,
                r@.len() == c as int,
                forall|i: int| 0 <= i < c ==> r@[i] == (NineSym { code: i as u8 }),
            decreases 8 - c,
        {
            r.push(NineSym { code: c });
            c += 1;
        }
        proof {
            assert(r@ =~= Self::spec_all());
        }
        r
    }

    fn identity() -> (r: NineSym) {
        NineSym { code: 0 }
    }

    fn inverse(self) -> (r: NineSym) {
        if self.code == 1 {
            NineSym { code: 3 }
        } else if self.code == 3 {
            NineSym { code: 1 }
        } else {
            NineSym { code: self.code }
        }
    }

    fn sym_eq(a: NineSym, b: NineSym) -> (r: bool) {
        a.code == b.code
    }
}

// ---------------------------------------------------------------------------
// The board model and the rules on it.
// ---------------------------------------------------------------------------

/// The mathematical model of a nine-board position.
///
/// `grid` has 81 cells (`0` empty, `1` player A, `2` player B); `macros` has
/// one entry per sub-board (`0` open, `1`/`2` won, `3` full without a
/// winner); `forced` is the sub-board the next move must land in, or `9` for
/// a free choice; `player` (`1`/`2`) is to move; `result` is `0` while
/// undecided, `1`/`2` for a win, `3` for a draw.
#[verifier::ext_equal]
pub struct NineView {
    pub grid: Seq<u8>,
    pub macros: Seq<u8>,
    pub forced: u8,
    pub player: u8,
    pub result: u8,
}

/// Well-formedness of a model: field ranges, a forced sub-board is open, an
/// open sub-board has an empty cell, and an undecided game has an open
/// sub-board.
pub open spec fn wf_nine(v: NineView) -> bool {
    &&& v.grid.len() == 81
    &&& v.macros.len() == 9
    &&& forall|j: int| 0 <= j < 81 ==> v.grid[j] < 3
    &&& forall|m: int| 0 <= m < 9 ==> v.macros[m] < 4
    &&& (v.player == 1 || v.player == 2)
    &&& v.result < 4
    &&& v.forced <= 9
    &&& (v.forced < 9 ==> v.macros[v.forced as int] == 0)
    &&& forall|m: int|
        0 <= m < 9 && #[trigger] v.macros[m] == 0 ==> exists|k: int|
            0 <= k < 9 && #[trigger] v.grid[m * 9 + k] == 0
    &&& (v.result == 0 ==> exists|m: int| 0 <= m < 9 && v.macros[m] == 0)
}

/// Whether move `o` is currently legal on `v`.
pub open spec fn nine_avail(v: NineView, o: u8) -> bool {
    &&& o < 81
    &&& v.grid[o as int] == 0
    &&& v.macros[(o / 9) as int] == 0
    &&& (v.forced == 9 || o / 9 == v.forced)
}

/// Whether `p` holds a completed line in sub-board `om` of `g`.
pub open spec fn sub_line_win(g: Seq<u8>, om: int, p: u8) -> bool {
    let b = om * 9;
    ||| (g[b + 0] == p && g[b + 1] == p && g[b + 2] == p)
    ||| (g[b + 3] == p && g[b + 4] == p && g[b + 5] == p)
    ||| (g[b + 6] == p && g[b + 7] == p && g[b + 8] == p)
    ||| (g[b + 0] == p && g[b + 3] == p && g[b + 6] == p)
    ||| (g[b + 1] == p && g[b + 4] == p && g[b + 7] == p)
    ||| (g[b + 2] == p && g[b + 5] == p && g[b + 8] == p)
    ||| (g[b + 0] == p && g[b + 4] == p && g[b + 8] == p)
    ||| (g[b + 2] == p && g[b + 4] == p && g[b + 6] == p)
}

/// Whether `p` holds a completed line of sub-boards on the macro grid `ms`.
pub open spec fn macro_line_win(ms: Seq<u8>, p: u8) -> bool {
    ||| (ms[0] == p && ms[1] == p && ms[2] == p)
    ||| (ms[3] == p && ms[4] == p && ms[5] == p)
    ||| (ms[6] == p && ms[7] == p && ms[8] == p)
    ||| (ms[0] == p && ms[3] == p && ms[6] == p)
    ||| (ms[1] == p && ms[4] == p && ms[7] == p)
    ||| (ms[2] == p && ms[5] == p && ms[8] == p)
    ||| (ms[0] == p && ms[4] == p && ms[8] == p)
    ||| (ms[2] == p && ms[4] == p && ms[6] == p)
}

/// Whether sub-board `om` of `g` has no empty cell left.
pub open spec fn sub_full(g: Seq<u8>, om: int) -> bool {
    forall|k: int| 0 <= k < 9 ==> #[trigger] g[om * 9 + k] != 0
}

/// Whether every sub-board of `ms` is closed.
pub open spec fn all_closed(ms: Seq<u8>) -> bool {
    forall|m: int| 0 <= m < 9 ==> ms[m] != 0
}

/// The model after playing the legal move `o` on `v`: place the mark,
/// re-derive the state of the touched sub-board and of the whole game, and
/// force the opponent to sub-board `o % 9` when that one is still open.
pub open spec fn step_nine(v: NineView, o: u8) -> NineView {
    let p = v.player;
    let om = (o / 9) as int;
    let os = o % 9;
    let g1 = v.grid.update(o as int, p);
    let mnew: u8 = if sub_line_win(g1, om, p) {
        p
    } else if sub_full(g1, om) {
        3
    } else {
        0
    };
    let ms1 = v.macros.update(om, mnew);
    let result1: u8 = if macro_line_win(ms1, p) {
        p
    } else if all_closed(ms1) {
        3
    } else {
        0
    };
    let forced1: u8 = if ms1[os as int] == 0 {
        os
    } else {
        9
    };
    NineView {
        grid: g1,
        macros: ms1,
        forced: forced1,
        player: (3 - p) as u8,
        result: result1,
    }
}

/// The outcome a result code stands for.
pub open spec fn u8_outcome(r: u8) -> Outcome {
    if r == 0 {
        Outcome::Undecided
    } else if r == 1 {
        Outcome::WonA
    } else if r == 2 {
        Outcome::WonB
    } else {
        Outcome::Draw
    }
}

/// The player a player code stands for.
pub open spec fn u8_player(p: u8) -> Player {
    if p == 1 {
        Player::A
    } else {
        Player::B
    }
}

/// The image of a model under element `c`: every layer of the position is
/// permuted by the same cell action; outcome and turn are untouched.
pub open spec fn map_nine(v: NineView, c: u8) -> NineView {
    let ic = inv_code(c);
    NineView {
        grid: Seq::new(81, |j: int| v.grid[sym_coord(ic, j as u8) as int]),
        macros: Seq::new(9, |m: int| v.macros[sym_cell(ic, m as u8) as int]),
        forced: if v.forced < 9 {
            sym_cell(c, v.forced)
        } else {
            9
        },
        player: v.player,
        result: v.result,
    }
}

/// Mapping preserves well-formedness.
pub proof fn lemma_map_nine_wf(v: NineView, c: u8)
    requires
        wf_nine(v),
    ensures
        wf_nine(map_nine(v, c)),
{
    let ic = inv_code(c);
    let w = map_nine(v, c);
    assert forall|j: int| 0 <= j < 81 implies w.grid[j] < 3 by {
        lemma_sym_coord_bound(ic, j as u8);
    }
    assert forall|m: int| 0 <= m < 9 implies w.macros[m] < 4 by {
        lemma_sym_cell_bound(ic, m as u8);
    }
    if v.forced < 9 {
        lemma_sym_cell_bound(c, v.forced);
        lemma_sym_cell_round_trip(c, v.forced);
        lemma_coord_split(sym_cell(c, v.forced), 0);
        assert(w.macros[sym_cell(c, v.forced) as int] == v.macros[v.forced as int]);
    }
    assert forall|m: int| 0 <= m < 9 && w.macros[m] == 0 implies exists|k: int|
        0 <= k < 9 && #[trigger] w.grid[m * 9 + k] == 0 by {
        lemma_sym_cell_bound(ic, m as u8);
        let sm = sym_cell(ic, m as u8) as int;
        assert(v.macros[sm] == 0);
        let k0 = choose|k: int| 0 <= k < 9 && #[trigger] v.grid[sm * 9 + k] == 0;
        let kk = sym_cell(c, k0 as u8);
        lemma_sym_cell_bound(c, k0 as u8);
        lemma_coord_split(m as u8, kk);
        lemma_sym_cell_round_trip(c, k0 as u8);
        assert(inv_code(c) == ic);
        assert(sym_coord(ic, (m * 9 + kk) as u8) == sym_cell(ic, m as u8) * 9 + sym_cell(
            ic,
            kk,
        ));
        assert(sym_cell(ic, kk) == k0);
        assert(w.grid[m * 9 + kk] == v.grid[sm * 9 + k0]);
        assert(0 <= kk < 9 && w.grid[m * 9 + kk as int] == 0);
    }
    if v.result == 0 {
        let m0 = choose|m: int| 0 <= m < 9 && v.macros[m] == 0;
        let mm = sym_cell(c, m0 as u8);
        lemma_sym_cell_bound(c, m0 as u8);
        lemma_sym_cell_round_trip(c, m0 as u8);
        assert(w.macros[mm as int] == v.macros[m0]);
        assert(0 <= mm < 9 && w.macros[mm as int] == 0);
    }
}

/// Mapping by an element and then by its inverse restores the model; the
/// identity element maps a model to itself.
pub proof fn lemma_map_nine_round_trip(v: NineView, c: u8)
    requires
        wf_nine(v),
    ensures
        map_nine(map_nine(v, c), inv_code(c)) =~= v,
        map_nine(v, 0) =~= v,
{
    let ic = inv_code(c);
    let w = map_nine(v, c);
    let u = map_nine(w, ic);
    assert(inv_code(ic) == c);
    assert forall|j: int| 0 <= j < 81 implies u.grid[j] == v.grid[j] by {
        lemma_sym_coord_bound(c, j as u8);
        lemma_sym_coord_round_trip(c, j as u8);
        assert(u.grid[j] == w.grid[sym_coord(c, j as u8) as int]);
    }
    assert forall|m: int| 0 <= m < 9 implies u.macros[m] == v.macros[m] by {
        lemma_sym_cell_bound(c, m as u8);
        lemma_sym_cell_round_trip(c, m as u8);
    }
    if v.forced < 9 {
        lemma_sym_cell_bound(c, v.forced);
        lemma_sym_cell_round_trip(c, v.forced);
    }
    assert(u.grid =~= v.grid);
    assert(u.macros =~= v.macros);
    assert(u.forced == v.forced);
    let idv = map_nine(v, 0);
    assert forall|j: int| 0 <= j < 81 implies idv.grid[j] == v.grid[j] by {
        assert(sym_coord(0, j as u8) == j as u8);
    }
    assert(idv.grid =~= v.grid);
    assert(idv.macros =~= v.macros);
}

/// A move is legal on the image of a board exactly when the move it came
/// from is legal on the original.
pub proof fn lemma_map_nine_avail(v: NineView, c: u8, o: u8)
    requires
        wf_nine(v),
        o < 81,
    ensures
        nine_avail(map_nine(v, c), sym_coord(c, o)) == nine_avail(v, o),
{
    let ic = inv_code(c);
    let w = map_nine(v, c);
    let oo = sym_coord(c, o);
    let om = o / 9;
    let os = o % 9;
    assert(om < 9 && os < 9 && o == om * 9 + os) by {
        vstd::arithmetic::div_mod::lemma_fundamental_div_mod(o as int, 9);
    }
    lemma_sym_cell_bound(c, om);
    lemma_sym_cell_bound(c, os);
    lemma_coord_split(sym_cell(c, om), sym_cell(c, os));
    assert(oo == sym_cell(c, om) * 9 + sym_cell(c, os));
    assert(oo / 9 == sym_cell(c, om));
    lemma_sym_coord_bound(c, o);
    lemma_sym_coord_round_trip(c, o);
    assert(w.grid[oo as int] == v.grid[sym_coord(ic, oo) as int]);
    assert(sym_coord(ic, oo) == o);
    lemma_sym_cell_round_trip(c, om);
    assert(w.macros[(oo / 9) as int] == v.macros[sym_cell(ic, sym_cell(c, om)) as int]);
    if v.forced < 9 {
        lemma_sym_cell_bound(c, v.forced);
        if om == v.forced {
            assert(oo / 9 == w.forced);
        }
        if oo / 9 == w.forced {
            lemma_sym_cell_round_trip(c, om);
            lemma_sym_cell_round_trip(c, v.forced);
            assert(om == v.forced);
        }
    }
}

} // verus!

verus! {

// ---------------------------------------------------------------------------
// Executable helpers.
// ---------------------------------------------------------------------------

/// The static move space: every cell index `0..81`.
pub open spec fn spec_all_nine() -> Seq<u8> {
    Seq::new(81, |i: int| i as u8)
}

/// The availability predicate of a position, as a named function value.
pub open spec fn nine_pred(v: NineView) -> spec_fn(u8) -> bool {
    |m: u8| nine_avail(v, m)
}

/// The legal moves of a position, in the static move space's order.
pub open spec fn nine_avail_seq(v: NineView) -> Seq<u8> {
    spec_all_nine().filter(nine_pred(v))
}

fn copy_vec(v: &Vec<u8>) -> (r: Vec<u8>)
    ensures
        r@ == v@,
{
    let mut r: Vec<u8> = Vec::new();
    let mut i: usize = 0;
    while i < v.len()
        invariant
            0 <= i <= v@.len(),
            r@ == v@.take(i as int),
        decreases v@.len() - i,
    {
        r.push(v[i]);
        proof {
            assert(r@ =~= v@.take(i + 1));
        }
        i += 1;
    }
    proof {
        assert(v@.take(v@.len() as int) =~= v@);
    }
    r
}

fn vec_eq_u8(a: &Vec<u8>, b: &Vec<u8>) -> (r: bool)
    ensures
        r == (a@ == b@),
{
    if a.len() != b.len() {
        assert(a@ != b@);
        return false;
    }
    let mut i: usize = 0;
    while i < a.len()
        invariant
            0 <= i <= a@.len() == b@.len(),
            forall|j: int| 0 <= j < i ==> a@[j] == b@[j],
        decreases a@.len() - i,
    {
        if a[i] != b[i] {
            assert(a@ != b@);
            return false;
        }
        i += 1;
    }
    proof {
        assert(a@ =~= b@);
    }
    true
}

/// Executable form of [`sym_cell`].
fn sym_cell_e(c: u8, j: u8) -> (r: u8)
    ensures
        r == sym_cell(c, j),
{
    if c == 0 || c >= 8 || j >= 9 {
        j
    } else {
        match c {
            1 => match j { 0 => 6, 1 => 3, 2 => 0, 3 => 7, 4 => 4, 5 => 1, 6 => 8, 7 => 5, _ => 2 },
            2 => match j { 0 => 8, 1 => 7, 2 => 6, 3 => 5, 4 => 4, 5 => 3, 6 => 2, 7 => 1, _ => 0 },
            3 => match j { 0 => 2, 1 => 5, 2 => 8, 3 => 1, 4 => 4, 5 => 7, 6 => 0, 7 => 3, _ => 6 },
            4 => match j { 0 => 2, 1 => 1, 2 => 0, 3 => 5, 4 => 4, 5 => 3, 6 => 8, 7 => 7, _ => 6 },
            5 => match j { 0 => 8, 1 => 5, 2 => 2, 3 => 7, 4 => 4, 5 => 1, 6 => 6, 7 => 3, _ => 0 },
            6 => match j { 0 => 6, 1 => 7, 2 => 8, 3 => 3, 4 => 4, 5 => 5, 6 => 0, 7 => 1, _ => 2 },
            _ => match j { 0 => 0, 1 => 3, 2 => 6, 3 => 1, 4 => 4, 5 => 7, 6 => 2, 7 => 5, _ => 8 },
        }
    }
}

/// Executable form of [`sym_coord`].
fn sym_coord_e(c: u8, o: u8) -> (r: u8)
    ensures
        r == sym_coord(c, o),
{
    if o < 81 {
        let a = sym_cell_e(c, o / 9);
        let b = sym_cell_e(c, o % 9);
        proof {
            lemma_sym_cell_bound(c, o / 9);
            lemma_sym_cell_bound(c, o % 9);
        }
        a * 9 + b
    } else {
        o
    }
}

fn sub_won_e(g: &Vec<u8>, om: u8, p: u8) -> (r: bool)
    requires
        g@.len() == 81,
        om < 9,
    ensures
        r == sub_line_win(g@, om as int, p),
{
    let b = (om as usize) * 9;
    (g[b] == p && g[b + 1] == p && g[b + 2] == p) || (g[b + 3] == p && g[b + 4] == p && g[b + 5]
        == p) || (g[b + 6] == p && g[b + 7] == p && g[b + 8] == p) || (g[b] == p && g[b + 3] == p
        && g[b + 6] == p) || (g[b + 1] == p && g[b + 4] == p && g[b + 7] == p) || (g[b + 2] == p
        && g[b + 5] == p && g[b + 8] == p) || (g[b] == p && g[b + 4] == p && g[b + 8] == p) || (g[b
        + 2] == p && g[b + 4] == p && g[b + 6] == p)
}

fn sub_full_e(g: &Vec<u8>, om: u8) -> (r: bool)
    requires
        g@.len() == 81,
        om < 9,
    ensures
        r == sub_full(g@, om as int),
{
    let b = (om as usize) * 9;
    let mut k: usize = 0;
    while k < 9
        invariant
            0 <= k <= 9,
            om < 9,
            b == om as int * 9,
            g@.len() == 81,
            forall|x: int| 0 <= x < k ==> #[trigger] g@[om as int * 9 + x] != 0,
        decreases 9 - k,
    {
        if g[b + k] == 0 {
            return false;
        }
        k += 1;
    }
    true
}

fn macro_win_e(ms: &Vec<u8>, p: u8) -> (r: bool)
    requires
        ms@.len() == 9,
    ensures
        r == macro_line_win(ms@, p),
{
    (ms[0] == p && ms[1] == p && ms[2] == p) || (ms[3] == p && ms[4] == p && ms[5] == p) || (ms[6]
        == p && ms[7] == p && ms[8] == p) || (ms[0] == p && ms[3] == p && ms[6] == p) || (ms[1] == p
        && ms[4] == p && ms[7] == p) || (ms[2] == p && ms[5] == p && ms[8] == p) || (ms[0] == p
        && ms[4] == p && ms[8] == p) || (ms[2] == p && ms[4] == p && ms[6] == p)
}

fn all_closed_e(ms: &Vec<u8>) -> (r: bool)
    requires
        ms@.len() == 9,
    ensures
        r == all_closed(ms@),
{
    let mut m: usize = 0;
    while m < 9
        invariant
            0 <= m <= 9,
            ms@.len() == 9,
            forall|x: int| 0 <= x < m ==> ms@[x] != 0,
        decreases 9 - m,
    {
        if ms[m] == 0 {
            return false;
        }
        m += 1;
    }
    true
}

// ---------------------------------------------------------------------------
// The executable board.
// ---------------------------------------------------------------------------

/// A nine-board tic-tac-toe position.
#[derive(Clone)]
pub struct NineBoard {
    grid: Vec<u8>,
    macros: Vec<u8>,
    forced: u8,
    player: u8,
    result: u8,
}

impl View for NineBoard {
    type V = NineView;

    closed spec fn view(&self) -> NineView {
        NineView {
            grid: self.grid@,
            macros: self.macros@,
            forced: self.forced,
            player: self.player,
            result: self.result,
        }
    }
}

/// The model of the opening position: an empty grid, player A to move,
/// forced into sub-board `0`.
pub open spec fn empty_nine() -> NineView {
    NineView {
        grid: Seq::new(81, |i: int| 0u8),
        macros: Seq::new(9, |i: int| 0u8),
        forced: 0,
        player: 1,
        result: 0,
    }
}

impl NineBoard {
    /// The opening position.
    pub fn new() -> (r: NineBoard)
        ensures
            r@ == empty_nine(),
            wf_nine(r@),
    {
        let mut grid: Vec<u8> = Vec::new();
        let mut i: usize = 0;
        while i < 81
            invariant
                0 <= i <= 81,
                grid@.len() == i,
                forall|j: int| 0 <= j < i ==> grid@[j] == 0u8,
            decreases 81 - i,
        {
            grid.push(0);
            i += 1;
        }
        let mut macros: Vec<u8> = Vec::new();
        let mut m: usize = 0;
        while m < 9
            invariant
                0 <= m <= 9,
                macros@.len() == m,
                forall|j: int| 0 <= j < m ==> macros@[j] == 0u8,
            decreases 9 - m,
        {
            macros.push(0);
            m += 1;
        }
        let r = NineBoard { grid, macros, forced: 0, player: 1, result: 0 };
        proof {
            assert(r@.grid =~= empty_nine().grid);
            assert(r@.macros =~= empty_nine().macros);
            assert(r@ =~= empty_nine());
            assert forall|mm: int| 0 <= mm < 9 && #[trigger] r@.macros[mm] == 0 implies exists|
                k: int,
            | 0 <= k < 9 && #[trigger] r@.grid[mm * 9 + k] == 0 by {
                assert(0 <= mm * 9 < 81);
                assert(r@.grid[mm * 9 + 0] == 0);
            }
            assert(r@.macros[0] == 0);
            assert(exists|m: int| 0 <= m < 9 && r@.macros[m] == 0);
        }
        r
    }
}

/// The index of the legal move that the generator state `st` selects on a
/// non-done position `v`: the next output word, reduced by the number of
/// legal moves.
pub open spec fn drawn_index(v: NineView, st: u64) -> int
    recommends
        nine_avail_seq(v).len() > 0,
{
    (crate::rng::spec_output(crate::rng::spec_next_state(st)) % (nine_avail_seq(v).len() as u64))
        as int
}

impl NineBoard {
    /// Draws one legal move, or fails with `BoardDone` on a decided board.
    /// The draw is reproducible: the move is exactly the legal-move-list
    /// entry that [`drawn_index`] selects from the position and the
    /// generator state, so equal positions and equal states always yield the
    /// same move.
    pub fn draw_available_move(&self, rng: &mut Rng64) -> (r: Result<u8, BoardDone>)
        requires
            wf_nine(self@),
        ensures
            r is Err <==> self@.result != 0,
            self@.result != 0 ==> final(rng).state == old(rng).state,
            self@.result == 0 ==> final(rng).state == crate::rng::spec_next_state(
                old(rng).state,
            ),
            self@.result == 0 ==> r == Ok::<u8, BoardDone>(
                nine_avail_seq(self@)[drawn_index(self@, old(rng).state)],
            ),
    {
        if self.result != 0 {
            return Err(BoardDone);
        }
        match self.available_moves() {
            Err(d) => {
                proof {
                    assert(false);
                }
                Err(d)
            },
            Ok(ms) => {
                proof {
                    lemma_available_nonempty(self@);
                }
                let n = ms.len();
                let idx = rng.next_below(n as u64) as usize;
                Ok(ms[idx])
            },
        }
    }
}

/// A non-done well-formed position always has a legal move.
pub proof fn lemma_available_nonempty(v: NineView)
    requires
        wf_nine(v),
        v.result == 0,
    ensures
        nine_avail_seq(v).len() > 0,
{
    let m0: int = if v.forced < 9 {
        v.forced as int
    } else {
        choose|m: int| 0 <= m < 9 && v.macros[m] == 0
    };
    assert(0 <= m0 < 9 && v.macros[m0] == 0);
    let k0 = choose|k: int| 0 <= k < 9 && #[trigger] v.grid[m0 * 9 + k] == 0;
    let o: u8 = (m0 * 9 + k0) as u8;
    lemma_coord_split(m0 as u8, k0 as u8);
    assert(o < 81);
    assert(o / 9 == m0 as u8);
    assert(nine_avail(v, o));
    let all = spec_all_nine();
    let pred = nine_pred(v);
    assert(all[o as int] == o);
    assert(pred(o));
    all.lemma_filter_contains(pred, o as int);
    assert(all.filter(pred).contains(o));
}

impl Board for NineBoard {
    type Move = u8;

    type Sym = NineSym;

    open spec fn inv(v: NineView) -> bool {
        wf_nine(v)
    }

    open spec fn spec_all_moves() -> Seq<u8> {
        spec_all_nine()
    }

    open spec fn avail_pred_of(v: NineView) -> spec_fn(u8) -> bool {
        nine_pred(v)
    }

    open spec fn outcome_of(v: NineView) -> Outcome {
        u8_outcome(v.result)
    }

    open spec fn player_of(v: NineView) -> Player {
        u8_player(v.player)
    }

    open spec fn step(v: NineView, m: u8) -> NineView {
        step_nine(v, m)
    }

    open spec fn map_of(v: NineView, s: NineSym) -> NineView {
        map_nine(v, s.code)
    }

    open spec fn move_map_of(s: NineSym, m: u8) -> u8 {
        sym_coord(s.code, m)
    }

    open spec fn canon_of(v: NineView) -> NineView {
        canon_nine(v)
    }

    fn all_possible_moves() -> (r: Vec<u8>) {
        let mut r: Vec<u8> = Vec::new();
        let mut o: u8 = 0;
        while o < 81
            invariant
                0 <= o <= 81,
                r@.len() == o as int,
                forall|j: int| 0 <= j < o ==> r@[j] == j as u8,
            decreases 81 - o,
        {
            r.push(o);
            o += 1;
        }
        proof {
            assert(r@ =~= spec_all_nine());
        }
        r
    }

    fn available_moves(&self) -> (r: Result<Vec<u8>, BoardDone>) {
        if self.result != 0 {
            return Err(BoardDone);
        }
        let ghost all = spec_all_nine();
        let ghost pred = nine_pred(self@);
        let mut r: Vec<u8> = Vec::new();
        let mut o: u8 = 0;
        proof {
            assert(r@ =~= all.take(0).filter(pred));
        }
        while o < 81
            invariant
                0 <= o <= 81,
                self.result == 0,
                wf_nine(self@),
                all == spec_all_nine(),
                pred == nine_pred(self@),
                r@ == all.take(o as int).filter(pred),
            decreases 81 - o,
        {
            let om = o / 9;
            let keep = self.grid[o as usize] == 0 && self.macros[om as usize] == 0 && (self.forced
                == 9 || om == self.forced);
            proof {
                assert(keep == nine_avail(self@, o));
                assert(pred(o) == nine_avail(self@, o));
                crate::kernels::lemma_filter_push(all.take(o as int), pred, all[o as int]);
                assert(all.take(o as int + 1) =~= all.take(o as int).push(all[o as int]));
                assert(all[o as int] == o);
            }
            if keep {
                r.push(o);
            }
            o += 1;
        }
        proof {
            assert(all.take(81) =~= all);
        }
        Ok(r)
    }

    fn is_available_move(&self, m: u8) -> (r: Result<bool, BoardDone>) {
        if self.result != 0 {
            return Err(BoardDone);
        }
        if m < 81 {
            let om = m / 9;
            Ok(
                self.grid[m as usize] == 0 && self.macros[om as usize] == 0 && (self.forced == 9
                    || om == self.forced),
            )
        } else {
            Ok(false)
        }
    }

    fn random_available_move(&self, rng: &mut Rng64) -> (r: Result<u8, BoardDone>) {
        let r = self.draw_available_move(rng);
        proof {
            if self@.result == 0 {
                lemma_available_nonempty(self@);
                let pred = nine_pred(self@);
                spec_all_nine().lemma_filter_pred(pred, drawn_index(self@, old(rng).state));
            }
        }
        r
    }

    fn play(&mut self, m: u8) -> (r: Result<(), PlayError>) {
        if self.result != 0 {
            return Err(PlayError::BoardDone);
        }
        if m >= 81 {
            return Err(PlayError::UnavailableMove);
        }
        let om = m / 9;
        let os = m % 9;
        if !(self.grid[m as usize] == 0 && self.macros[om as usize] == 0 && (self.forced == 9 || om
            == self.forced)) {
            return Err(PlayError::UnavailableMove);
        }
        let ghost v0 = self@;
        let p = self.player;
        self.grid.set(m as usize, p);
        let mnew: u8 = if sub_won_e(&self.grid, om, p) {
            p
        } else if sub_full_e(&self.grid, om) {
            3
        } else {
            0
        };
        self.macros.set(om as usize, mnew);
        let result1: u8 = if macro_win_e(&self.macros, p) {
            p
        } else if all_closed_e(&self.macros) {
            3
        } else {
            0
        };
        self.result = result1;
        self.forced = if self.macros[os as usize] == 0 {
            os
        } else {
            9
        };
        self.player = 3 - p;
        proof {
            let w = step_nine(v0, m);
            assert(self@.grid =~= w.grid);
            assert(self@.macros =~= w.macros);
            assert(self@ =~= w);
            lemma_step_nine_wf(v0, m);
        }
        Ok(())
    }

    fn clone_and_play(&self, m: u8) -> (r: Result<NineBoard, PlayError>) {
        let mut b = NineBoard {
            grid: copy_vec(&self.grid),
            macros: copy_vec(&self.macros),
            forced: self.forced,
            player: self.player,
            result: self.result,
        };
        proof {
            assert(b@ =~= self@);
        }
        match b.play(m) {
            Ok(u) => Ok(b),
            Err(e) => Err(e),
        }
    }

    fn is_done(&self) -> (r: bool) {
        self.result != 0
    }

    fn outcome(&self) -> (r: Outcome) {
        if self.result == 0 {
            Outcome::Undecided
        } else if self.result == 1 {
            Outcome::WonA
        } else if self.result == 2 {
            Outcome::WonB
        } else {
            Outcome::Draw
        }
    }

    fn next_player(&self) -> (r: Player) {
        if self.player == 1 {
            Player::A
        } else {
            Player::B
        }
    }

    fn map(&self, s: NineSym) -> (r: NineBoard) {
        let c = s.code;
        let ic = if c == 1 {
            3
        } else if c == 3 {
            1
        } else {
            c
        };
        assert(ic == inv_code(c));
        let mut g2: Vec<u8> = Vec::new();
        let mut j: u8 = 0;
        while j < 81
            invariant
                0 <= j <= 81,
                ic == inv_code(c),
                wf_nine(self@),
                g2@.len() == j as int,
                forall|x: int|
                    0 <= x < j ==> #[trigger] g2@[x] == self@.grid[sym_coord(ic, x as u8) as int],
            decreases 81 - j,
        {
            let src = sym_coord_e(ic, j);
            proof {
                lemma_sym_coord_bound(ic, j);
            }
            g2.push(self.grid[src as usize]);
            j += 1;
        }
        let mut m2: Vec<u8> = Vec::new();
        let mut mm: u8 = 0;
        while mm < 9
            invariant
                0 <= mm <= 9,
                ic == inv_code(c),
                wf_nine(self@),
                m2@.len() == mm as int,
                forall|x: int|
                    0 <= x < mm ==> #[trigger] m2@[x] == self@.macros[sym_cell(ic, x as u8) as int],
            decreases 9 - mm,
        {
            let src = sym_cell_e(ic, mm);
            proof {
                lemma_sym_cell_bound(ic, mm);
            }
            m2.push(self.macros[src as usize]);
            mm += 1;
        }
        let f2: u8 = if self.forced < 9 {
            sym_cell_e(c, self.forced)
        } else {
            9
        };
        let r = NineBoard { grid: g2, macros: m2, forced: f2, player: self.player, result: self.result };
        proof {
            let w = map_nine(self@, c);
            assert(r@.grid =~= w.grid);
            assert(r@.macros =~= w.macros);
            assert(r@ =~= w);
            lemma_map_nine_wf(self@, c);
        }
        r
    }

    fn map_move(&self, s: NineSym, m: u8) -> (r: u8) {
        sym_coord_e(s.code, m)
    }

    fn canonicalize(&self) -> (r: NineBoard) {
        let mut best = self.map(NineSym { code: 0 });
        let mut c: u8 = 1;
        while c < 8
            invariant
                1 <= c <= 8,
                wf_nine(self@),
                wf_nine(best@),
                canon_from(self@, c, best@) == canon_nine(self@),
            decreases 8 - c,
        {
            let img = self.map(NineSym { code: c });
            let take_img = lt_board(&img, &best);
            proof {
                let picked = if seq_lt(flat_nine(img@), flat_nine(best@)) {
                    img@
                } else {
                    best@
                };
                assert(canon_from(self@, c, best@) == canon_from(self@, (c + 1) as u8, picked));
            }
            if take_img {
                best = img;
            }
            c += 1;
        }
        best
    }

    fn move_eq(a: u8, b: u8) -> (r: bool) {
        a == b
    }

    fn eq_board(&self, other: &NineBoard) -> (r: bool) {
        let ge = vec_eq_u8(&self.grid, &other.grid);
        let me = vec_eq_u8(&self.macros, &other.macros);
        let r = ge && me && self.forced == other.forced && self.player == other.player
            && self.result == other.result;
        proof {
            if r {
                assert(self@ =~= other@);
            }
            if self@ == other@ {
                assert(self@.grid == other@.grid);
                assert(self@.macros == other@.macros);
            }
        }
        r
    }
}

/// Playing a legal move on a well-formed position keeps it well-formed.
pub proof fn lemma_step_nine_wf(v: NineView, o: u8)
    requires
        wf_nine(v),
        v.result == 0,
        nine_avail(v, o),
    ensures
        wf_nine(step_nine(v, o)),
{
    let w = step_nine(v, o);
    let p = v.player;
    let om = (o / 9) as int;
    let os = o % 9;
    assert(o == om * 9 + os && 0 <= om < 9 && os < 9) by {
        vstd::arithmetic::div_mod::lemma_fundamental_div_mod(o as int, 9);
    }
    assert forall|mi: int| 0 <= mi < 9 && #[trigger] w.macros[mi] == 0 implies exists|k: int|
        0 <= k < 9 && #[trigger] w.grid[mi * 9 + k] == 0 by {
        if mi == om {
            assert(!sub_full(w.grid, om));
            let k0 = choose|k: int| 0 <= k < 9 && #[trigger] w.grid[om * 9 + k] == 0;
            assert(0 <= k0 < 9 && w.grid[mi * 9 + k0] == 0);
        } else {
            assert(v.macros[mi] == 0);
            let k0 = choose|k: int| 0 <= k < 9 && #[trigger] v.grid[mi * 9 + k] == 0;
            assert(mi * 9 + k0 != o as int);
            assert(w.grid[mi * 9 + k0] == v.grid[mi * 9 + k0]);
            assert(0 <= k0 < 9 && w.grid[mi * 9 + k0] == 0);
        }
    }
    if w.result == 0 {
        assert(!all_closed(w.macros));
    }
    if w.forced < 9 {
        assert(w.macros[w.forced as int] == 0);
    }
}

// ---------------------------------------------------------------------------
// Canonical forms.
// ---------------------------------------------------------------------------

/// A model flattened to one byte sequence, for lexicographic comparison.
pub open spec fn flat_nine(v: NineView) -> Seq<u8> {
    v.grid + v.macros + seq![v.forced, v.player, v.result]
}

/// Strict lexicographic order on byte sequences of equal length.
pub open spec fn seq_lt(a: Seq<u8>, b: Seq<u8>) -> bool {
    exists|i: int|
        0 <= i < a.len() && i < b.len() && (#[trigger] a[i]) < b[i] && (forall|j: int|
            0 <= j < i ==> a[j] == b[j])
}

/// The remaining fold of the canonical-form search: the best image seen so
/// far, refined by the images under the elements `c..8`.
pub open spec fn canon_from(v: NineView, c: u8, best: NineView) -> NineView
    decreases 8 - c,
{
    if c >= 8 {
        best
    } else {
        let img = map_nine(v, c);
        let next = if seq_lt(flat_nine(img), flat_nine(best)) {
            img
        } else {
            best
        };
        canon_from(v, (c + 1) as u8, next)
    }
}

/// The canonical representative of a model's symmetry class: the image with
/// the lexicographically least flattening.
pub open spec fn canon_nine(v: NineView) -> NineView {
    canon_from(v, 1, map_nine(v, 0))
}

fn flat_vec(b: &NineBoard) -> (r: Vec<u8>)
    requires
        b@.grid.len() == 81,
        b@.macros.len() == 9,
    ensures
        r@ == flat_nine(b@),
{
    let mut r = copy_vec(&b.grid);
    let mut i: usize = 0;
    while i < 9
        invariant
            0 <= i <= 9,
            b@.grid.len() == 81,
            b@.macros.len() == 9,
            r@ == b@.grid + b@.macros.take(i as int),
        decreases 9 - i,
    {
        r.push(b.macros[i]);
        proof {
            assert(b@.grid + b@.macros.take(i + 1) =~= (b@.grid + b@.macros.take(i as int)).push(
                b@.macros[i as int],
            ));
        }
        i += 1;
    }
    r.push(b.forced);
    r.push(b.player);
    r.push(b.result);
    proof {
        assert(b@.macros.take(9) =~= b@.macros);
        assert(r@ =~= flat_nine(b@));
    }
    r
}

fn lt_board(a: &NineBoard, b: &NineBoard) -> (r: bool)
    requires
        wf_nine(a@),
        wf_nine(b@),
    ensures
        r == seq_lt(flat_nine(a@), flat_nine(b@)),
{
    let fa = flat_vec(a);
    let fb = flat_vec(b);
    let mut i: usize = 0;
    while i < 93
        invariant
            0 <= i <= 93,
            fa@ == flat_nine(a@),
            fb@ == flat_nine(b@),
            fa@.len() == 93,
            fb@.len() == 93,
            forall|j: int| 0 <= j < i ==> fa@[j] == fb@[j],
        decreases 93 - i,
    {
        if fa[i] < fb[i] {
            proof {
                assert(seq_lt(fa@, fb@));
            }
            return true;
        }
        if fa[i] > fb[i] {
            proof {
                if seq_lt(fa@, fb@) {
                    let x = choose|x: int|
                        0 <= x < fa@.len() && x < fb@.len() && (#[trigger] fa@[x]) < fb@[x] && (
                        forall|j: int| 0 <= j < x ==> fa@[j] == fb@[j]);
                    if x < i {
                        assert(fa@[x] == fb@[x]);
                    } else if x == i {
                    } else {
                        assert(fa@[i as int] == fb@[i as int]);
                    }
                    assert(false);
                }
            }
            return false;
        }
        i += 1;
    }
    proof {
        if seq_lt(fa@, fb@) {
            let x = choose|x: int|
                0 <= x < fa@.len() && x < fb@.len() && (#[trigger] fa@[x]) < fb@[x] && (forall|
                    j: int,
                | 0 <= j < x ==> fa@[j] == fb@[j]);
            assert(fa@[x] == fb@[x]);
            assert(false);
        }
    }
    false
}

} // verus!

verus! {

// ---------------------------------------------------------------------------
// Textual descriptions: parsing and serializing positions.
// ---------------------------------------------------------------------------
//
// A description is 83 ASCII bytes: 81 cells (`.`, `x`, `o`), the player to
// move (`x` or `o`), and the forced sub-board (`0`..`8`, or `-` for a free
// choice).  Sub-board states and the game result are derived from the grid.

/// The cell value a description byte stands for (`3` when invalid).
pub open spec fn cell_code(ch: u8) -> u8 {
    if ch == 46 {
        0
    } else if ch == 120 {
        1
    } else if ch == 111 {
        2
    } else {
        3
    }
}

/// The description byte of a cell value.
pub open spec fn cell_char(c: u8) -> u8 {
    if c == 0 {
        46
    } else if c == 1 {
        120
    } else {
        111
    }
}

/// Whether a description is syntactically valid.
pub open spec fn desc_valid(d: Seq<u8>) -> bool {
    &&& d.len() == 83
    &&& forall|j: int| 0 <= j < 81 ==> cell_code(#[trigger] d[j]) < 3
    &&& (d[81] == 120 || d[81] == 111)
    &&& (d[82] == 45 || (48 <= d[82] <= 56))
}

/// The sub-board state derived from a grid.
pub open spec fn derived_macro(g: Seq<u8>, m: int) -> u8 {
    if sub_line_win(g, m, 1) {
        1
    } else if sub_line_win(g, m, 2) {
        2
    } else if sub_full(g, m) {
        3
    } else {
        0
    }
}

/// The game result derived from the sub-board states.
pub open spec fn derived_result(ms: Seq<u8>) -> u8 {
    if macro_line_win(ms, 1) {
        1
    } else if macro_line_win(ms, 2) {
        2
    } else if all_closed(ms) {
        3
    } else {
        0
    }
}

/// The model a description denotes, if any: the description must be
/// syntactically valid and must not force a closed sub-board.
pub open spec fn spec_parse(d: Seq<u8>) -> Option<NineView> {
    if !desc_valid(d) {
        None
    } else {
        let g = Seq::new(81, |j: int| cell_code(d[j]));
        let ms = Seq::new(9, |m: int| derived_macro(g, m));
        let f: u8 = if d[82] == 45 {
            9
        } else {
            (d[82] - 48) as u8
        };
        if f < 9 && ms[f as int] != 0 {
            None
        } else {
            Some(
                NineView {
                    grid: g,
                    macros: ms,
                    forced: f,
                    player: if d[81] == 120 {
                        1
                    } else {
                        2
                    },
                    result: derived_result(ms),
                },
            )
        }
    }
}

/// The description of a model.
pub open spec fn spec_ser(v: NineView) -> Seq<u8> {
    Seq::new(81, |j: int| cell_char(v.grid[j])).push(
        if v.player == 1 {
            120
        } else {
            111
        },
    ).push(
        if v.forced < 9 {
            (48 + v.forced) as u8
        } else {
            45
        },
    )
}

/// Law: serializing a parsed description reproduces it exactly.
pub proof fn lemma_parse_serialize_round_trip(d: Seq<u8>, v: NineView)
    requires
        spec_parse(d) == Some(v),
    ensures
        spec_ser(v) == d,
{
    let s = spec_ser(v);
    assert forall|j: int| 0 <= j < 81 implies s[j] == d[j] by {
        assert(cell_code(d[j]) < 3);
    }
    assert(s[81] == d[81]);
    assert(s[82] == d[82]);
    assert(s =~= d);
}

/// A parsed model is well-formed.
pub proof fn lemma_parse_wf(d: Seq<u8>, v: NineView)
    requires
        spec_parse(d) == Some(v),
    ensures
        wf_nine(v),
{
    assert forall|m: int| 0 <= m < 9 && #[trigger] v.macros[m] == 0 implies exists|k: int|
        0 <= k < 9 && #[trigger] v.grid[m * 9 + k] == 0 by {
        assert(!sub_full(v.grid, m));
        let k0 = choose|k: int| 0 <= k < 9 && #[trigger] v.grid[m * 9 + k] == 0;
        assert(0 <= k0 < 9 && v.grid[m * 9 + k0] == 0);
    }
    if v.result == 0 {
        assert(!all_closed(v.macros));
    }
}

impl NineBoard {
    /// Builds the position a description denotes, or nothing when the
    /// description is invalid.
    pub fn parse_desc(d: &Vec<u8>) -> (r: Option<NineBoard>)
        ensures
            r matches Some(b) ==> spec_parse(d@) == Some(b@) && wf_nine(b@),
            r is None ==> spec_parse(d@) is None,
    {
        if d.len() != 83 {
            return None;
        }
        let mut grid: Vec<u8> = Vec::new();
        let mut j: usize = 0;
        while j < 81
            invariant
                0 <= j <= 81,
                d@.len() == 83,
                grid@.len() == j,
                forall|x: int| 0 <= x < j ==> #[trigger] grid@[x] == cell_code(d@[x]) && grid@[x]
                    < 3,
            decreases 81 - j,
        {
            let ch = d[j];
            let c: u8 = if ch == 46 {
                0
            } else if ch == 120 {
                1
            } else if ch == 111 {
                2
            } else {
                proof {
                    assert(cell_code(d@[j as int]) == 3);
                    assert(!desc_valid(d@));
                }
                return None;
            };
            grid.push(c);
            j += 1;
        }
        let pch = d[81];
        let player: u8 = if pch == 120 {
            1
        } else if pch == 111 {
            2
        } else {
            proof {
                assert(!desc_valid(d@));
            }
            return None;
        };
        let fch = d[82];
        let forced: u8 = if fch == 45 {
            9
        } else if 48 <= fch && fch <= 56 {
            fch - 48
        } else {
            proof {
                assert(!desc_valid(d@));
            }
            return None;
        };
        proof {
            assert forall|x: int| 0 <= x < 81 implies cell_code(#[trigger] d@[x]) < 3 by {
                assert(grid@[x] == cell_code(d@[x]) && grid@[x] < 3);
            }
            assert(desc_valid(d@));
        }
        let mut macros: Vec<u8> = Vec::new();
        let mut m: usize = 0;
        while m < 9
            invariant
                0 <= m <= 9,
                grid@.len() == 81,
                macros@.len() == m,
                forall|x: int| 0 <= x < m ==> #[trigger] macros@[x] == derived_macro(grid@, x),
            decreases 9 - m,
        {
            let mv: u8 = if sub_won_e(&grid, m as u8, 1) {
                1
            } else if sub_won_e(&grid, m as u8, 2) {
                2
            } else if sub_full_e(&grid, m as u8) {
                3
            } else {
                0
            };
            macros.push(mv);
            m += 1;
        }
        let result: u8 = if macro_win_e(&macros, 1) {
            1
        } else if macro_win_e(&macros, 2) {
            2
        } else if all_closed_e(&macros) {
            3
        } else {
            0
        };
        let ghost g = Seq::new(81, |x: int| cell_code(d@[x]));
        let ghost ms = Seq::new(9, |x: int| derived_macro(g, x));
        proof {
            assert(grid@ =~= g);
            assert(macros@ =~= ms);
        }
        if forced < 9 {
            if macros[forced as usize] != 0 {
                return None;
            }
        }
        let b = NineBoard { grid, macros, forced, player, result };
        proof {
            let v = spec_parse(d@)->Some_0;
            assert(b@ =~= v);
            lemma_parse_wf(d@, b@);
        }
        Some(b)
    }

    /// The description of this position.
    pub fn serialize_desc(&self) -> (r: Vec<u8>)
        requires
            wf_nine(self@),
        ensures
            r@ == spec_ser(self@),
    {
        let mut r: Vec<u8> = Vec::new();
        let mut j: usize = 0;
        while j < 81
            invariant
                0 <= j <= 81,
                wf_nine(self@),
                r@.len() == j,
                forall|x: int| 0 <= x < j ==> #[trigger] r@[x] == cell_char(self@.grid[x]),
            decreases 81 - j,
        {
            let c = self.grid[j];
            let ch: u8 = if c == 0 {
                46
            } else if c == 1 {
                120
            } else {
                111
            };
            r.push(ch);
            j += 1;
        }
        r.push(if self.player == 1 {
            120
        } else {
            111
        });
        r.push(if self.forced < 9 {
            48 + self.forced
        } else {
            45
        });
        proof {
            assert(r@ =~= spec_ser(self@));
        }
        r
    }

    /// Runs one perft scenario: parses the description, checks that
    /// serializing the parsed position reproduces the description, and
    /// compares the node counts against the expected table.
    pub fn run_scenario(desc: &Vec<u8>, expected: &Vec<u64>) -> (r: bool)
        ensures
            r == (spec_parse(desc@) matches Some(v) && (forall|x: int|
                0 <= x < expected@.len() ==> crate::perft::spec_perft::<NineBoard>(v, x as nat)
                    == expected@[x])),
    {
        match NineBoard::parse_desc(desc) {
            None => false,
            Some(b) => {
                let ser = b.serialize_desc();
                let round = vec_eq_u8(&ser, desc);
                proof {
                    lemma_parse_serialize_round_trip(desc@, b@);
                    assert(round);
                }
                round && crate::perft::perft_check(&b, expected)
            },
        }
    }
}

// ---------------------------------------------------------------------------
// The symmetry laws of this game.
// ---------------------------------------------------------------------------

/// Law: on a well-formed, undecided position the legal-move list is
/// non-empty, duplicate-free, and holds exactly the members of the static
/// move space that the availability predicate admits.
pub proof fn lemma_nine_moves_law(v: NineView)
    requires
        wf_nine(v),
        v.result == 0,
    ensures
        nine_avail_seq(v).len() > 0,
        crate::kernels::dupfree(nine_avail_seq(v)),
        forall|m: u8|
            nine_avail_seq(v).contains(m) <==> (spec_all_nine().contains(m) && nine_avail(v, m)),
{
    lemma_available_nonempty(v);
    let all = spec_all_nine();
    let pred = nine_pred(v);
    assert(crate::kernels::dupfree(all));
    crate::kernels::lemma_filter_dupfree(all, pred);
    assert forall|m: u8| nine_avail_seq(v).contains(m) implies (all.contains(m) && nine_avail(
        v,
        m,
    )) by {
        crate::kernels::lemma_filter_subset(all, pred, m);
        let i = choose|i: int| 0 <= i < all.filter(pred).len() && all.filter(pred)[i] == m;
        all.lemma_filter_pred(pred, i);
    }
    assert forall|m: u8| all.contains(m) && nine_avail(v, m) implies nine_avail_seq(v).contains(
        m,
    ) by {
        let i = choose|i: int| 0 <= i < all.len() && all[i] == m;
        all.lemma_filter_contains(pred, i);
    }
}

/// Law: mapping a position by an element and then by its inverse restores
/// it, and the identity element maps every position to itself.
pub proof fn lemma_nine_symmetry_round_trip(v: NineView, s: NineSym)
    requires
        wf_nine(v),
    ensures
        map_nine(map_nine(v, s.code), s.spec_inverse().code) == v,
        map_nine(v, NineSym::spec_identity().code) == v,
{
    lemma_map_nine_round_trip(v, s.code);
}

/// Law: outcome and next player are invariant under every symmetry element.
pub proof fn lemma_nine_outcome_invariance(v: NineView, s: NineSym)
    ensures
        u8_outcome(map_nine(v, s.code).result) == u8_outcome(v.result),
        u8_player(map_nine(v, s.code).player) == u8_player(v.player),
{
}

/// Law: a move is legal on the image of a position exactly when the move it
/// is the image of is legal on the original position; with the round trip
/// this carries the whole available-move set across the mapping.
pub proof fn lemma_nine_move_transport(v: NineView, s: NineSym, o: u8)
    requires
        wf_nine(v),
        o < 81,
    ensures
        nine_avail(map_nine(v, s.code), sym_coord(s.code, o)) == nine_avail(v, o),
        sym_coord(s.spec_inverse().code, sym_coord(s.code, o)) == o,
{
    lemma_map_nine_avail(v, s.code, o);
    lemma_sym_coord_round_trip(s.code, o);
}

} // verus!

verus! {

/// The code of the element that acts like `s` followed by `t`.  Codes `0..4`
/// are the quarter-turn powers, `4 + a` is the reflection composed with the
/// `a`-th power; codes outside `0..8` act as the identity.
pub open spec fn comp_code(s: u8, t: u8) -> u8 {
    if s >= 8 {
        t
    } else if t >= 8 {
        s
    } else if s < 4 && t < 4 {
        ((s + t) % 4) as u8
    } else if s < 4 {
        (4 + ((s + (t - 4)) % 4)) as u8
    } else if t < 4 {
        (4 + ((s - 4 + 4 - t) % 4)) as u8
    } else {
        ((s - 4 + 4 - (t - 4)) % 4) as u8
    }
}

/// Acting by `s` and then by `t` is acting by their composition, cell by
/// cell.
#[verifier::rlimit(50)]
pub proof fn lemma_sym_cell_compose(s: u8, t: u8, j: u8)
    requires
        s < 8,
        t < 8,
        j < 9,
    ensures
        sym_cell(t, sym_cell(s, j)) == sym_cell(comp_code(s, t), j),
{
}

/// The composition table stays in the group, composition with the inverses
/// reverses order, and every element is reachable from any other by one
/// composition.
#[verifier::rlimit(50)]
pub proof fn lemma_comp_group(s: u8, t: u8)
    requires
        s < 8,
        t < 8,
    ensures
        comp_code(s, t) < 8,
        comp_code(inv_code(t), inv_code(s)) == inv_code(comp_code(s, t)),
        comp_code(inv_code(s), t) < 8,
        comp_code(s, comp_code(inv_code(s), t)) == t,
{
}

/// Acting by `s` and then by `t` is acting by their composition, on whole
/// move indices.
pub proof fn lemma_sym_coord_compose(s: u8, t: u8, o: u8)
    requires
        s < 8,
        t < 8,
        o < 81,
    ensures
        sym_coord(t, sym_coord(s, o)) == sym_coord(comp_code(s, t), o),
{
    let om = o / 9;
    let os = o % 9;
    assert(om < 9 && os < 9 && o == om * 9 + os) by {
        vstd::arithmetic::div_mod::lemma_fundamental_div_mod(o as int, 9);
    }
    lemma_sym_cell_bound(s, om);
    lemma_sym_cell_bound(s, os);
    lemma_coord_split(sym_cell(s, om), sym_cell(s, os));
    lemma_sym_cell_compose(s, t, om);
    lemma_sym_cell_compose(s, t, os);
    lemma_sym_cell_bound(comp_code(s, t), om);
    lemma_sym_cell_bound(comp_code(s, t), os);
    lemma_coord_split(sym_cell(comp_code(s, t), om), sym_cell(comp_code(s, t), os));
}

/// Mapping by `s` and then by `t` is mapping by their composition.
pub proof fn lemma_map_nine_compose(v: NineView, s: u8, t: u8)
    requires
        wf_nine(v),
        s < 8,
        t < 8,
    ensures
        map_nine(map_nine(v, s), t) =~= map_nine(v, comp_code(s, t)),
{
    let u = comp_code(s, t);
    let mid = map_nine(v, s);
    let lhs = map_nine(mid, t);
    let rhs = map_nine(v, u);
    lemma_comp_group(s, t);
    assert(inv_code(u) == comp_code(inv_code(t), inv_code(s)));
    assert forall|j: int| 0 <= j < 81 implies lhs.grid[j] == rhs.grid[j] by {
        lemma_sym_coord_bound(inv_code(t), j as u8);
        lemma_sym_coord_compose(inv_code(t), inv_code(s), j as u8);
    }
    assert forall|m: int| 0 <= m < 9 implies lhs.macros[m] == rhs.macros[m] by {
        lemma_sym_cell_bound(inv_code(t), m as u8);
        lemma_sym_cell_compose(inv_code(t), inv_code(s), m as u8);
    }
    if v.forced < 9 {
        lemma_sym_cell_bound(s, v.forced);
        lemma_sym_cell_compose(s, t, v.forced);
    }
    assert(lhs.grid =~= rhs.grid);
    assert(lhs.macros =~= rhs.macros);
    assert(lhs.forced == rhs.forced);
}

} // verus!

verus! {

/// A flattening has 93 bytes on a well-formed model.
pub proof fn lemma_flat_len(v: NineView)
    requires
        wf_nine(v),
    ensures
        flat_nine(v).len() == 93,
{
}

/// Two well-formed models with equal flattenings are equal.
proof fn lemma_flat_injective(a: NineView, b: NineView)
    requires
        wf_nine(a),
        wf_nine(b),
        flat_nine(a) =~= flat_nine(b),
    ensures
        a =~= b,
{
    let fa = flat_nine(a);
    let fb = flat_nine(b);
    assert forall|j: int| 0 <= j < 81 implies a.grid[j] == b.grid[j] by {
        assert(fa[j] == a.grid[j] && fb[j] == b.grid[j]);
    }
    assert forall|m: int| 0 <= m < 9 implies a.macros[m] == b.macros[m] by {
        assert(fa[81 + m] == a.macros[m] && fb[81 + m] == b.macros[m]);
    }
    assert(fa[90] == a.forced && fb[90] == b.forced);
    assert(fa[91] == a.player && fb[91] == b.player);
    assert(fa[92] == a.result && fb[92] == b.result);
    assert(a.grid =~= b.grid);
    assert(a.macros =~= b.macros);
}

proof fn lemma_seq_lt_trichotomy_from(a: Seq<u8>, b: Seq<u8>, j: int)
    requires
        a.len() == b.len(),
        0 <= j <= a.len(),
        forall|x: int| 0 <= x < j ==> a[x] == b[x],
    ensures
        seq_lt(a, b) || seq_lt(b, a) || a =~= b,
    decreases a.len() - j,
{
    if j == a.len() {
        assert(a =~= b);
    } else if a[j] == b[j] {
        lemma_seq_lt_trichotomy_from(a, b, j + 1);
    } else if a[j] < b[j] {
        assert(seq_lt(a, b));
    } else {
        assert(seq_lt(b, a));
    }
}

/// The lexicographic order is total on sequences of one length.
pub proof fn lemma_seq_lt_total(a: Seq<u8>, b: Seq<u8>)
    requires
        a.len() == b.len(),
    ensures
        seq_lt(a, b) || seq_lt(b, a) || a =~= b,
{
    lemma_seq_lt_trichotomy_from(a, b, 0);
}

/// The lexicographic order is irreflexive.
pub proof fn lemma_seq_lt_irrefl(a: Seq<u8>)
    ensures
        !seq_lt(a, a),
{
    if seq_lt(a, a) {
        let i = choose|i: int|
            0 <= i < a.len() && i < a.len() && (#[trigger] a[i]) < a[i] && (forall|j: int|
                0 <= j < i ==> a[j] == a[j]);
        assert(false);
    }
}

/// The lexicographic order is transitive.
pub proof fn lemma_seq_lt_trans(a: Seq<u8>, b: Seq<u8>, c: Seq<u8>)
    requires
        seq_lt(a, b),
        seq_lt(b, c),
    ensures
        seq_lt(a, c),
{
    let i = choose|i: int|
        0 <= i < a.len() && i < b.len() && (#[trigger] a[i]) < b[i] && (forall|j: int|
            0 <= j < i ==> a[j] == b[j]);
    let k = choose|k: int|
        0 <= k < b.len() && k < c.len() && (#[trigger] b[k]) < c[k] && (forall|j: int|
            0 <= j < k ==> b[j] == c[j]);
    if i < k {
        assert(b[i] == c[i]);
        assert(forall|j: int| 0 <= j < i ==> a[j] == b[j] && b[j] == c[j]);
        assert(seq_lt(a, c));
    } else if k < i {
        assert(a[k] == b[k]);
        assert(forall|j: int| 0 <= j < k ==> a[j] == b[j] && b[j] == c[j]);
        assert(seq_lt(a, c));
    } else {
        assert(a[i] < c[i]);
        assert(forall|j: int| 0 <= j < i ==> a[j] == b[j] && b[j] == c[j]);
        assert(seq_lt(a, c));
    }
}

/// The canonical-form fold returns a symmetry image whose flattening is
/// lexicographically least among the starting candidate and the images of
/// the remaining elements.
proof fn lemma_canon_from_min(v: NineView, c: u8, best: NineView)
    requires
        wf_nine(v),
        wf_nine(best),
        1 <= c <= 8,
        exists|x: u8| x < 8 && best == map_nine(v, x),
    ensures
        exists|x: u8| x < 8 && canon_from(v, c, best) == map_nine(v, x),
        wf_nine(canon_from(v, c, best)),
        !seq_lt(flat_nine(best), flat_nine(canon_from(v, c, best))),
        forall|x: u8|
            c <= x < 8 ==> !seq_lt(
                flat_nine(map_nine(v, x)),
                flat_nine(#[trigger] canon_from(v, c, best)),
            ),
    decreases 8 - c,
{
    let r = canon_from(v, c, best);
    if c == 8 {
        lemma_seq_lt_irrefl(flat_nine(best));
    } else {
        let img = map_nine(v, c);
        lemma_map_nine_wf(v, c);
        lemma_flat_len(v);
        lemma_flat_len(best);
        lemma_flat_len(img);
        let next = if seq_lt(flat_nine(img), flat_nine(best)) {
            img
        } else {
            best
        };
        assert(exists|x: u8| x < 8 && next == map_nine(v, x)) by {
            if seq_lt(flat_nine(img), flat_nine(best)) {
                assert(c < 8 && next == map_nine(v, c));
            }
        }
        lemma_canon_from_min(v, (c + 1) as u8, next);
        assert(r == canon_from(v, (c + 1) as u8, next));
        lemma_flat_len(r);
        let fb = flat_nine(best);
        let fi = flat_nine(img);
        let fr = flat_nine(r);
        if seq_lt(fi, fb) {
            // the new image took over: nothing beats `r` among img and best
            assert(!seq_lt(fi, fr));
            if seq_lt(fb, fr) {
                lemma_seq_lt_total(fi, fr);
                if fi =~= fr {
                    lemma_seq_lt_trans(fi, fb, fr);
                    lemma_seq_lt_irrefl(fr);
                } else {
                    lemma_seq_lt_trans(fr, fi, fb);
                    lemma_seq_lt_trans(fb, fr, fi);
                    lemma_seq_lt_irrefl(fi);
                }
            }
        } else {
            assert(!seq_lt(fb, fr));
            if seq_lt(fi, fr) {
                lemma_seq_lt_total(fi, fb);
                if fi =~= fb {
                    assert(seq_lt(fb, fr));
                } else {
                    assert(seq_lt(fb, fi));
                    lemma_seq_lt_trans(fb, fi, fr);
                }
            }
        }
    }
}

/// Law: the canonical form is invariant across all symmetry images of a
/// position.
pub proof fn lemma_nine_canon_invariance(v: NineView, s: NineSym)
    requires
        wf_nine(v),
        s.code < 8,
    ensures
        canon_nine(map_nine(v, s.code)) == canon_nine(v),
{
    let sc = s.code;
    let w = map_nine(v, sc);
    lemma_map_nine_wf(v, sc);
    lemma_map_nine_wf(v, 0);
    lemma_map_nine_wf(w, 0);
    let c1 = canon_nine(v);
    let c2 = canon_nine(w);
    lemma_canon_from_min(v, 1, map_nine(v, 0));
    lemma_canon_from_min(w, 1, map_nine(w, 0));
    // every image of `v` is at least `c1`
    assert forall|u: u8| u < 8 implies !seq_lt(flat_nine(map_nine(v, u)), flat_nine(c1)) by {
        if u == 0 {
        } else {
            assert(1 <= u < 8);
        }
    }
    // the images of `w` are exactly the images of `v`
    assert forall|t: u8| t < 8 implies map_nine(w, t) == map_nine(v, comp_code(sc, t)) by {
        lemma_map_nine_compose(v, sc, t);
    }
    // so every image of `v` is at least `c2` as well
    assert forall|u: u8| u < 8 implies !seq_lt(flat_nine(map_nine(v, u)), flat_nine(c2)) by {
        lemma_comp_group(sc, u);
        let t = comp_code(inv_code(sc), u);
        assert(t < 8 && comp_code(sc, t) == u);
        assert(map_nine(w, t) == map_nine(v, u));
        if t == 0 {
        } else {
            assert(1 <= t < 8);
        }
    }
    let u1 = choose|x: u8| x < 8 && c1 == map_nine(v, x);
    let t2 = choose|x: u8| x < 8 && c2 == map_nine(w, x);
    lemma_comp_group(sc, t2);
    assert(c2 == map_nine(v, comp_code(sc, t2)));
    assert(!seq_lt(flat_nine(c1), flat_nine(c2)));
    assert(!seq_lt(flat_nine(c2), flat_nine(c1)));
    lemma_flat_len(c1);
    lemma_flat_len(c2);
    lemma_seq_lt_total(flat_nine(c1), flat_nine(c2));
    lemma_flat_injective(c1, c2);
}

/// Law: canonicalizing is idempotent.
pub proof fn lemma_nine_canon_idempotent(v: NineView)
    requires
        wf_nine(v),
    ensures
        canon_nine(canon_nine(v)) == canon_nine(v),
{
    lemma_map_nine_wf(v, 0);
    lemma_canon_from_min(v, 1, map_nine(v, 0));
    let c1 = canon_nine(v);
    let u1 = choose|x: u8| x < 8 && c1 == map_nine(v, x);
    lemma_nine_canon_invariance(v, NineSym { code: u1 });
}

} // verus!

verus! {

/// Membership in the legal-move list of a well-formed position.
pub proof fn lemma_nine_avail_seq_membership(v: NineView, m: u8)
    requires
        wf_nine(v),
    ensures
        nine_avail_seq(v).contains(m) <==> nine_avail(v, m),
{
    let all = spec_all_nine();
    let pred = nine_pred(v);
    if nine_avail_seq(v).contains(m) {
        let i = choose|i: int| 0 <= i < all.filter(pred).len() && all.filter(pred)[i] == m;
        all.lemma_filter_pred(pred, i);
    }
    if nine_avail(v, m) {
        assert(all[m as int] == m);
        assert(all.contains(m));
        all.lemma_filter_contains(pred, m as int);
    }
}

/// Law: the legal moves of a position's image are exactly the images of the
/// position's legal moves.  Together with [`lemma_nine_move_transport`] the
/// move mapping is a bijection between the two duplicate-free lists.
pub proof fn lemma_nine_move_transport_set(v: NineView, s: NineSym)
    requires
        wf_nine(v),
    ensures
        forall|m: u8|
            nine_avail_seq(map_nine(v, s.code)).contains(m) <==> (exists|o: u8|
                nine_avail_seq(v).contains(o) && m == sym_coord(s.code, o)),
{
    let c = s.code;
    let w = map_nine(v, c);
    lemma_map_nine_wf(v, c);
    assert forall|m: u8| nine_avail_seq(w).contains(m) implies (exists|o: u8|
        nine_avail_seq(v).contains(o) && m == sym_coord(c, o)) by {
        lemma_nine_avail_seq_membership(w, m);
        let o = sym_coord(inv_code(c), m);
        lemma_sym_coord_bound(inv_code(c), m);
        lemma_sym_coord_round_trip(inv_code(c), m);
        assert(inv_code(inv_code(c)) == c);
        assert(sym_coord(c, o) == m);
        lemma_map_nine_avail(v, c, o);
        lemma_nine_avail_seq_membership(v, o);
        assert(nine_avail_seq(v).contains(o) && m == sym_coord(c, o));
    }
    assert forall|m: u8| (exists|o: u8| nine_avail_seq(v).contains(o) && m == sym_coord(c, o))
        implies nine_avail_seq(w).contains(m) by {
        let o = choose|o: u8| nine_avail_seq(v).contains(o) && m == sym_coord(c, o);
        lemma_nine_avail_seq_membership(v, o);
        lemma_map_nine_avail(v, c, o);
        lemma_nine_avail_seq_membership(w, m);
    }
}

} // verus!

verus! {

#[verifier::rlimit(50)]
proof fn lemma_nine_elem_ok(v: NineView, s: NineSym)
    requires
        wf_nine(v),
        s.code < 8,
    ensures
        crate::checks::sym_elem_ok::<NineBoard>(v, s),
{
    let c = s.code;
    let ic = inv_code(c);
    assert(NineSym::spec_all()[ic as int] == (NineSym { code: ic }));
    assert(s.spec_inverse() == (NineSym { code: ic }));
    assert(NineSym::spec_all().contains(s.spec_inverse()));
    lemma_map_nine_round_trip(v, c);
    assert(map_nine(map_nine(v, c), ic) == v);
    if s == NineSym::spec_identity() {
        assert(map_nine(v, 0) == v);
    }
    lemma_nine_canon_invariance(v, s);
    if u8_outcome(v.result) == Outcome::Undecided {
        let w = map_nine(v, c);
        lemma_map_nine_wf(v, c);
        let av = crate::board::avail_seq::<NineBoard>(v);
        let sel1 = crate::checks::mapped_moves::<NineBoard>(v, s);
        let sel2 = crate::board::avail_seq::<NineBoard>(w);
        assert(av == nine_avail_seq(v));
        assert(sel2 == nine_avail_seq(w));
        lemma_nine_move_transport_set(v, s);
        assert forall|m: u8| sel1.contains(m) == sel2.contains(m) by {
            if sel1.contains(m) {
                let i = choose|i: int| 0 <= i < sel1.len() && sel1[i] == m;
                assert(sel1[i] == sym_coord(c, av[i]));
                assert(av.contains(av[i]));
                assert(nine_avail_seq(v).contains(av[i]) && m == sym_coord(c, av[i]));
                assert(nine_avail_seq(w).contains(m));
            }
            if sel2.contains(m) {
                let o = choose|o: u8| nine_avail_seq(v).contains(o) && m == sym_coord(c, o);
                let j = choose|j: int| 0 <= j < av.len() && av[j] == o;
                assert(sel1[j] == sym_coord(c, av[j]));
                assert(sel1.contains(m));
            }
        }
        assert(crate::kernels::member_pred(sel1) =~= crate::kernels::member_pred(sel2));
        assert(crate::kernels::members_of(spec_all_nine(), sel1) == crate::kernels::members_of(
            spec_all_nine(),
            sel2,
        ));
    }
}

/// Law: the nine-board game satisfies the whole symmetry-law bundle that the
/// harness re-checks at run time, on every well-formed position.
pub proof fn lemma_nine_symmetry_laws(v: NineView)
    requires
        wf_nine(v),
    ensures
        crate::checks::symmetry_ok::<NineBoard>(v),
{
    assert(NineSym::spec_all()[0] == NineSym::spec_identity());
    assert(NineSym::spec_all().contains(NineSym::spec_identity()));
    assert forall|i: int| 0 <= i < NineSym::spec_all().len() implies crate::checks::sym_elem_ok::<
        NineBoard,
    >(v, #[trigger] NineSym::spec_all()[i]) by {
        let s = NineSym { code: i as u8 };
        assert(NineSym::spec_all()[i] == s);
        lemma_nine_elem_ok(v, s);
    }
}

} // verus!
