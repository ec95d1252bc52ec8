//! The board contract: the interface every concrete game must provide, plus
//! the shared player, outcome and error types.
//!
//! A game exposes its whole state through these operations alone.  The
//! contract is stated twice over: the spec functions describe the game's
//! mathematical model (over the board's view), and each executable method is
//! tied to that model by its `ensures`.  The law-like properties that the
//! contract does not force — non-empty move lists, group laws of the
//! symmetries, uniform random drawing, perft counts — are validated at run
//! time by the checkers in [`crate::checks`] and [`crate::perft`].

use vstd::prelude::*;

use crate::rng::Rng64;

verus! {

/// One of the two players of a perfect-information, turn-based game.
#[derive(Clone, Copy, PartialEq, Eq, Structural, Debug)]
pub enum Player {
    A,
    B,
}

impl Player {
    /// The player who moves after this one.
    pub fn other(self) -> (r: Player)
        ensures
            r == self.spec_other(),
    {
        match self {
            Player::A => Player::B,
            Player::B => Player::A,
        }
    }

    pub open spec fn spec_other(self) -> Player {
        match self {
            Player::A => Player::B,
            Player::B => Player::A,
        }
    }
}

/// The decided result of a game, or `Undecided` while it is in progress.
#[derive(Clone, Copy, PartialEq, Eq, Structural, Debug)]
pub enum Outcome {
    WonA,
    WonB,
    Draw,
    Undecided,
}

/// Error of a query or random-draw operation invoked on a decided board.
#[derive(Clone, Copy, PartialEq, Eq, Structural, Debug)]
pub struct BoardDone;

/// Error of `play` and `clone_and_play`: either the board was already
/// decided, or the move is in the static move space but not currently legal.
#[derive(Clone, Copy, PartialEq, Eq, Structural, Debug)]
pub enum PlayError {
    BoardDone,
    UnavailableMove,
}

/// The finite symmetry group of a game: board-preserving transformations.
///
/// The contract pins each method to its spec-level counterpart.  That the
/// elements really form a group — identity contained, inverses contained,
/// round trips restoring the board — is a property of the concrete game and
/// is validated by [`crate::checks::symmetry_check`].
pub trait GroupSymmetry: Sized + Copy {
    /// The full element set, as a mathematical sequence.
    spec fn spec_all() -> Seq<Self>;

    /// The identity element.
    spec fn spec_identity() -> Self;

    /// The inverse of `self`.
    spec fn spec_inverse(self) -> Self;

    /// Enumerates the full element set.
    fn all() -> (r: Vec<Self>)
        ensures
            r@ == Self::spec_all(),
    ;

    /// Returns the identity element.
    fn identity() -> (r: Self)
        ensures
            r == Self::spec_identity(),
    ;

    /// Returns the inverse of `self`.
    fn inverse(self) -> (r: Self)
        ensures
            r == self.spec_inverse(),
    ;

    /// Decides equality of two elements.
    fn sym_eq(a: Self, b: Self) -> (r: bool)
        ensures
            r == (a == b),
    ;
}

/// The contract every concrete game state must implement.
///
/// `Self::V` (through [`View`]) is the game's mathematical model; the spec
/// functions below describe the rules on that model, and every executable
/// operation is pinned to them.
pub trait Board: View + Sized {
    /// A small, copyable value identifying one action of the static move
    /// space.
    type Move: Copy;

    /// The game's symmetry elements.
    type Sym: GroupSymmetry;

    /// Well-formedness of a board model; every operation preserves it.
    spec fn inv(v: Self::V) -> bool;

    /// The static space of every move that could ever occur, independent of
    /// any board instance.
    spec fn spec_all_moves() -> Seq<Self::Move>;

    /// The availability predicate of a board model `v`: whether a move is
    /// currently legal on `v`, as a named function value.
    spec fn avail_pred_of(v: Self::V) -> spec_fn(Self::Move) -> bool;

    /// The decided outcome of `v`, or `Outcome::Undecided`.
    spec fn outcome_of(v: Self::V) -> Outcome;

    /// Whose turn is next on `v` (meaningful even on done boards).
    spec fn player_of(v: Self::V) -> Player;

    /// The successor model after playing a legal move `m` on `v`.
    spec fn step(v: Self::V, m: Self::Move) -> Self::V;

    /// The image of `v` under a symmetry element.
    spec fn map_of(v: Self::V, s: Self::Sym) -> Self::V;

    /// The image of a move under a symmetry element.
    spec fn move_map_of(s: Self::Sym, m: Self::Move) -> Self::Move;

    /// The designated representative of `v`'s symmetry class.
    spec fn canon_of(v: Self::V) -> Self::V;

    /// Enumerates the static move space, independent of any board.
    fn all_possible_moves() -> (r: Vec<Self::Move>)
        ensures
            r@ == Self::spec_all_moves(),
    ;

    /// The currently legal moves: exactly the members of the static move
    /// space that are available, in the static space's order.  Fails with
    /// `BoardDone` on a decided board.
    fn available_moves(&self) -> (r: Result<Vec<Self::Move>, BoardDone>)
        requires
            Self::inv(self@),
        ensures
            r is Err <==> Self::outcome_of(self@) != Outcome::Undecided,
            r matches Ok(v) ==> v@ == Self::spec_all_moves().filter(Self::avail_pred_of(self@)),
    ;

    /// Whether `m` is currently legal; fails with `BoardDone` on a decided
    /// board.
    fn is_available_move(&self, m: Self::Move) -> (r: Result<bool, BoardDone>)
        requires
            Self::inv(self@),
        ensures
            r is Err <==> Self::outcome_of(self@) != Outcome::Undecided,
            r matches Ok(b) ==> b == Self::avail_pred_of(self@)(m),
    ;

    /// Draws one legal move using the supplied random source; fails with
    /// `BoardDone` on a decided board.  Uniformity over the legal moves is a
    /// statistical property, validated by
    /// [`crate::checks::uniformity_check`].
    fn random_available_move(&self, rng: &mut Rng64) -> (r: Result<Self::Move, BoardDone>)
        requires
            Self::inv(self@),
        ensures
            r is Err <==> Self::outcome_of(self@) != Outcome::Undecided,
            r matches Ok(m) ==> Self::avail_pred_of(self@)(m),
    ;

    /// Advances the board by one move.  Fails with `PlayError::BoardDone` on
    /// a decided board and with `PlayError::UnavailableMove` on an illegal
    /// move; on failure the board is unchanged.
    fn play(&mut self, m: Self::Move) -> (r: Result<(), PlayError>)
        requires
            Self::inv(old(self)@),
        ensures
            Self::outcome_of(old(self)@) != Outcome::Undecided ==> r == Err::<(), PlayError>(
                PlayError::BoardDone,
            ) && final(self)@ == old(self)@,
            Self::outcome_of(old(self)@) == Outcome::Undecided && !Self::avail_pred_of(
                old(self)@,
            )(m) ==> r == Err::<(), PlayError>(PlayError::UnavailableMove) && final(self)@ == old(
                self,
            )@,
            Self::outcome_of(old(self)@) == Outcome::Undecided && Self::avail_pred_of(old(self)@)(
                m,
            ) ==> r is Ok && final(self)@ == Self::step(old(self)@, m),
            Self::inv(final(self)@),
    ;

    /// Copy-then-play convenience, with the same failure behaviour as
    /// `play`.
    fn clone_and_play(&self, m: Self::Move) -> (r: Result<Self, PlayError>)
        requires
            Self::inv(self@),
        ensures
            Self::outcome_of(self@) != Outcome::Undecided ==> (r matches Err(e) && e
                == PlayError::BoardDone),
            Self::outcome_of(self@) == Outcome::Undecided && !Self::avail_pred_of(self@)(m) ==> (
            r matches Err(e) && e == PlayError::UnavailableMove),
            Self::outcome_of(self@) == Outcome::Undecided && Self::avail_pred_of(self@)(m) ==> (
            r matches Ok(b) && b@ == Self::step(self@, m) && Self::inv(b@)),
    ;

    /// Whether the game has a decided outcome.
    fn is_done(&self) -> (r: bool)
        ensures
            r == (Self::outcome_of(self@) != Outcome::Undecided),
    ;

    /// The decided outcome, or `Outcome::Undecided`.
    fn outcome(&self) -> (r: Outcome)
        ensures
            r == Self::outcome_of(self@),
    ;

    /// Whose turn is next.
    fn next_player(&self) -> (r: Player)
        ensures
            r == Self::player_of(self@),
    ;

    /// The image of this board under a symmetry element.
    fn map(&self, s: Self::Sym) -> (r: Self)
        requires
            Self::inv(self@),
        ensures
            r@ == Self::map_of(self@, s),
            Self::inv(r@),
    ;

    /// The move that corresponds to `m` once the board has been transformed
    /// by `s`.
    fn map_move(&self, s: Self::Sym, m: Self::Move) -> (r: Self::Move)
        ensures
            r == Self::move_map_of(s, m),
    ;

    /// The designated representative board of this board's symmetry class.
    fn canonicalize(&self) -> (r: Self)
        requires
            Self::inv(self@),
        ensures
            r@ == Self::canon_of(self@),
            Self::inv(r@),
    ;

    /// Decides equality of two moves.
    fn move_eq(a: Self::Move, b: Self::Move) -> (r: bool)
        ensures
            r == (a == b),
    ;

    /// Decides equality of two boards, at the level of their models.
    fn eq_board(&self, other: &Self) -> (r: bool)
        ensures
            r == (self@ == other@),
    ;
}

/// Whether a board model is done: its outcome is decided.
pub open spec fn done_of<B: Board>(v: B::V) -> bool {
    B::outcome_of(v) != Outcome::Undecided
}

/// The legal moves of a board model, in the static move space's order.
pub open spec fn avail_seq<B: Board>(v: B::V) -> Seq<B::Move> {
    B::spec_all_moves().filter(B::avail_pred_of(v))
}

} // verus!
