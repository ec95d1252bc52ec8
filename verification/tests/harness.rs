use board_harness::board::{Board, GroupSymmetry, Outcome, PlayError, Player};
use board_harness::checks::{
    consistency_check, run_board_checks, symmetry_check, terminal_check, uniformity_check,
};
use board_harness::kernels::{band_ok, contains_move, filter_members, is_dupfree, moves_equal};
use board_harness::nine::{NineBoard, NineSym};
use board_harness::perft::{perft, perft_check};
use board_harness::rng::Rng64;

fn empty_desc() -> Vec<u8> {
    let mut d = vec![b'.'; 81];
    d.push(b'x');
    d.push(b'0');
    d
}

fn won_desc() -> Vec<u8> {
    let mut d = vec![b'.'; 81];
    for sub in 0..3 {
        for cell in 0..3 {
            d[sub * 9 + cell] = b'x';
        }
    }
    d.push(b'o');
    d.push(b'-');
    d
}

fn drawn_desc() -> Vec<u8> {
    let mut d = Vec::new();
    for _ in 0..9 {
        d.extend_from_slice(b"xoxxoxoxo");
    }
    d.push(b'x');
    d.push(b'-');
    d
}

#[test]
fn rng_is_deterministic() {
    let mut a = Rng64::from_seed(7);
    let mut b = Rng64::from_seed(7);
    for _ in 0..100 {
        assert_eq!(a.next_u64(), b.next_u64());
    }
    let mut c = Rng64::from_seed(0);
    for _ in 0..1000 {
        let v = c.next_below(13);
        assert!(v < 13);
    }
}

#[test]
fn player_other_swaps() {
    assert_eq!(Player::A.other(), Player::B);
    assert_eq!(Player::B.other(), Player::A);
}

#[test]
fn new_board_basics() {
    let b = NineBoard::new();
    assert!(!b.is_done());
    assert_eq!(b.outcome(), Outcome::Undecided);
    assert_eq!(b.next_player(), Player::A);
    let avail = b.available_moves().unwrap();
    assert_eq!(avail, vec![0, 1, 2, 3, 4, 5, 6, 7, 8]);
    let all = NineBoard::all_possible_moves();
    assert_eq!(all.len(), 81);
    assert_eq!(all[0], 0);
    assert_eq!(all[80], 80);
}

#[test]
fn play_updates_forced_sub_board() {
    let mut b = NineBoard::new();
    assert!(b.play(0).is_ok());
    assert_eq!(b.next_player(), Player::B);
    // the move landed on cell 0, so the opponent is sent back to sub-board 0
    let avail = b.available_moves().unwrap();
    assert_eq!(avail, vec![1, 2, 3, 4, 5, 6, 7, 8]);
    let mut b2 = NineBoard::new();
    assert!(b2.play(5).is_ok());
    // cell 5 sends the opponent to sub-board 5
    let avail2 = b2.available_moves().unwrap();
    assert_eq!(avail2, vec![45, 46, 47, 48, 49, 50, 51, 52, 53]);
}

#[test]
fn play_rejects_unavailable_moves() {
    let mut b = NineBoard::new();
    // outside the forced sub-board
    assert_eq!(b.play(9), Err(PlayError::UnavailableMove));
    // outside the static move space
    assert_eq!(b.play(81), Err(PlayError::UnavailableMove));
    assert!(b.play(4).is_ok());
    // the cell is taken now, and sub-board 4 is the forced one
    assert!(matches!(b.clone_and_play(4), Err(PlayError::UnavailableMove)));
    assert!(matches!(b.clone_and_play(0), Err(PlayError::UnavailableMove)));
    assert!(b.is_available_move(40).unwrap());
}

#[test]
fn done_board_fails_every_move_operation() {
    let won = NineBoard::parse_desc(&won_desc()).unwrap();
    assert!(won.is_done());
    assert_eq!(won.outcome(), Outcome::WonA);
    assert!(won.available_moves().is_err());
    assert!(won.is_available_move(40).is_err());
    let mut rng = Rng64::from_seed(0);
    assert!(won.random_available_move(&mut rng).is_err());
    for m in NineBoard::all_possible_moves() {
        match won.clone_and_play(m) {
            Err(PlayError::BoardDone) => {}
            _ => panic!("expected BoardDone"),
        }
    }
    assert!(terminal_check(&won, &mut rng));
}

#[test]
fn drawn_board_is_done() {
    let d = NineBoard::parse_desc(&drawn_desc()).unwrap();
    assert!(d.is_done());
    assert_eq!(d.outcome(), Outcome::Draw);
    assert!(d.available_moves().is_err());
}

#[test]
fn parse_serialize_round_trip() {
    for desc in [empty_desc(), won_desc(), drawn_desc()] {
        let b = NineBoard::parse_desc(&desc).unwrap();
        assert_eq!(b.serialize_desc(), desc);
    }
    // a mid-game position reached by playing also round-trips
    let mut b = NineBoard::new();
    for m in [0u8, 4, 40, 44] {
        b.play(m).unwrap();
    }
    let desc = b.serialize_desc();
    let again = NineBoard::parse_desc(&desc).unwrap();
    assert!(again.eq_board(&b));
    assert_eq!(again.serialize_desc(), desc);
}

#[test]
fn parse_rejects_invalid_descriptions() {
    assert!(NineBoard::parse_desc(&vec![b'.'; 10]).is_none());
    let mut bad_char = empty_desc();
    bad_char[40] = b'?';
    assert!(NineBoard::parse_desc(&bad_char).is_none());
    let mut bad_player = empty_desc();
    bad_player[81] = b'.';
    assert!(NineBoard::parse_desc(&bad_player).is_none());
    let mut bad_forced = empty_desc();
    bad_forced[82] = b'9';
    assert!(NineBoard::parse_desc(&bad_forced).is_none());
    // forcing a closed sub-board is rejected
    let mut closed_forced = won_desc();
    closed_forced[82] = b'0';
    assert!(NineBoard::parse_desc(&closed_forced).is_none());
}

#[test]
fn perft_empty_nine_board() {
    let b = NineBoard::new();
    // depth 0 counts the root alone; depth 1 counts the nine cells of the
    // first sub-board
    assert_eq!(perft(&b, 0), Some(1));
    assert_eq!(perft(&b, 1), Some(9));
    assert_eq!(perft(&b, 2), Some(80));
    assert!(perft_check(&b, &vec![1, 9, 80]));
    assert!(!perft_check(&b, &vec![1, 10]));
}

#[test]
fn perft_scenario_with_round_trip() {
    assert!(NineBoard::run_scenario(&empty_desc(), &vec![1, 9, 80]));
    assert!(NineBoard::run_scenario(&won_desc(), &vec![1, 0, 0]));
    assert!(!NineBoard::run_scenario(&empty_desc(), &vec![1, 8]));
    assert!(!NineBoard::run_scenario(&vec![b'.'; 5], &vec![1]));
}

#[test]
fn uniform_sampling_stays_in_band() {
    let b = NineBoard::new();
    let mut rng = Rng64::from_seed(0);
    let (ok, counts) = uniformity_check(&b, &mut rng);
    assert!(ok);
    assert_eq!(counts.len(), 9);
    let total: u64 = counts.iter().sum();
    assert_eq!(total, 9000);
    for c in counts {
        assert!(c > 800 && c < 1200);
    }
}

#[test]
fn consistency_on_fresh_and_played_boards() {
    let b = NineBoard::new();
    assert!(consistency_check(&b));
    let mut played = NineBoard::new();
    for m in [0u8, 1, 9, 2] {
        played.play(m).unwrap();
    }
    assert!(consistency_check(&played));
}

#[test]
fn symmetry_laws_hold_at_runtime() {
    let b = NineBoard::new();
    assert!(symmetry_check(&b));
    let mut played = NineBoard::new();
    for m in [0u8, 1, 9, 2, 18] {
        played.play(m).unwrap();
    }
    assert!(symmetry_check(&played));
    let won = NineBoard::parse_desc(&won_desc()).unwrap();
    assert!(symmetry_check(&won));
}

#[test]
fn map_round_trip_restores_board() {
    let mut b = NineBoard::new();
    for m in [0u8, 7, 63, 5, 50] {
        b.play(m).unwrap();
    }
    for sym in NineSym::all() {
        let mapped = b.map(sym);
        let back = mapped.map(sym.inverse());
        assert!(back.eq_board(&b));
        assert_eq!(mapped.outcome(), b.outcome());
        assert_eq!(mapped.next_player(), b.next_player());
    }
    let id = NineSym::identity();
    assert!(b.map(id).eq_board(&b));
}

#[test]
fn map_move_matches_cell_action() {
    let b = NineBoard::new();
    // a quarter turn carries cell 0 of sub-board 0 to cell 6 of sub-board 6
    assert_eq!(b.map_move(NineSym { code: 1 }, 0), 60);
    // the identity leaves every move alone
    for m in 0..81 {
        assert_eq!(b.map_move(NineSym { code: 0 }, m), m);
    }
}

#[test]
fn canonical_form_is_stable() {
    let mut b = NineBoard::new();
    for m in [0u8, 8, 72, 1, 13] {
        b.play(m).unwrap();
    }
    let canon = b.canonicalize();
    // idempotence
    assert!(canon.canonicalize().eq_board(&canon));
    // invariance across every symmetry image
    for sym in NineSym::all() {
        assert!(b.map(sym).canonicalize().eq_board(&canon));
    }
}

#[test]
fn suite_runner_accepts_conforming_boards() {
    let mut rng = Rng64::from_seed(0);
    let b = NineBoard::new();
    assert!(run_board_checks(&b, &mut rng));
    let won = NineBoard::parse_desc(&won_desc()).unwrap();
    assert!(run_board_checks(&won, &mut rng));
}

#[test]
fn kernel_helpers_behave() {
    let v: Vec<u8> = vec![3, 1, 4, 1, 5];
    assert!(contains_move::<NineBoard>(&v, 4));
    assert!(!contains_move::<NineBoard>(&v, 9));
    assert!(!is_dupfree::<NineBoard>(&v));
    assert!(is_dupfree::<NineBoard>(&vec![3, 1, 4]));
    let all: Vec<u8> = vec![0, 1, 2, 3, 4, 5];
    let sel: Vec<u8> = vec![5, 1, 3];
    assert_eq!(filter_members::<NineBoard>(&all, &sel), vec![1, 3, 5]);
    assert!(moves_equal::<NineBoard>(&vec![1, 2], &vec![1, 2]));
    assert!(!moves_equal::<NineBoard>(&vec![1, 2], &vec![2, 1]));
    assert!(band_ok(&vec![0, 900, 1199, 801], 800, 1200));
    assert!(!band_ok(&vec![800], 800, 1200));
    assert!(!band_ok(&vec![1200], 800, 1200));
}

#[test]
fn random_moves_are_always_available() {
    let mut rng = Rng64::from_seed(42);
    let mut b = NineBoard::new();
    // walk one full random game; every drawn move must be playable
    while !b.is_done() {
        let m = b.random_available_move(&mut rng).unwrap();
        assert!(b.is_available_move(m).unwrap());
        b.play(m).unwrap();
    }
    assert_ne!(b.outcome(), Outcome::Undecided);
}

#[test]
fn single_available_move_edge_case() {
    // sub-board 0 has exactly one empty cell and no line; the move into it
    // is forced, so only one move is available
    let mut d = vec![b'.'; 81];
    d[..8].copy_from_slice(b"xoxxoxox");
    d.push(b'x');
    d.push(b'0');
    let b = NineBoard::parse_desc(&d).unwrap();
    assert_eq!(b.available_moves().unwrap(), vec![8]);
    assert!(consistency_check(&b));
    let mut rng = Rng64::from_seed(3);
    let (ok, counts) = uniformity_check(&b, &mut rng);
    assert!(ok);
    assert_eq!(counts, vec![1000]);
}

#[test]
fn draws_are_reproducible() {
    // equal positions and equal generator states always yield equal moves
    let board_a = NineBoard::new();
    let board_b = NineBoard::parse_desc(&empty_desc()).unwrap();
    assert!(board_a.eq_board(&board_b));
    let mut rng_a = Rng64::from_seed(99);
    let mut rng_b = Rng64::from_seed(99);
    for _ in 0..50 {
        let ma = board_a.draw_available_move(&mut rng_a).unwrap();
        let mb = board_b.draw_available_move(&mut rng_b).unwrap();
        assert_eq!(ma, mb);
        assert_eq!(rng_a.state, rng_b.state);
    }
    // the trait operation draws the same way
    let mut rng_c = Rng64::from_seed(7);
    let mut rng_d = Rng64::from_seed(7);
    for _ in 0..50 {
        let mc = board_a.random_available_move(&mut rng_c).unwrap();
        let md = board_b.draw_available_move(&mut rng_d).unwrap();
        assert_eq!(mc, md);
    }
}
