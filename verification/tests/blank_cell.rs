use sudoku_board::game_board::BlankCell;
use sudoku_board::utils::BitMap;

fn marks(s: BitMap) -> Vec<u8> {
    (1..=9u8).filter(|d| s.contains(*d)).collect()
}

fn set_of(digits: &[u8]) -> BitMap {
    let mut s = BitMap::empty();
    for d in digits {
        s.insert(*d);
    }
    s
}

#[test]
fn new_rejects_an_answer_that_is_no_digit() {
    assert!(BlankCell::new(0).is_none());
    assert!(BlankCell::new(10).is_none());
    assert!(BlankCell::new(255).is_none());
    for d in 1..=9u8 {
        assert!(BlankCell::new(d).is_some());
    }
}

#[test]
fn a_fresh_square_has_no_marks() {
    let c = BlankCell::new(7).unwrap();
    assert_eq!(c.answer(), 7);
    assert!(c.candidates().is_empty());
    assert!(c.user_deleted().is_empty());
    assert_eq!(c.committed(), None);
}

#[test]
fn candidate_add_inserts_and_cancels_a_deletion() {
    let mut c = BlankCell::new(7).unwrap();
    c.candidate_add(4);
    assert_eq!(marks(c.candidates()), vec![4]);
    c.candidate_remove(4, true);
    assert_eq!(marks(c.candidates()), Vec::<u8>::new());
    assert_eq!(marks(c.user_deleted()), vec![4]);
    c.candidate_add(4);
    assert_eq!(marks(c.candidates()), vec![4]);
    assert_eq!(marks(c.user_deleted()), Vec::<u8>::new());
}

#[test]
fn candidate_add_of_a_present_digit_changes_nothing() {
    let mut c = BlankCell::new(7).unwrap();
    c.candidate_add(4);
    let before = c;
    c.candidate_add(4);
    assert_eq!(c, before);
}

#[test]
fn candidate_remove_records_only_deletions_by_the_player() {
    let mut c = BlankCell::new(7).unwrap();
    c.candidate_add(1);
    c.candidate_add(2);
    c.candidate_remove(1, false);
    assert_eq!(marks(c.candidates()), vec![2]);
    assert_eq!(marks(c.user_deleted()), Vec::<u8>::new());
    c.candidate_remove(2, true);
    assert_eq!(marks(c.candidates()), Vec::<u8>::new());
    assert_eq!(marks(c.user_deleted()), vec![2]);
}

#[test]
fn candidate_remove_of_an_absent_digit_changes_nothing() {
    let mut c = BlankCell::new(7).unwrap();
    c.candidate_add(1);
    let before = c;
    c.candidate_remove(5, true);
    assert_eq!(c, before);
    c.candidate_remove(5, false);
    assert_eq!(c, before);
    c.candidate_remove(0, true);
    assert_eq!(c, before);
    c.candidate_remove(77, true);
    assert_eq!(c, before);
}

#[test]
fn commit_keeps_the_pencil_marks() {
    let mut c = BlankCell::new(7).unwrap();
    c.candidate_add(1);
    c.candidate_add(2);
    c.candidate_remove(2, true);
    c.commit(9);
    assert_eq!(c.committed(), Some(9));
    assert_eq!(marks(c.candidates()), vec![1]);
    assert_eq!(marks(c.user_deleted()), vec![2]);
    assert!(c.check_collision(9));
    assert!(!c.check_collision(7));
}

#[test]
fn uncommit_returns_the_pen_mark() {
    let mut c = BlankCell::new(7).unwrap();
    assert_eq!(c.uncommit(), None);
    c.commit(3);
    assert_eq!(c.uncommit(), Some(3));
    assert_eq!(c.committed(), None);
    assert_eq!(c.uncommit(), None);
    assert!(!c.check_collision(3));
}

#[test]
fn matches_answer_compares_with_the_expected_digit() {
    let c = BlankCell::new(7).unwrap();
    assert!(c.matches_answer(7));
    assert!(!c.matches_answer(6));
    assert!(!c.matches_answer(0));
}

#[test]
fn recompute_candidates_from_intersects_and_reports() {
    let mut c = BlankCell::new(7).unwrap();
    c.candidate_add(1);
    c.candidate_add(2);
    c.candidate_add(7);
    let collision = c.recompute_candidates_from(set_of(&[2, 7, 8]));
    assert!(!collision);
    assert_eq!(marks(c.candidates()), vec![2, 7]);
    let collision = c.recompute_candidates_from(set_of(&[2, 3]));
    assert!(collision);
    assert_eq!(marks(c.candidates()), vec![2]);
    let collision = c.recompute_candidates_from(BitMap::empty());
    assert!(collision);
    assert!(c.candidates().is_empty());
}

#[test]
fn recompute_candidates_from_the_full_set_changes_nothing() {
    let mut c = BlankCell::new(7).unwrap();
    c.candidate_add(1);
    c.candidate_remove(1, true);
    c.candidate_add(2);
    let before = c;
    assert!(!c.recompute_candidates_from(BitMap::all()));
    assert_eq!(c, before);
}

#[test]
fn reset_candidates_starts_over_from_the_allowed_digits() {
    let mut c = BlankCell::new(7).unwrap();
    c.candidate_add(4);
    c.candidate_add(5);
    c.candidate_add(6);
    c.candidate_remove(4, true);
    c.candidate_remove(6, true);
    c.commit(2);
    c.reset_candidates(set_of(&[1, 4, 9]));
    assert_eq!(marks(c.candidates()), vec![1, 4, 9]);
    assert_eq!(marks(c.user_deleted()), vec![6]);
    assert_eq!(c.committed(), Some(2));
    assert_eq!(c.answer(), 7);
}

#[test]
fn candidates_and_struck_out_digits_never_overlap() {
    let mut c = BlankCell::new(5).unwrap();
    for d in 1..=9u8 {
        c.candidate_add(d);
    }
    for d in [2u8, 4, 6] {
        c.candidate_remove(d, true);
    }
    c.candidate_add(4);
    assert!(c.candidates().intersect(&c.user_deleted()).is_empty());
    c.commit(1);
    c.recompute_candidates_from(set_of(&[1, 2, 3, 4]));
    assert!(c.candidates().intersect(&c.user_deleted()).is_empty());
    c.uncommit();
    c.reset_candidates(set_of(&[1, 2, 3]));
    assert!(c.candidates().intersect(&c.user_deleted()).is_empty());
    assert_eq!(marks(c.user_deleted()), vec![6]);
    assert_eq!(marks(c.candidates()), vec![1, 2, 3]);
}
