use sudoku_board::utils::BitMap;

fn digits_of(s: &BitMap) -> Vec<u8> {
    (0..=255u8).filter(|d| s.contains(*d)).collect()
}

#[test]
fn empty_holds_nothing() {
    let s = BitMap::empty();
    assert!(s.is_empty());
    assert_eq!(digits_of(&s), Vec::<u8>::new());
}

#[test]
fn all_holds_the_nine_digits() {
    let s = BitMap::all();
    assert!(!s.is_empty());
    assert_eq!(digits_of(&s), vec![1, 2, 3, 4, 5, 6, 7, 8, 9]);
    assert!(!s.contains(0));
    assert!(!s.contains(10));
    assert!(!s.contains(255));
}

#[test]
fn insert_adds_one_digit() {
    let mut s = BitMap::empty();
    s.insert(1);
    s.insert(9);
    s.insert(5);
    s.insert(5);
    assert_eq!(digits_of(&s), vec![1, 5, 9]);
    assert!(!s.is_empty());
}

#[test]
fn remove_takes_one_digit_out() {
    let mut s = BitMap::all();
    s.remove(4);
    assert_eq!(digits_of(&s), vec![1, 2, 3, 5, 6, 7, 8, 9]);
    s.remove(4);
    assert_eq!(digits_of(&s), vec![1, 2, 3, 5, 6, 7, 8, 9]);
}

#[test]
fn remove_of_a_value_that_is_no_digit_changes_nothing() {
    let mut s = BitMap::all();
    s.remove(0);
    s.remove(10);
    s.remove(16);
    s.remove(200);
    assert_eq!(s, BitMap::all());
}

#[test]
fn insert_then_remove_gives_the_set_back() {
    let mut s = BitMap::empty();
    s.insert(2);
    let before = s;
    s.insert(7);
    s.remove(7);
    assert_eq!(s, before);
}

#[test]
fn union_and_intersect() {
    let mut a = BitMap::empty();
    a.insert(1);
    a.insert(2);
    a.insert(3);
    let mut b = BitMap::empty();
    b.insert(3);
    b.insert(4);
    assert_eq!(digits_of(&a.union(&b)), vec![1, 2, 3, 4]);
    assert_eq!(digits_of(&a.intersect(&b)), vec![3]);
    assert_eq!(a.intersect(&BitMap::all()), a);
    assert_eq!(a.union(&BitMap::empty()), a);
    assert!(a.intersect(&BitMap::empty()).is_empty());
}

#[test]
fn complement_is_taken_within_the_nine_digits() {
    let mut a = BitMap::empty();
    a.insert(1);
    a.insert(9);
    assert_eq!(digits_of(&a.complement()), vec![2, 3, 4, 5, 6, 7, 8]);
    assert_eq!(BitMap::all().complement(), BitMap::empty());
    assert_eq!(BitMap::empty().complement(), BitMap::all());
    assert_eq!(a.complement().complement(), a);
}
