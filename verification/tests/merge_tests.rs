use algolib::merge::combine;
use algolib::merge::split;
use algolib::merge::NumTrait;

#[derive(PartialEq, Eq, PartialOrd, Ord, Clone, Copy, Debug)]
struct Num(i64);

impl NumTrait for Num {}

#[test]
fn split_short_slices_yield_empty_ranges() {
    let empty: [Num; 0] = [];
    assert_eq!(split(&empty), (0..0, 0..0));
    let single = [Num(7)];
    assert_eq!(split(&single), (0..0, 0..0));
}

#[test]
fn split_around_the_middle() {
    let two = [Num(5), Num(6)];
    assert_eq!(split(&two), (0..0, 1..1));

    let seven = [Num(5), Num(6), Num(3), Num(4), Num(8), Num(7), Num(1)];
    assert_eq!(split(&seven), (0..2, 3..6));
}

#[test]
fn combine_leaves_both_halves_alone() {
    let mut left = vec![Num(3), Num(5), Num(6)];
    let mut right = vec![Num(1), Num(4), Num(8)];
    combine(&mut left, &mut right);
    assert_eq!(left, vec![Num(3), Num(5), Num(6)]);
    assert_eq!(right, vec![Num(1), Num(4), Num(8)]);
}
