use algolib::coin_permutations::find_dimes;
use algolib::coin_permutations::find_quarters;
use algolib::coin_permutations::make_denom;
use algolib::coin_permutations::Change;

fn check_change(combos: &Vec<Change>, check: usize) {
    let x = combos.iter();
    x.for_each(|v| {
        let amt = v.amount();
        assert_eq!(amt, check);
    });
    println!("HOF(25): {:#?}", combos);
}

#[test]
fn test_nickels() {
    let curr = Change::new();
    let mut combos: Vec<Change> = vec![];
    let find_nick = make_denom(5);
    find_nick.run(0, 33, curr, &mut combos);
    println!("HOF(5): {:#?}", combos);
}

#[test]
fn test_dimes() {
    let curr = Change::new();
    let mut combos: Vec<Change> = vec![];
    find_dimes(0, 26, curr, &mut combos);
    println!("HOF(10): {:?}", combos);
}

#[test]
fn test_quarters() {
    let curr = Change::new();
    let mut combos: Vec<Change> = vec![];
    find_quarters(0, 56, curr, &mut combos);

    check_change(&combos, 56);
}

#[test]
fn nickel_run_lists_every_count() {
    let curr = Change::new();
    let mut combos: Vec<Change> = vec![];
    let find_nick = make_denom(5);
    find_nick.run(0, 33, curr, &mut combos);

    let expected: Vec<(usize, usize)> =
        vec![(0, 33), (1, 28), (2, 23), (3, 18), (4, 13), (5, 8), (6, 3)];
    assert_eq!(combos.len(), expected.len());
    for (entry, (nickels, pennies)) in combos.iter().zip(expected) {
        assert_eq!(entry.q, 0);
        assert_eq!(entry.d, 0);
        assert_eq!(entry.n, nickels);
        assert_eq!(entry.p, pennies);
        assert_eq!(entry.amount(), 33);
    }
}

#[test]
fn dime_run_count_and_amounts() {
    let curr = Change::new();
    let mut combos: Vec<Change> = vec![];
    find_dimes(0, 26, curr, &mut combos);

    assert_eq!(combos.len(), 12);
    for entry in combos.iter() {
        assert_eq!(entry.amount(), 26);
        assert_eq!(entry.q, 0);
    }
    assert_eq!(combos[0].p, 26);
    let last = combos[combos.len() - 1];
    assert_eq!(last.d, 2);
    assert_eq!(last.n, 1);
    assert_eq!(last.p, 1);
}

#[test]
fn amount_formula_exact() {
    let mut c = Change::new();
    assert_eq!(c.amount(), 0);
    c.q = 3;
    c.d = 2;
    c.n = 1;
    c.p = 4;
    assert_eq!(c.amount(), 3 * 25 + 2 * 10 + 5 + 4);
}
