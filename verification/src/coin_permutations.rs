//! Enumerates the ways of making change for an amount of money out of
//! quarters, dimes, nickels and pennies.
//!
//! The enumeration is built up by denomination: with only pennies the
//! problem is trivial, so each level starts at zero coins of its own
//! denomination, hands the remainder to the next lower level, and then, as
//! long as the remainder covers one more of its coins, adds that coin and
//! repeats. The exact list of combinations each level pushes is pinned down
//! by the `*_entries` sequence functions, and every pushed combination is
//! worth the amount that was asked for (`lemma_quarter_entries_amount`).

use vstd::prelude::*;

verus! {

/// A count of quarters, dimes, nickels and pennies.
#[derive(Copy, Clone, Debug)]
pub struct Change {
    pub q: usize,
    pub d: usize,
    pub n: usize,
    pub p: usize,
}

impl Change {
    /// Total worth in cents.
    pub open spec fn amount_spec(self) -> int {
        self.q * 25 + self.d * 10 + self.n * 5 + self.p
    }

    /// Worth of the coins other than the pennies, which the enumeration
    /// overwrites with the leftover remainder.
    pub open spec fn coin_base(self) -> int {
        self.q * 25 + self.d * 10 + self.n * 5
    }

    pub fn new() -> (c: Change)
        ensures
            c.q == 0 && c.d == 0 && c.n == 0 && c.p == 0,
    {
        Change { q: 0, d: 0, n: 0, p: 0 }
    }

    pub fn amount(&self) -> (total: usize)
        requires
            self.amount_spec() <= usize::MAX,
        ensures
            total == self.amount_spec(),
    {
        (self.q * 25) + (self.d * 10) + (self.n * 5) + self.p
    }
}

/// The combination pushed for a given partial count: the remainder is paid
/// out in pennies.
pub open spec fn settled(current: Change, remainder: usize) -> Change {
    Change { q: current.q, d: current.d, n: current.n, p: remainder }
}

pub open spec fn plus_nickel(current: Change) -> Change {
    Change { n: (current.n + 1) as usize, ..current }
}

pub open spec fn plus_dime(current: Change) -> Change {
    Change { d: (current.d + 1) as usize, ..current }
}

pub open spec fn plus_quarter(current: Change) -> Change {
    Change { q: (current.q + 1) as usize, ..current }
}

/// The combinations `find_nickels` appends: zero or more nickels carved out
/// of the remainder, the rest in pennies.
pub open spec fn nickel_entries(current: Change, remainder: usize) -> Seq<Change>
    decreases remainder,
{
    if remainder > 5 {
        seq![settled(current, remainder)] + nickel_entries(
            plus_nickel(current),
            (remainder - 5) as usize,
        )
    } else {
        seq![settled(current, remainder)]
    }
}

/// The combinations `find_dimes` appends: for each feasible number of
/// dimes, everything the nickel level yields for what is left.
pub open spec fn dime_entries(current: Change, remainder: usize) -> Seq<Change>
    decreases remainder,
{
    if remainder >= 10 {
        nickel_entries(current, remainder) + dime_entries(
            plus_dime(current),
            (remainder - 10) as usize,
        )
    } else {
        nickel_entries(current, remainder)
    }
}

/// The combinations `find_quarters` appends: for each feasible number of
/// quarters, everything the dime level yields for what is left.
pub open spec fn quarter_entries(current: Change, remainder: usize) -> Seq<Change>
    decreases remainder,
{
    if remainder >= 25 {
        dime_entries(current, remainder) + quarter_entries(
            plus_quarter(current),
            (remainder - 25) as usize,
        )
    } else {
        dime_entries(current, remainder)
    }
}

/// Pays the whole remainder out in pennies and records the combination.
pub fn set_amount(remainder: usize, current: Change, change: &mut Vec<Change>)
    ensures
        final(change)@ == old(change)@.push(settled(current, remainder)),
{
    let mut current = current;
    current.p = remainder;
    change.push(current);
}

/// Records the current combination, then adds nickels one at a time while
/// the remainder covers another one.
pub fn find_nickels(num: usize, remainder: usize, current: Change, change: &mut Vec<Change>)
    requires
        current.coin_base() + remainder <= usize::MAX,
        num + remainder <= usize::MAX,
    ensures
        final(change)@ == old(change)@ + nickel_entries(current, remainder),
    decreases remainder,
{
    set_amount(remainder, current, change);
    if remainder > 5 {
        let mut next = current;
        next.n = next.n + 1;
        find_nickels(num + 1, remainder - 5, next, change);
        proof {
            assert(change@ =~= old(change)@ + nickel_entries(current, remainder));
        }
    }
}

/// Hands the remainder to the nickel level, then adds dimes one at a time
/// while the remainder covers another one.
pub fn find_dimes(num: usize, remainder: usize, current: Change, change: &mut Vec<Change>)
    requires
        current.coin_base() + remainder <= usize::MAX,
        num + remainder <= usize::MAX,
    ensures
        final(change)@ == old(change)@ + dime_entries(current, remainder),
    decreases remainder,
{
    find_nickels(0, remainder, current, change);
    if remainder >= 10 {
        let mut next = current;
        next.d = next.d + 1;
        find_dimes(num + 1, remainder - 10, next, change);
        proof {
            assert(change@ =~= old(change)@ + dime_entries(current, remainder));
        }
    }
}

/// Hands the remainder to the dime level, then adds quarters one at a time
/// while the remainder covers another one.
pub fn find_quarters(num: usize, remainder: usize, current: Change, change: &mut Vec<Change>)
    requires
        current.coin_base() + remainder <= usize::MAX,
        num + remainder <= usize::MAX,
    ensures
        final(change)@ == old(change)@ + quarter_entries(current, remainder),
    decreases remainder,
{
    find_dimes(0, remainder, current, change);
    if remainder >= 25 {
        let mut next = current;
        next.q = next.q + 1;
        find_quarters(num + 1, remainder - 25, next, change);
        proof {
            assert(change@ =~= old(change)@ + quarter_entries(current, remainder));
        }
    }
}

/// Every combination the nickel level yields is worth the coins already
/// chosen plus the remainder.
pub proof fn lemma_nickel_entries_amount(current: Change, remainder: usize)
    requires
        current.coin_base() + remainder <= usize::MAX,
    ensures
        forall|k: int|
            0 <= k < nickel_entries(current, remainder).len() ==> #[trigger] nickel_entries(
                current,
                remainder,
            )[k].amount_spec() == current.coin_base() + remainder,
    decreases remainder,
{
    let entries = nickel_entries(current, remainder);
    if remainder > 5 {
        lemma_nickel_entries_amount(plus_nickel(current), (remainder - 5) as usize);
        let rest = nickel_entries(plus_nickel(current), (remainder - 5) as usize);
        assert forall|k: int| 0 <= k < entries.len() implies #[trigger] entries[k].amount_spec()
            == current.coin_base() + remainder by {
            if k >= 1 {
                assert(entries[k] == rest[k - 1]);
                assert(rest[k - 1].amount_spec() == plus_nickel(current).coin_base() + (remainder
                    - 5));
            }
        }
    }
}

/// Every combination the dime level yields is worth the coins already
/// chosen plus the remainder.
pub proof fn lemma_dime_entries_amount(current: Change, remainder: usize)
    requires
        current.coin_base() + remainder <= usize::MAX,
    ensures
        forall|k: int|
            0 <= k < dime_entries(current, remainder).len() ==> #[trigger] dime_entries(
                current,
                remainder,
            )[k].amount_spec() == current.coin_base() + remainder,
    decreases remainder,
{
    let entries = dime_entries(current, remainder);
    let below = nickel_entries(current, remainder);
    lemma_nickel_entries_amount(current, remainder);
    if remainder >= 10 {
        lemma_dime_entries_amount(plus_dime(current), (remainder - 10) as usize);
        let rest = dime_entries(plus_dime(current), (remainder - 10) as usize);
        assert forall|k: int| 0 <= k < entries.len() implies #[trigger] entries[k].amount_spec()
            == current.coin_base() + remainder by {
            if k < below.len() {
                assert(entries[k] == below[k]);
                assert(below[k].amount_spec() == current.coin_base() + remainder);
            } else {
                assert(entries[k] == rest[k - below.len()]);
                assert(rest[k - below.len()].amount_spec() == plus_dime(current).coin_base() + (
                remainder - 10));
            }
        }
    }
}

/// Every combination the enumeration yields is worth exactly the amount
/// that was asked for: the level that cuts a coin moves its worth from the
/// remainder into the combination, and the last level pays the rest out in
/// pennies.
pub proof fn lemma_quarter_entries_amount(current: Change, remainder: usize)
    requires
        current.coin_base() + remainder <= usize::MAX,
    ensures
        forall|k: int|
            0 <= k < quarter_entries(current, remainder).len() ==> #[trigger] quarter_entries(
                current,
                remainder,
            )[k].amount_spec() == current.coin_base() + remainder,
    decreases remainder,
{
    let entries = quarter_entries(current, remainder);
    let below = dime_entries(current, remainder);
    lemma_dime_entries_amount(current, remainder);
    if remainder >= 25 {
        lemma_quarter_entries_amount(plus_quarter(current), (remainder - 25) as usize);
        let rest = quarter_entries(plus_quarter(current), (remainder - 25) as usize);
        assert forall|k: int| 0 <= k < entries.len() implies #[trigger] entries[k].amount_spec()
            == current.coin_base() + remainder by {
            if k < below.len() {
                assert(entries[k] == below[k]);
                assert(below[k].amount_spec() == current.coin_base() + remainder);
            } else {
                assert(entries[k] == rest[k - below.len()]);
                assert(rest[k - below.len()].amount_spec() == plus_quarter(current).coin_base()
                    + (remainder - 25));
            }
        }
    }
}

/// The combinations one run of the finder built by `make_denom` appends:
/// the current combination, then everything the nickel level yields after
/// one coin of the finder's denomination is cut out of the remainder.
pub open spec fn denom_entries(denom: usize, current: Change, remainder: usize) -> Seq<Change> {
    if remainder > denom {
        seq![settled(current, remainder)] + nickel_entries(
            plus_nickel(current),
            (remainder - denom) as usize,
        )
    } else {
        seq![settled(current, remainder)]
    }
}

/// A finder for a single denomination, built by `make_denom`.
pub struct Denom {
    pub denom: usize,
}

/// Builds a finder that cuts coins of the given denomination out of the
/// remainder, counting them as nickels.
pub fn make_denom(denom: usize) -> (finder: Denom)
    ensures
        finder.denom == denom,
{
    Denom { denom }
}

impl Denom {
    /// Records the current combination and, while the remainder exceeds the
    /// denomination, cuts one coin and hands the rest to the nickel level.
    pub fn run(&self, num: usize, remainder: usize, current: Change, change: &mut Vec<Change>)
        requires
            current.coin_base() + remainder + 5 <= usize::MAX,
            num + remainder < usize::MAX,
        ensures
            final(change)@ == old(change)@ + denom_entries(self.denom, current, remainder),
    {
        set_amount(remainder, current, change);
        if remainder > self.denom {
            let mut next = current;
            next.n = next.n + 1;
            find_nickels(num + 1, remainder - self.denom, next, change);
            proof {
                assert(change@ =~= old(change)@ + denom_entries(
                    self.denom,
                    current,
                    remainder,
                ));
            }
        }
    }
}

} // verus!
