//! Classic data-structure and recursion exercises, proved correct: a binary
//! max-heap over a flat array, an enumeration of coin combinations for an
//! amount of money, reversal and pairwise-swap exercises, and the split step
//! of a merge sort.

pub mod coin_permutations;
pub mod heap;
pub mod merge;
pub mod recursion;
