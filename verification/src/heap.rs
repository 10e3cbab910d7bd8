//! A binary max-heap over a flat indexed array.
//!
//! The heap owns a contiguous backing store of `i64` values arranged as an
//! implicit binary tree: the parent of index `i > 0` is `(i - 1) / 2`, and the
//! children of index `i` are `2*i + 1` and `2*i + 2`. After every public
//! operation the max-heap property holds: each node is greater than or equal
//! to each of its children. Insertion restores the property by floating the
//! new leaf up; extraction of the maximum moves the last element to the root
//! and sinks it down, always comparing against the larger child.

use vstd::multiset::Multiset;
use vstd::prelude::*;
use vstd::seq_lib::group_to_multiset_ensures;

verus! {

/// Error returned when the maximum of a heap with no elements is requested.
#[derive(Clone, Copy, Debug, PartialEq, Eq, Structural)]
pub struct EmptyHeapError;

/// Index of the parent of node `i` in the backing store, clamped at the root.
pub open spec fn parent_index(i: int) -> int {
    if i <= 0 {
        0
    } else {
        (i - 1) / 2
    }
}

/// Index of the left child of node `i`.
pub open spec fn left_child_index(i: int) -> int {
    2 * i + 1
}

/// Index of the right child of node `i`.
pub open spec fn right_child_index(i: int) -> int {
    2 * i + 2
}

/// The max-heap property: every node except the root is bounded by its parent.
pub open spec fn is_max_heap(s: Seq<i64>) -> bool {
    forall|i: int| 1 <= i < s.len() ==> s[parent_index(i)] >= #[trigger] s[i]
}

/// The max-heap property everywhere except possibly on the edge from
/// `parent_index(j)` to `j`.
pub open spec fn max_heap_except_at(s: Seq<i64>, j: int) -> bool {
    forall|i: int| 1 <= i < s.len() && i != j ==> s[parent_index(i)] >= #[trigger] s[i]
}

/// The max-heap property everywhere except possibly on the edges from `j`
/// down to its children.
pub open spec fn max_heap_except_below(s: Seq<i64>, j: int) -> bool {
    forall|i: int|
        1 <= i < s.len() && parent_index(i) != j ==> s[parent_index(i)] >= #[trigger] s[i]
}

/// When `j` is not the root, the parent of `j` bounds both children of `j`.
/// Restoration keeps this so that a swap across the weak edge cannot break
/// the property with the untouched relatives.
pub open spec fn parent_dominates_children_of(s: Seq<i64>, j: int) -> bool {
    j > 0 ==> forall|c: int|
        1 <= c < s.len() && parent_index(c) == j ==> s[parent_index(j)] >= #[trigger] s[c]
}

/// Whether `a` lies on the chain of parent edges from `i` up to the root,
/// `i` itself included.
pub open spec fn on_path_to_root(i: int, a: int) -> bool
    decreases i,
{
    if a == i {
        true
    } else if i <= 0 {
        false
    } else {
        on_path_to_root(parent_index(i), a)
    }
}

/// No valid child of `j` exceeds the value at `j`: the store at and below
/// `j` needs no sinking (vacuously so for a childless or out-of-range `j`).
pub open spec fn sink_done(s: Seq<i64>, j: int) -> bool {
    forall|c: int| 1 <= c < s.len() && parent_index(c) == j ==> s[j] >= #[trigger] s[c]
}

/// The index of the larger child of `j`: the right child on ties, the left
/// child when it is the only one.
pub open spec fn larger_child_index(s: Seq<i64>, j: int) -> int {
    if right_child_index(j) < s.len() && s[left_child_index(j)] > s[right_child_index(j)] {
        left_child_index(j)
    } else if right_child_index(j) < s.len() {
        right_child_index(j)
    } else {
        left_child_index(j)
    }
}

/// An index on the chain from `i` to the root never exceeds `i`.
proof fn lemma_on_path_le(i: int, a: int)
    requires
        on_path_to_root(i, a),
    ensures
        a <= i,
    decreases i,
{
    if a != i && i > 0 {
        lemma_parent_child(i);
        lemma_on_path_le(parent_index(i), a);
    }
}

/// The chain relation is transitive: a chain from `k` through `a` to the
/// root passes `b` whenever the chain from `a` does.
proof fn lemma_on_path_trans(k: int, a: int, b: int)
    requires
        on_path_to_root(k, a),
        on_path_to_root(a, b),
    ensures
        on_path_to_root(k, b),
    decreases k,
{
    if k != a && k > 0 {
        lemma_parent_child(k);
        lemma_on_path_trans(parent_index(k), a, b);
    }
}

/// A node of the implicit tree lies strictly above its children and the
/// parent arithmetic inverts the child arithmetic.
pub proof fn lemma_parent_child(i: int)
    requires
        i >= 1,
    ensures
        0 <= parent_index(i) < i,
        i == left_child_index(parent_index(i)) || i == right_child_index(parent_index(i)),
{
}

/// After swapping a node that exceeds its parent with that parent, the weak
/// edge moves up: the store is a max-heap except possibly at the parent, and
/// the grandparent still bounds the parent's new children.
proof fn lemma_float_step(s: Seq<i64>, pos: int)
    requires
        1 <= pos < s.len(),
        max_heap_except_at(s, pos),
        parent_dominates_children_of(s, pos),
        s[parent_index(pos)] < s[pos],
    ensures
        max_heap_except_at(
            s.update(parent_index(pos), s[pos]).update(pos, s[parent_index(pos)]),
            parent_index(pos),
        ),
        parent_dominates_children_of(
            s.update(parent_index(pos), s[pos]).update(pos, s[parent_index(pos)]),
            parent_index(pos),
        ),
{
    let p = parent_index(pos);
    let t = s.update(p, s[pos]).update(pos, s[p]);
    lemma_parent_child(pos);
    assert forall|i: int| 1 <= i < t.len() && i != p implies t[parent_index(i)] >= t[i] by {
        lemma_parent_child(i);
        if i == pos {
        } else if parent_index(i) == pos {
        } else if parent_index(i) == p {
        } else {
        }
    }
    if p > 0 {
        let pp = parent_index(p);
        lemma_parent_child(p);
        assert forall|c: int| 1 <= c < t.len() && parent_index(c) == p implies t[parent_index(p)]
            >= t[c] by {
            lemma_parent_child(c);
            if c == pos {
            } else {
            }
        }
    }
}

/// After swapping a subtree root with its larger child when that child
/// exceeds it, the weak edges move down: the store is a max-heap except
/// possibly below the child's old position, whose new children are still
/// bounded by its parent.
proof fn lemma_sink_step(s: Seq<i64>, j: int, c: int)
    requires
        0 <= j < c < s.len(),
        parent_index(c) == j,
        max_heap_except_below(s, j),
        parent_dominates_children_of(s, j),
        s[c] > s[j],
        forall|k: int| 1 <= k < s.len() && parent_index(k) == j ==> s[c] >= #[trigger] s[k],
    ensures
        max_heap_except_below(s.update(j, s[c]).update(c, s[j]), c),
        parent_dominates_children_of(s.update(j, s[c]).update(c, s[j]), c),
{
    let t = s.update(j, s[c]).update(c, s[j]);
    lemma_parent_child(c);
    assert forall|i: int| 1 <= i < t.len() && parent_index(i) != c implies t[parent_index(i)]
        >= t[i] by {
        lemma_parent_child(i);
        if i == c {
        } else if i == j {
            lemma_parent_child(j);
        } else if parent_index(i) == j {
        } else {
        }
    }
    assert forall|k: int| 1 <= k < t.len() && parent_index(k) == c implies t[parent_index(c)]
        >= t[k] by {
        lemma_parent_child(k);
    }
}

/// Both children of every node are bounded by it, stated over the child
/// index arithmetic.
pub open spec fn children_bounded(s: Seq<i64>) -> bool {
    &&& forall|i: int|
        0 <= i < s.len() && left_child_index(i) < s.len() ==> s[i] >= #[trigger] s[left_child_index(
            i,
        )]
    &&& forall|i: int|
        0 <= i < s.len() && right_child_index(i) < s.len() ==> s[i]
            >= #[trigger] s[right_child_index(i)]
}

/// The parent-edge form of the max-heap property coincides with the
/// child-edge form: every node with a valid child bounds that child.
pub proof fn lemma_heap_forms(s: Seq<i64>)
    ensures
        is_max_heap(s) <==> children_bounded(s),
{
    if is_max_heap(s) {
        assert forall|i: int|
            0 <= i < s.len() && left_child_index(i) < s.len() implies s[i]
            >= #[trigger] s[left_child_index(i)] by {
            lemma_parent_child(left_child_index(i));
        }
        assert forall|i: int|
            0 <= i < s.len() && right_child_index(i) < s.len() implies s[i]
            >= #[trigger] s[right_child_index(i)] by {
            lemma_parent_child(right_child_index(i));
        }
    }
    if children_bounded(s) {
        assert forall|i: int| 1 <= i < s.len() implies s[parent_index(i)] >= #[trigger] s[i] by {
            lemma_parent_child(i);
        }
    }
}

/// In a max-heap every element is bounded by the root: the chain of parent
/// edges from any node ends at index 0.
pub proof fn lemma_root_is_max(s: Seq<i64>)
    requires
        is_max_heap(s),
    ensures
        forall|i: int| 0 <= i < s.len() ==> #[trigger] s[i] <= s[0],
{
    assert forall|i: int| 0 <= i < s.len() implies #[trigger] s[i] <= s[0] by {
        lemma_bounded_by_root(s, i);
    }
}

proof fn lemma_bounded_by_root(s: Seq<i64>, i: int)
    requires
        is_max_heap(s),
        0 <= i < s.len(),
    ensures
        s[i] <= s[0],
    decreases i,
{
    if i > 0 {
        lemma_parent_child(i);
        lemma_bounded_by_root(s, parent_index(i));
    }
}

#[derive(Debug)]
pub struct Heap {
    pub heap: Vec<i64>,
}

impl Heap {
    /// The heap is well formed when the max-heap property holds on its store.
    pub open spec fn wf(self) -> bool {
        is_max_heap(self.heap@)
    }

    /// Current element count.
    pub fn len(&self) -> (n: usize)
        ensures
            n == self.heap@.len(),
    {
        self.heap.len()
    }

    /// Helper: gets the value of a node from a given position.
    fn get_val(&self, i: usize) -> (r: (usize, i64))
        requires
            i < self.heap@.len(),
        ensures
            r.0 == i,
            r.1 == self.heap@[i as int],
    {
        (i, self.heap[i])
    }

    /// Helper: finds the parent of an element; the root is its own parent.
    fn get_parent(&self, i: usize) -> (r: (usize, i64))
        requires
            i < self.heap@.len(),
        ensures
            r.0 == parent_index(i as int),
            r.1 == self.heap@[r.0 as int],
    {
        if i == 0 {
            return self.get_val(i);
        }
        let parent_node = (i - 1) / 2;
        self.get_val(parent_node)
    }

    /// Helper: finds the children for a given position, left child first.
    pub fn get_children(&self, i: usize) -> (kids: Vec<(usize, i64)>)
        requires
            i < self.heap@.len(),
        ensures
            right_child_index(i as int) < self.heap@.len() ==> kids@ == seq![
                ((2 * i + 1) as usize, self.heap@[left_child_index(i as int)]),
                ((2 * i + 2) as usize, self.heap@[right_child_index(i as int)]),
            ],
            left_child_index(i as int) < self.heap@.len() <= right_child_index(i as int)
                ==> kids@ == seq![((2 * i + 1) as usize, self.heap@[left_child_index(i as int)])],
            self.heap@.len() <= left_child_index(i as int) ==> kids@ == Seq::<(
                usize,
                i64,
            )>::empty(),
    {
        let len = self.heap.len();
        let mut kids: Vec<(usize, i64)> = Vec::new();
        if len - i > i + 1 {
            let l = 2 * i + 1;
            kids.push((l, self.heap[l]));
            if len - i > i + 2 {
                let r = 2 * i + 2;
                kids.push((r, self.heap[r]));
            }
        }
        kids
    }

    /// Helper: returns a pair of tuples representing parent and child.
    fn pair_up(&mut self, child: usize) -> (pair: ((usize, i64), (usize, i64)))
        requires
            child < old(self).heap@.len(),
        ensures
            *final(self) == *old(self),
            pair.0.0 == parent_index(child as int),
            pair.0.1 == old(self).heap@[pair.0.0 as int],
            pair.1 == (child, old(self).heap@[child as int]),
    {
        let par = self.get_parent(child);
        let ctup = self.get_val(child);
        (par, ctup)
    }

    /// Helper: returns the node at a position together with its children.
    fn pair_down(&mut self, parent: usize) -> (pair: ((usize, i64), Vec<(usize, i64)>))
        requires
            parent < old(self).heap@.len(),
        ensures
            *final(self) == *old(self),
            pair.0 == (parent, old(self).heap@[parent as int]),
            right_child_index(parent as int) < old(self).heap@.len() ==> pair.1@ == seq![
                ((2 * parent + 1) as usize, old(self).heap@[left_child_index(parent as int)]),
                ((2 * parent + 2) as usize, old(self).heap@[right_child_index(parent as int)]),
            ],
            left_child_index(parent as int) < old(self).heap@.len() <= right_child_index(
                parent as int,
            ) ==> pair.1@ == seq![
                ((2 * parent + 1) as usize, old(self).heap@[left_child_index(parent as int)]),
            ],
            old(self).heap@.len() <= left_child_index(parent as int) ==> pair.1@ == Seq::<(
                usize,
                i64,
            )>::empty(),
    {
        let par = self.get_val(parent);
        let kids = self.get_children(parent);
        (par, kids)
    }

    /// Swaps the values at the two positions when the target value exceeds
    /// the source value; reports whether the swap happened.
    fn swap_fn(&mut self, source: (usize, i64), target: (usize, i64)) -> (swapped: bool)
        requires
            source.0 < old(self).heap@.len(),
            target.0 < old(self).heap@.len(),
            old(self).heap@[source.0 as int] == source.1,
            old(self).heap@[target.0 as int] == target.1,
        ensures
            swapped == (target.1 > source.1),
            swapped ==> final(self).heap@ == old(self).heap@.update(
                source.0 as int,
                target.1,
            ).update(target.0 as int, source.1),
            !swapped ==> *final(self) == *old(self),
            final(self).heap@.len() == old(self).heap@.len(),
            final(self).heap@.to_multiset() == old(self).heap@.to_multiset(),
    {
        if target.1 > source.1 {
            self.heap.set(source.0, target.1);
            self.heap.set(target.0, source.1);
            proof {
                broadcast use group_to_multiset_ensures;

                let s = old(self).heap@;
                assert(s.contains(source.1));
                assert(s.update(source.0 as int, target.1).contains(target.1)) by {
                    assert(s.update(source.0 as int, target.1)[source.0 as int] == target.1);
                }
                assert(self.heap@.to_multiset() =~= s.to_multiset());
            }
            true
        } else {
            false
        }
    }

    /// Checks if a newly placed node should replace its parent, moving it
    /// toward the root until the parent bounds it.
    fn float_up(&mut self, pos: usize)
        requires
            pos < old(self).heap@.len(),
            max_heap_except_at(old(self).heap@, pos as int),
            parent_dominates_children_of(old(self).heap@, pos as int),
        ensures
            final(self).wf(),
            final(self).heap@.len() == old(self).heap@.len(),
            final(self).heap@.to_multiset() == old(self).heap@.to_multiset(),
            forall|k: int|
                0 <= k < old(self).heap@.len() && !on_path_to_root(pos as int, k)
                    ==> #[trigger] final(self).heap@[k] == old(self).heap@[k],
        decreases pos,
    {
        if pos == 0 {
            return ;
        }
        let (parent, child) = self.pair_up(pos);
        proof {
            lemma_parent_child(pos as int);
        }
        let swapped = self.swap_fn(parent, child);
        if swapped {
            proof {
                lemma_float_step(old(self).heap@, pos as int);
            }
            self.float_up(parent.0);
            proof {
                assert forall|k: int|
                    0 <= k < old(self).heap@.len() && !on_path_to_root(pos as int, k)
                        implies #[trigger] self.heap@[k] == old(self).heap@[k] by {
                    assert(k != pos as int);
                    assert(!on_path_to_root(parent.0 as int, k));
                    assert(on_path_to_root(parent.0 as int, parent.0 as int));
                    assert(k != parent.0 as int);
                }
            }
        } else {
            // The parent already bounds the node, so the one weak edge holds.
            proof {
                assert forall|i: int|
                    1 <= i < self.heap@.len() implies self.heap@[parent_index(i)]
                    >= self.heap@[i] by {
                    if i != pos {
                        assert(max_heap_except_at(self.heap@, pos as int));
                    }
                }
            }
        }
    }

    /// Restores the max-heap property at a subtree root whose children may
    /// exceed it, sinking the value along the larger child. When no valid
    /// child exceeds the node — in particular for a childless or
    /// out-of-range position — the store is left untouched; otherwise the
    /// node's slot receives the larger child's old value, and nothing
    /// outside the node's subtree moves.
    #[verifier::rlimit(50)]
    fn sink_down(&mut self, ppos: usize)
        requires
            max_heap_except_below(old(self).heap@, ppos as int),
            parent_dominates_children_of(old(self).heap@, ppos as int),
        ensures
            final(self).wf(),
            final(self).heap@.len() == old(self).heap@.len(),
            final(self).heap@.to_multiset() == old(self).heap@.to_multiset(),
            sink_done(old(self).heap@, ppos as int) ==> *final(self) == *old(self),
            !sink_done(old(self).heap@, ppos as int) ==> final(self).heap@[ppos as int] == old(
                self,
            ).heap@[larger_child_index(old(self).heap@, ppos as int)],
            forall|k: int|
                0 <= k < old(self).heap@.len() && !on_path_to_root(k, ppos as int)
                    ==> #[trigger] final(self).heap@[k] == old(self).heap@[k],
        decreases old(self).heap@.len() - ppos,
    {
        if ppos >= self.heap.len() {
            proof {
                assert forall|i: int|
                    1 <= i < self.heap@.len() implies self.heap@[parent_index(i)]
                    >= self.heap@[i] by {
                    lemma_parent_child(i);
                }
                assert forall|c: int|
                    1 <= c < self.heap@.len() && parent_index(c) == ppos as int
                        implies self.heap@[ppos as int] >= #[trigger] self.heap@[c] by {
                    lemma_parent_child(c);
                }
            }
            return ;
        }
        let (ppar, children) = self.pair_down(ppos);
        if children.len() == 0 {
            proof {
                assert(self.heap@.len() <= left_child_index(ppos as int));
                assert forall|i: int|
                    1 <= i < self.heap@.len() implies self.heap@[parent_index(i)]
                    >= self.heap@[i] by {
                    lemma_parent_child(i);
                }
                assert forall|c: int|
                    1 <= c < self.heap@.len() && parent_index(c) == ppos as int
                        implies self.heap@[ppos as int] >= #[trigger] self.heap@[c] by {
                    lemma_parent_child(c);
                }
            }
            return ;
        }
        let cand: (usize, i64) = if children.len() == 1 {
            children[0]
        } else {
            let child1 = children[0];
            let child2 = children[1];
            if child1.1 > child2.1 {
                child1
            } else {
                child2
            }
        };
        proof {
            assert forall|k: int|
                1 <= k < self.heap@.len() && parent_index(k) == ppos implies cand.1
                >= #[trigger] self.heap@[k] by {
                lemma_parent_child(k);
            }
        }
        let swapped = self.swap_fn(ppar, cand);
        if swapped {
            proof {
                lemma_sink_step(old(self).heap@, ppos as int, cand.0 as int);
            }
            self.sink_down(cand.0);
            proof {
                lemma_parent_child(cand.0 as int);
                assert(parent_index(cand.0 as int) == ppos as int);
                assert(!sink_done(old(self).heap@, ppos as int)) by {
                    assert(old(self).heap@[cand.0 as int] == cand.1);
                    assert(cand.1 > old(self).heap@[ppos as int]);
                }
                assert(cand.0 as int == larger_child_index(old(self).heap@, ppos as int));
                assert(!on_path_to_root(ppos as int, cand.0 as int)) by {
                    if on_path_to_root(ppos as int, cand.0 as int) {
                        lemma_on_path_le(ppos as int, cand.0 as int);
                    }
                }
                assert(self.heap@[ppos as int] == cand.1);
                assert(on_path_to_root(ppos as int, ppos as int));
                assert(on_path_to_root(cand.0 as int, ppos as int));
                assert forall|k: int|
                    0 <= k < old(self).heap@.len() && !on_path_to_root(k, ppos as int)
                        implies #[trigger] self.heap@[k] == old(self).heap@[k] by {
                    if on_path_to_root(k, cand.0 as int) {
                        lemma_on_path_trans(k, cand.0 as int, ppos as int);
                    }
                    assert(k != ppos as int);
                    assert(k != cand.0 as int);
                }
            }
        } else {
            // The subtree root already bounds its larger child, hence both.
            proof {
                assert forall|i: int|
                    1 <= i < self.heap@.len() implies self.heap@[parent_index(i)]
                    >= self.heap@[i] by {
                    if parent_index(i) != ppos {
                        assert(max_heap_except_below(self.heap@, ppos as int));
                    }
                }
                assert(sink_done(self.heap@, ppos as int)) by {
                    assert(is_max_heap(self.heap@));
                }
            }
        }
    }

    /// Appends the value at the end of the backing store and floats it up.
    /// The count grows by exactly one and no other element is gained or lost.
    pub fn insert(&mut self, value: i64)
        requires
            old(self).wf(),
        ensures
            final(self).wf(),
            final(self).heap@.len() == old(self).heap@.len() + 1,
            final(self).heap@.to_multiset() == old(self).heap@.to_multiset().insert(value),
    {
        let pos = self.heap.len();
        self.heap.push(value);
        proof {
            broadcast use group_to_multiset_ensures;

            let s = old(self).heap@;
            let t = self.heap@;
            assert(max_heap_except_at(t, pos as int)) by {
                assert forall|i: int|
                    1 <= i < t.len() && i != pos as int implies t[parent_index(i)]
                    >= #[trigger] t[i] by {
                    lemma_parent_child(i);
                }
            }
            assert(parent_dominates_children_of(t, pos as int)) by {
                assert forall|c: int|
                    1 <= c < t.len() && parent_index(c) == pos as int implies t[parent_index(
                    pos as int,
                )] >= #[trigger] t[c] by {
                    lemma_parent_child(c);
                }
            }
        }
        self.float_up(pos);
    }

    /// Adds a value to the heap; the same operation as `insert`.
    pub fn add(&mut self, val: i64)
        requires
            old(self).wf(),
        ensures
            final(self).wf(),
            final(self).heap@.len() == old(self).heap@.len() + 1,
            final(self).heap@.to_multiset() == old(self).heap@.to_multiset().insert(val),
    {
        self.insert(val);
    }

    /// Builds a valid heap from an arbitrary initial sequence by inserting
    /// its elements one at a time, restoring the invariant after each one.
    pub fn new(t: Vec<i64>) -> (h: Heap)
        ensures
            h.wf(),
            h.heap@.len() == t@.len(),
            h.heap@.to_multiset() == t@.to_multiset(),
    {
        let mut h = Heap { heap: Vec::new() };
        let n = t.len();
        proof {
            assert(t@.subrange(0, 0) =~= h.heap@);
        }
        let mut idx: usize = 0;
        while idx < n
            invariant
                h.wf(),
                idx <= n == t@.len(),
                h.heap@.len() == idx,
                h.heap@.to_multiset() == t@.subrange(0, idx as int).to_multiset(),
            decreases n - idx,
        {
            h.insert(t[idx]);
            proof {
                broadcast use group_to_multiset_ensures;

                assert(t@.subrange(0, idx + 1) =~= t@.subrange(0, idx as int).push(
                    t@[idx as int],
                ));
            }
            idx = idx + 1;
        }
        proof {
            assert(t@.subrange(0, n as int) =~= t@);
        }
        h
    }

    /// Removes and returns the maximum: the root is recorded, the last
    /// element moves into its place, and the shortened store is restored by
    /// sinking the moved element down.
    pub fn remove(&mut self) -> (head: i64)
        requires
            old(self).wf(),
            old(self).heap@.len() > 0,
        ensures
            head == old(self).heap@[0],
            forall|i: int| 0 <= i < old(self).heap@.len() ==> #[trigger] old(self).heap@[i]
                <= head,
            forall|i: int| 0 <= i < final(self).heap@.len() ==> #[trigger] final(self).heap@[i]
                <= head,
            final(self).wf(),
            final(self).heap@.len() == old(self).heap@.len() - 1,
            final(self).heap@.to_multiset() == old(self).heap@.to_multiset().remove(head),
    {
        proof {
            lemma_root_is_max(self.heap@);
        }
        let head = self.heap[0];
        let n = self.heap.len();
        if n > 1 {
            let last = match self.heap.pop() {
                Some(v) => v,
                None => head,
            };
            self.heap.set(0, last);
            proof {
                broadcast use group_to_multiset_ensures;

                let s = old(self).heap@;
                let s1 = s.subrange(0, s.len() - 1);
                assert(s =~= s1.push(last));
                assert(s.to_multiset() == s1.to_multiset().insert(last));
                assert(self.heap@ == s1.update(0, last));
                assert(s1.update(0, last).to_multiset() == s1.to_multiset().insert(last).remove(
                    s1[0],
                ));
                assert(is_max_heap(s1)) by {
                    assert forall|i: int|
                        1 <= i < s1.len() implies s1[parent_index(i)] >= #[trigger] s1[i] by {
                        lemma_parent_child(i);
                    }
                }
                assert(max_heap_except_below(self.heap@, 0)) by {
                    assert forall|i: int|
                        1 <= i < self.heap@.len() && parent_index(i) != 0 implies self.heap@[parent_index(
                        i,
                    )] >= #[trigger] self.heap@[i] by {
                        lemma_parent_child(i);
                    }
                }
            }
            self.sink_down(0);
        } else {
            let _ = self.heap.pop();
            proof {
                broadcast use group_to_multiset_ensures;

                let s = old(self).heap@;
                assert(self.heap@ =~= Seq::<i64>::empty());
                assert(s =~= Seq::<i64>::empty().push(head));
                assert(s.to_multiset() == Seq::<i64>::empty().to_multiset().insert(head));
                assert(!Seq::<i64>::empty().contains(head));
                assert(self.heap@.to_multiset() =~= s.to_multiset().remove(head));
            }
        }
        proof {
            broadcast use group_to_multiset_ensures;

            assert forall|i: int| 0 <= i < self.heap@.len() implies #[trigger] self.heap@[i]
                <= head by {
                let v = self.heap@[i];
                assert(self.heap@.contains(v));
                assert(self.heap@.to_multiset().count(v) > 0);
                assert(old(self).heap@.to_multiset().count(v) > 0);
                assert(old(self).heap@.contains(v));
                let k = choose|k: int|
                    0 <= k < old(self).heap@.len() && old(self).heap@[k] == v;
                assert(old(self).heap@[k] <= head);
            }
        }
        head
    }

    /// Removes and returns the maximum, or reports `EmptyHeapError` on a
    /// heap with no elements, which is left unchanged.
    pub fn extract_max(&mut self) -> (r: Result<i64, EmptyHeapError>)
        requires
            old(self).wf(),
        ensures
            old(self).heap@.len() == 0 ==> r == Err::<i64, EmptyHeapError>(EmptyHeapError)
                && *final(self) == *old(self),
            old(self).heap@.len() > 0 ==> {
                &&& r == Ok::<i64, EmptyHeapError>(old(self).heap@[0])
                &&& forall|i: int| 0 <= i < old(self).heap@.len() ==> #[trigger] old(
                    self,
                ).heap@[i] <= old(self).heap@[0]
                &&& final(self).heap@.len() == old(self).heap@.len() - 1
                &&& final(self).heap@.to_multiset() == old(self).heap@.to_multiset().remove(
                    old(self).heap@[0],
                )
                &&& forall|i: int|
                    0 <= i < final(self).heap@.len() ==> #[trigger] final(self).heap@[i] <= old(
                        self,
                    ).heap@[0]
            },
            final(self).wf(),
    {
        if self.heap.len() == 0 {
            Err(EmptyHeapError)
        } else {
            Ok(self.remove())
        }
    }

    /// Returns the current maximum without mutating the store, or `None` on
    /// a heap with no elements.
    pub fn peek(&self) -> (r: Option<i64>)
        requires
            self.wf(),
        ensures
            self.heap@.len() == 0 ==> r is None,
            self.heap@.len() > 0 ==> {
                &&& r == Some(self.heap@[0])
                &&& forall|i: int| 0 <= i < self.heap@.len() ==> #[trigger] self.heap@[i]
                    <= self.heap@[0]
            },
    {
        if self.heap.len() == 0 {
            None
        } else {
            proof {
                lemma_root_is_max(self.heap@);
            }
            Some(self.heap[0])
        }
    }
}

impl Default for Heap {
    fn default() -> (h: Heap)
        ensures
            h.heap@ == Seq::<i64>::empty(),
            h.wf(),
    {
        Heap { heap: Vec::new() }
    }
}

/// A sequence whose elements never grow from left to right.
pub open spec fn non_increasing(s: Seq<i64>) -> bool {
    forall|i: int, j: int| 0 <= i <= j < s.len() ==> #[trigger] s[i] >= #[trigger] s[j]
}

/// One extraction of the maximum, as `extract_max` relates the store before
/// the call, the returned value and the store after the call.
pub open spec fn extraction_step(pre: Seq<i64>, r: i64, post: Seq<i64>) -> bool {
    &&& pre.len() > 0
    &&& r == pre[0]
    &&& post.len() == pre.len() - 1
    &&& post.to_multiset() == pre.to_multiset().remove(r)
    &&& is_max_heap(post)
}

/// A run of consecutive extractions from `pre`, returning `results` in
/// order and leaving `post`.
pub open spec fn extraction_chain(pre: Seq<i64>, results: Seq<i64>, post: Seq<i64>) -> bool
    decreases results.len(),
{
    if results.len() == 0 {
        post == pre
    } else {
        exists|mid: Seq<i64>|
            #[trigger] extraction_step(pre, results[0], mid) && extraction_chain(
                mid,
                results.drop_first(),
                post,
            )
    }
}

/// Repeatedly extracting the maximum from a well-formed heap yields its
/// elements in non-increasing order, and the extracted values together with
/// the leftover store are exactly the elements the heap started with. In
/// particular, a run that drains the heap sorts its contents descending.
pub proof fn lemma_extraction_sorted(pre: Seq<i64>, results: Seq<i64>, post: Seq<i64>)
    requires
        is_max_heap(pre),
        extraction_chain(pre, results, post),
    ensures
        non_increasing(results),
        results.to_multiset().add(post.to_multiset()) == pre.to_multiset(),
    decreases results.len(),
{
    broadcast use group_to_multiset_ensures;

    if results.len() == 0 {
        assert(results.to_multiset() =~= Multiset::<i64>::empty());
        assert(results.to_multiset().add(post.to_multiset()) =~= pre.to_multiset());
    } else {
        let r0 = results[0];
        let rest = results.drop_first();
        let mid = choose|mid: Seq<i64>|
            #[trigger] extraction_step(pre, r0, mid) && extraction_chain(mid, rest, post);
        lemma_root_is_max(pre);
        lemma_extraction_sorted(mid, rest, post);
        assert(results =~= rest.insert(0, r0));
        assert(rest.insert(0, r0).to_multiset() == rest.to_multiset().insert(r0));
        assert(pre.contains(pre[0]));
        assert(pre.to_multiset().count(r0) > 0);
        assert(extraction_step(pre, r0, mid));
        assert(mid.to_multiset() == pre.to_multiset().remove(r0));
        assert forall|v: i64|
            results.to_multiset().add(post.to_multiset()).count(v) == pre.to_multiset().count(
                v,
            ) by {
            assert(results.to_multiset().count(v) == rest.to_multiset().count(v) + if v == r0 {
                1int
            } else {
                0int
            });
            assert(rest.to_multiset().count(v) + post.to_multiset().count(v)
                == mid.to_multiset().count(v));
            assert(mid.to_multiset().count(v) == pre.to_multiset().count(v) - if v == r0 {
                1int
            } else {
                0int
            });
        }
        assert(results.to_multiset().add(post.to_multiset()) =~= pre.to_multiset());
        assert forall|i: int, j: int|
            0 <= i <= j < results.len() implies #[trigger] results[i] >= #[trigger] results[j] by {
            if i == 0 && j > 0 {
                let v = results[j];
                assert(rest[j - 1] == v);
                assert(rest.contains(v));
                assert(rest.to_multiset().count(v) > 0);
                assert(mid.to_multiset().count(v) > 0);
                assert(mid.contains(v));
                assert(pre.to_multiset().count(v) > 0);
                assert(pre.contains(v));
                let k = choose|k: int| 0 <= k < pre.len() && pre[k] == v;
                assert(pre[k] <= pre[0]);
            } else if i > 0 {
                assert(rest[i - 1] >= rest[j - 1]);
            }
        }
    }
}

} // verus!
