//! Recursion exercises over character vectors and a singly-linked list.

use vstd::prelude::*;

verus! {

/// A node of a singly-linked list.
#[derive(PartialEq, Eq, Debug)]
pub struct ListNode {
    pub val: i32,
    pub next: Option<Box<ListNode>>,
}

impl ListNode {
    #[inline]
    pub fn new(val: i32) -> (node: ListNode)
        ensures
            node.val == val,
            node.next is None,
    {
        ListNode { next: None, val }
    }
}

impl Clone for ListNode {
    /// A deep copy: the clone equals the original, node for node.
    fn clone(&self) -> (res: Self)
        ensures
            res == *self,
        decreases *self,
    {
        ListNode {
            val: self.val,
            next: match &self.next {
                None => None,
                Some(rest) => Some(Box::new((**rest).clone())),
            },
        }
    }
}

/// The values of a list, front to back.
pub open spec fn list_view(node: Option<Box<ListNode>>) -> Seq<i32>
    decreases node,
{
    match node {
        None => Seq::empty(),
        Some(n) => seq![n.val] + list_view(n.next),
    }
}

pub struct Solution {}

impl Solution {
    /// Reverses a character vector in place by swapping the ends and
    /// walking both indices toward the middle.
    pub fn reversed(s: &mut Vec<char>)
        ensures
            final(s)@.len() == old(s)@.len(),
            forall|i: int|
                0 <= i < old(s)@.len() ==> #[trigger] final(s)@[i] == old(s)@[old(s)@.len() - 1
                    - i],
    {
        let len = s.len();
        if len == 0 {
            return ;
        }
        let mut i: usize = 0;
        while i < len / 2
            invariant
                len == s@.len() == old(s)@.len(),
                i <= len / 2,
                forall|k: int|
                    0 <= k < i || len - i <= k < len ==> #[trigger] s@[k] == old(s)@[len - 1 - k],
                forall|k: int| i <= k < len - i ==> #[trigger] s@[k] == old(s)@[k],
            decreases len / 2 - i,
        {
            let swp = s[i];
            let other = s[len - 1 - i];
            s.set(i, other);
            s.set(len - 1 - i, swp);
            i = i + 1;
        }
    }

    /// Swaps every two adjacent nodes of a list. Only the empty list and
    /// the single node come back intact: a list of two or more nodes yields
    /// `None`, the pairwise rebuilding having never produced a new head.
    pub fn swap_head(head: Option<Box<ListNode>>) -> (swapped: Option<Box<ListNode>>)
        ensures
            list_view(head).len() <= 1 ==> swapped == head,
            list_view(head).len() >= 2 ==> swapped is None,
        decreases head,
    {
        match head {
            Some(h) => {
                proof {
                    assert(list_view(head) == seq![h.val] + list_view(h.next));
                }
                match h.next {
                    Some(next) => {
                        proof {
                            assert(list_view(h.next) == seq![next.val] + list_view(next.next));
                        }
                        let _swp = Self::swap_head(next.next);
                        None
                    },
                    None => {
                        proof {
                            assert(list_view(h.next) =~= Seq::<i32>::empty());
                        }
                        Some(h)
                    },
                }
            },
            None => head,
        }
    }
}

} // verus!
