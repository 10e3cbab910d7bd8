use algolib::recursion::ListNode;
use algolib::recursion::Solution;

#[test]
fn test_reversed() {
    let mut test = vec!['r', 'a', 'd', 'a', 'r'];
    Solution::reversed(&mut test);
    println!("{:?}", test);

    test = vec!['t', 'o', 'n', 'e', 'r'];
    Solution::reversed(&mut test);
    println!("{:?}", test);
}

#[test]
fn test_swap_head() {
    let mut list = ListNode::new(1);
    let mut node2 = Box::new(ListNode::new(2));
    let mut node3 = Box::new(ListNode::new(3));
    let node4 = Box::new(ListNode::new(4));

    node3.next = Some(node4);
    node2.next = Some(node3);
    list.next = Some(node2);

    let nlist = Solution::swap_head(Some(Box::new(list)));
    println!("nlist is {:?}", nlist);
}

#[test]
fn reversed_exact_values() {
    let mut palindrome = vec!['r', 'a', 'd', 'a', 'r'];
    Solution::reversed(&mut palindrome);
    assert_eq!(palindrome, vec!['r', 'a', 'd', 'a', 'r']);

    let mut word = vec!['t', 'o', 'n', 'e', 'r'];
    Solution::reversed(&mut word);
    assert_eq!(word, vec!['r', 'e', 'n', 'o', 't']);

    let mut pair = vec!['o', 'n'];
    Solution::reversed(&mut pair);
    assert_eq!(pair, vec!['n', 'o']);

    let mut single = vec!['a'];
    Solution::reversed(&mut single);
    assert_eq!(single, vec!['a']);

    let mut empty: Vec<char> = vec![];
    Solution::reversed(&mut empty);
    assert_eq!(empty, vec![]);
}

#[test]
fn clone_copies_the_whole_list() {
    let mut list = ListNode::new(1);
    let mut node2 = Box::new(ListNode::new(2));
    let node3 = Box::new(ListNode::new(3));
    node2.next = Some(node3);
    list.next = Some(node2);

    let copy = list.clone();
    assert_eq!(copy, list);
    assert_eq!(copy.next.as_ref().unwrap().next.as_ref().unwrap().val, 3);
}

#[test]
fn swap_head_short_lists() {
    assert_eq!(Solution::swap_head(None), None);

    let single = Box::new(ListNode::new(9));
    let swapped = Solution::swap_head(Some(single));
    assert_eq!(swapped, Some(Box::new(ListNode::new(9))));

    let mut two = ListNode::new(1);
    two.next = Some(Box::new(ListNode::new(2)));
    assert_eq!(Solution::swap_head(Some(Box::new(two))), None);
}
