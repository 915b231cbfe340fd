use s2d2::geometry::Coordinate;
use s2d2::quad_tree::{Entry, Node, Range};

fn range(x0: i64, y0: i64, x1: i64, y1: i64) -> Range {
    Range { min: Coordinate::new(x0, y0), max: Coordinate::new(x1, y1) }
}

fn entry(x: i64, y: i64, data: u32) -> Entry<u32> {
    Entry { coordinate: Coordinate::new(x, y), data }
}

fn found(node: &Node<u32>, q: &Range) -> Vec<(i64, i64, u32)> {
    let mut v: Vec<(i64, i64, u32)> = match node.get(q) {
        None => Vec::new(),
        Some(es) => es.iter().map(|e| (e.coordinate.x, e.coordinate.y, e.data)).collect(),
    };
    v.sort();
    v
}

#[test]
fn range_contains_and_intersects() {
    let r = range(0, 0, 10, 10);
    assert!(r.contains(&Coordinate::new(10, 0)));
    assert!(!r.contains(&Coordinate::new(11, 0)));
    assert!(r.intersects(&range(10, 10, 12, 12)));
    assert!(!r.intersects(&range(11, 0, 12, 12)));
}

#[test]
fn empty_tree_finds_nothing() {
    let tree: Node<u32> = Node::new(4, range(0, 0, 100, 100));
    assert!(tree.get(&range(0, 0, 100, 100)).is_none());
}

#[test]
fn inserted_entries_are_found_in_a_query() {
    let mut tree: Node<u32> = Node::new(4, range(0, 0, 100, 100));
    assert!(tree.insert(&entry(10, 10, 1)));
    assert!(tree.insert(&entry(90, 90, 2)));
    assert_eq!(found(&tree, &range(0, 0, 50, 50)), vec![(10, 10, 1)]);
    assert_eq!(found(&tree, &range(0, 0, 100, 100)), vec![(10, 10, 1), (90, 90, 2)]);
    assert!(tree.get(&range(40, 40, 60, 60)).is_none());
}

#[test]
fn entry_outside_the_range_is_not_stored() {
    let mut tree: Node<u32> = Node::new(4, range(0, 0, 100, 100));
    assert!(!tree.insert(&entry(101, 5, 1)));
    assert!(tree.get(&range(0, 0, 200, 200)).is_none());
}

#[test]
fn a_full_node_splits_and_keeps_every_entry() {
    let mut tree: Node<u32> = Node::new(2, range(0, 0, 100, 100));
    let points = [(1, 1), (99, 1), (1, 99), (99, 99), (50, 50), (51, 51), (25, 75)];
    for (i, (x, y)) in points.iter().enumerate() {
        assert!(tree.insert(&entry(*x, *y, i as u32)));
    }
    let mut expected: Vec<(i64, i64, u32)> =
        points.iter().enumerate().map(|(i, (x, y))| (*x, *y, i as u32)).collect();
    expected.sort();
    assert_eq!(found(&tree, &range(0, 0, 100, 100)), expected);
    assert_eq!(found(&tree, &range(50, 50, 51, 51)), vec![(50, 50, 4), (51, 51, 5)]);
}

#[test]
fn update_replaces_the_data_at_a_point() {
    let mut tree: Node<u32> = Node::new(2, range(0, 0, 100, 100));
    tree.insert(&entry(5, 5, 1));
    tree.insert(&entry(70, 70, 2));
    tree.insert(&entry(30, 80, 3));
    assert!(tree.update(&entry(70, 70, 20)));
    assert_eq!(found(&tree, &range(0, 0, 100, 100)), vec![(5, 5, 1), (30, 80, 3), (70, 70, 20)]);
    assert!(!tree.update(&entry(6, 6, 9)));
    assert_eq!(found(&tree, &range(0, 0, 100, 100)), vec![(5, 5, 1), (30, 80, 3), (70, 70, 20)]);
}

#[test]
fn two_entries_at_one_point_both_stay() {
    let mut tree: Node<u32> = Node::new(2, range(0, 0, 100, 100));
    tree.insert(&entry(5, 5, 1));
    tree.insert(&entry(5, 5, 2));
    assert_eq!(found(&tree, &range(5, 5, 5, 5)), vec![(5, 5, 1), (5, 5, 2)]);
}

fn entry_c(x: i64, y: i64, data: char) -> Entry<char> {
    Entry { coordinate: Coordinate::new(x, y), data }
}

fn listed(node: &Node<char>, q: &Range) -> Option<Vec<(i64, i64, char)>> {
    node.get(q).map(|es| es.iter().map(|e| (e.coordinate.x, e.coordinate.y, e.data)).collect())
}

#[test]
fn a_split_hands_each_entry_to_its_quadrant() {
    let mut tree: Node<char> = Node::new(1, range(0, 0, 3, 3));
    assert!(tree.insert(&entry_c(3, 3, 'a')));
    // The second entry splits the full leaf: (3, 3) goes to the bottom-right
    // quadrant, (0, 0) to the top-left one.
    assert!(tree.insert(&entry_c(0, 0, 'b')));
    assert_eq!(listed(&tree, &range(2, 2, 3, 3)), Some(vec![(3, 3, 'a')]));
    assert_eq!(listed(&tree, &range(0, 0, 1, 1)), Some(vec![(0, 0, 'b')]));
    assert_eq!(listed(&tree, &range(2, 0, 3, 1)), None);
    assert_eq!(listed(&tree, &range(0, 2, 1, 3)), None);
}

#[test]
fn query_lists_quadrants_in_order() {
    let mut tree: Node<char> = Node::new(1, range(0, 0, 3, 3));
    assert!(tree.insert(&entry_c(0, 0, 'a')));
    assert!(tree.insert(&entry_c(3, 3, 'b')));
    assert!(tree.insert(&entry_c(1, 2, 'c')));
    assert_eq!(listed(&tree, &range(0, 0, 1, 3)), Some(vec![(0, 0, 'a'), (1, 2, 'c')]));
    assert_eq!(listed(&tree, &range(0, 0, 3, 3)), Some(vec![(0, 0, 'a'), (1, 2, 'c'), (3, 3, 'b')]));
    assert_eq!(listed(&tree, &range(2, 2, 2, 2)), None);
    assert_eq!(listed(&tree, &range(5, 5, 9, 9)), None);
}

#[test]
fn entries_of_a_leaf_keep_their_insertion_order() {
    let mut tree: Node<char> = Node::new(3, range(0, 0, 9, 9));
    assert!(tree.insert(&entry_c(9, 9, 'x')));
    assert!(tree.insert(&entry_c(0, 0, 'y')));
    assert!(tree.insert(&entry_c(5, 5, 'z')));
    assert_eq!(listed(&tree, &range(0, 0, 9, 9)), Some(vec![(9, 9, 'x'), (0, 0, 'y'), (5, 5, 'z')]));
}
