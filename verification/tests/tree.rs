use lusid::tree::{FlatTree, FlatTreeError, FlatTreeNode, Tree};

fn leaf(node: u32) -> Tree<u32, &'static str> {
    Tree::leaf("", node)
}

fn sample() -> Tree<u32, &'static str> {
    Tree::branch(
        "root",
        vec![
            leaf(1),
            Tree::branch("inner", vec![leaf(2), leaf(3)]),
            leaf(4),
        ],
    )
}

fn show<N: std::fmt::Debug, M: std::fmt::Debug>(tree: &Tree<N, M>) -> String {
    format!("{:?}", tree)
}

#[test]
fn leaf_and_branch_are_told_apart() {
    assert!(leaf(1).is_leaf());
    assert!(!leaf(1).is_branch());
    assert!(sample().is_branch());
    assert!(!sample().is_leaf());
}

#[test]
fn a_branch_without_leaves_is_empty() {
    let empty: Tree<u32, &str> = Tree::branch("a", vec![Tree::branch("b", vec![])]);
    assert!(empty.is_empty());
    assert!(!sample().is_empty());
    assert!(!leaf(7).is_empty());
    let bare: Tree<u32, &str> = Tree::branch("a", vec![]);
    assert!(bare.is_empty());
}

#[test]
fn map_keeps_the_shape() {
    let mapped = sample().map(|n| n * 10);
    let expected: Tree<u32, &str> = Tree::branch(
        "root",
        vec![
            Tree::leaf("", 10),
            Tree::branch("inner", vec![Tree::leaf("", 20), Tree::leaf("", 30)]),
            Tree::leaf("", 40),
        ],
    );
    assert_eq!(show(&mapped), show(&expected));
}

#[test]
fn map_meta_keeps_the_leaves() {
    let mapped = sample().map_meta(|m| m.len());
    let expected: Tree<u32, usize> = Tree::branch(
        4,
        vec![
            Tree::leaf(0, 1),
            Tree::branch(5, vec![Tree::leaf(0, 2), Tree::leaf(0, 3)]),
            Tree::leaf(0, 4),
        ],
    );
    assert_eq!(show(&mapped), show(&expected));
}

#[test]
fn flattening_puts_the_root_first() {
    let flat = FlatTree::from(sample());
    assert_eq!(FlatTree::<u32, &str>::root_index(), 0);
    assert_eq!(flat.len(), 6);
    assert!(!flat.is_empty());
    match flat.root() {
        Some(FlatTreeNode::Branch { meta, children }) => {
            assert_eq!(*meta, "root");
            assert_eq!(children, &vec![1, 2, 5]);
        }
        other => panic!("unexpected root {:?}", other),
    }
    match flat.get(2) {
        Ok(FlatTreeNode::Branch { meta, children }) => {
            assert_eq!(*meta, "inner");
            assert_eq!(children, &vec![3, 4]);
        }
        other => panic!("unexpected node {:?}", other),
    }
    match flat.get(4) {
        Ok(FlatTreeNode::Leaf { node, .. }) => assert_eq!(*node, 3),
        other => panic!("unexpected node {:?}", other),
    }
}

#[test]
fn flatten_then_rebuild_gives_the_tree_back() {
    let flat = FlatTree::from(sample());
    let back: Tree<u32, &str> = Tree::from(flat);
    assert_eq!(show(&back), show(&sample()));
    let single: Tree<u32, &str> = Tree::from(FlatTree::from(leaf(9)));
    assert_eq!(show(&single), show(&leaf(9)));
}

#[test]
fn an_empty_flat_tree_rebuilds_to_an_empty_branch() {
    let flat: FlatTree<u32, &str> = FlatTree::new();
    assert!(flat.is_empty());
    assert!(flat.root().is_none());
    let back: Tree<u32, &str> = Tree::from(flat);
    let expected: Tree<u32, &str> = Tree::branch("", vec![]);
    assert_eq!(show(&back), show(&expected));
}

#[test]
fn get_tells_missing_from_out_of_bounds() {
    let mut flat = FlatTree::from(sample());
    flat.replace_tree(None, 1);
    assert_eq!(flat.get(1).unwrap_err(), FlatTreeError::NodeMissing(1));
    assert_eq!(flat.get(6).unwrap_err(), FlatTreeError::IndexOutOfBounds(6));
    assert_eq!(flat.get_mut(1).unwrap_err(), FlatTreeError::NodeMissing(1));
    assert_eq!(flat.get_mut(60).unwrap_err(), FlatTreeError::IndexOutOfBounds(60));
    assert!(flat.get(0).is_ok());
}

#[test]
fn get_mut_changes_a_leaf_in_place() {
    let mut flat = FlatTree::from(sample());
    match flat.get_mut(1) {
        Ok(FlatTreeNode::Leaf { node, .. }) => *node = 100,
        other => panic!("unexpected node {:?}", other),
    }
    let back: Tree<u32, &str> = Tree::from(flat);
    let expected: Tree<u32, &str> = Tree::branch(
        "root",
        vec![
            leaf(100),
            Tree::branch("inner", vec![leaf(2), leaf(3)]),
            leaf(4),
        ],
    );
    assert_eq!(show(&back), show(&expected));
}

#[test]
fn the_first_append_yields_slot_zero() {
    let mut flat: FlatTree<u32, &str> = FlatTree::new();
    assert_eq!(flat.append_tree(sample()), 0);
    assert_eq!(flat.append_tree(leaf(5)), 6);
    assert_eq!(flat.len(), 7);
}

#[test]
fn replacing_a_subtree_by_itself_keeps_the_tree() {
    let mut flat = FlatTree::from(sample());
    flat.replace_tree(Some(Tree::branch("inner", vec![leaf(2), leaf(3)])), 2);
    assert_eq!(flat.len(), 8);
    assert_eq!(flat.get(3).unwrap_err(), FlatTreeError::NodeMissing(3));
    assert_eq!(flat.get(4).unwrap_err(), FlatTreeError::NodeMissing(4));
    match flat.get(2) {
        Ok(FlatTreeNode::Branch { children, .. }) => assert_eq!(children, &vec![6, 7]),
        other => panic!("unexpected node {:?}", other),
    }
    let back: Tree<u32, &str> = Tree::from(flat);
    assert_eq!(show(&back), show(&sample()));
}

#[test]
fn replacing_by_a_leaf_clears_the_children() {
    let mut flat = FlatTree::from(sample());
    flat.replace_tree(Some(leaf(8)), 2);
    assert_eq!(flat.len(), 6);
    assert!(flat.get(3).is_err());
    assert!(flat.get(4).is_err());
    let back: Tree<u32, &str> = Tree::from(flat);
    let expected: Tree<u32, &str> = Tree::branch("root", vec![leaf(1), leaf(8), leaf(4)]);
    assert_eq!(show(&back), show(&expected));
}

#[test]
fn removing_a_subtree_skips_it_on_rebuild() {
    let mut flat = FlatTree::from(sample());
    flat.replace_tree(None, 2);
    let back: Tree<u32, &str> = Tree::from(flat);
    let expected: Tree<u32, &str> = Tree::branch("root", vec![leaf(1), leaf(4)]);
    assert_eq!(show(&back), show(&expected));
}

#[test]
fn replacing_beyond_the_end_extends_the_arena() {
    let mut flat: FlatTree<u32, &str> = FlatTree::new();
    flat.replace_tree(Some(leaf(1)), 3);
    assert_eq!(flat.len(), 4);
    assert!(flat.is_empty());
    assert!(flat.get(3).is_ok());
    flat.replace_tree(None, 9);
    assert_eq!(flat.len(), 10);
}

#[test]
fn depth_first_search_lists_children_before_parents() {
    let flat = FlatTree::from(sample());
    assert_eq!(flat.depth_first_search(), vec![1, 3, 4, 2, 5, 0]);
    let order = flat.depth_first_search();
    for (place, index) in order.iter().enumerate() {
        if let Ok(FlatTreeNode::Branch { children, .. }) = flat.get(*index) {
            for child in children {
                let child_place = order.iter().position(|i| i == child).unwrap();
                assert!(child_place < place);
            }
        }
    }
}

#[test]
fn depth_first_search_skips_what_is_missing() {
    let mut flat = FlatTree::from(sample());
    flat.replace_tree(None, 2);
    assert_eq!(flat.depth_first_search(), vec![1, 5, 0]);
    let empty: FlatTree<u32, &str> = FlatTree::new();
    assert_eq!(empty.depth_first_search(), Vec::<usize>::new());
}

#[test]
fn flat_map_reports_every_leaf_in_index_order() {
    let flat = FlatTree::from(sample());
    let seen = std::cell::RefCell::new(Vec::new());
    let mapped = flat
        .map(
            |n: u32| n + 1,
            |index: usize, node: u32| -> Result<(), String> {
                seen.borrow_mut().push((index, node));
                Ok(())
            },
        )
        .unwrap();
    assert_eq!(*seen.borrow(), vec![(1, 2), (3, 3), (4, 4), (5, 5)]);
    let back: Tree<u32, &str> = Tree::from(mapped);
    let expected: Tree<u32, &str> = Tree::branch(
        "root",
        vec![
            leaf(2),
            Tree::branch("inner", vec![leaf(3), leaf(4)]),
            leaf(5),
        ],
    );
    assert_eq!(show(&back), show(&expected));
}

#[test]
fn flat_map_stops_at_the_first_failed_report() {
    let flat = FlatTree::from(sample());
    let result = flat.map(
        |n: u32| n,
        |index: usize, _node: u32| -> Result<(), String> {
            if index == 3 {
                Err("stop".to_string())
            } else {
                Ok(())
            }
        },
    );
    assert_eq!(result.err(), Some("stop".to_string()));
}

#[test]
fn map_result_async_reports_start_and_update() {
    let flat = FlatTree::from(sample());
    let log = std::cell::RefCell::new(Vec::new());
    let mapped = flat
        .map_result_async(
            |n: u32| -> Result<String, String> { Ok(format!("n{}", n)) },
            |index: usize| -> Result<(), String> {
                log.borrow_mut().push(format!("start {}", index));
                Ok(())
            },
            |index: usize, node: String| -> Result<(), String> {
                log.borrow_mut().push(format!("update {} {}", index, node));
                Ok(())
            },
        )
        .unwrap();
    assert_eq!(
        *log.borrow(),
        vec![
            "start 1", "update 1 n1", "start 3", "update 3 n2", "start 4", "update 4 n3",
            "start 5", "update 5 n4"
        ]
    );
    assert_eq!(mapped.len(), 6);
    let failed = FlatTree::from(sample()).map_result_async(
        |n: u32| -> Result<u32, String> {
            if n == 2 {
                Err("two".to_string())
            } else {
                Ok(n)
            }
        },
        |_index: usize| -> Result<(), String> { Ok(()) },
        |_index: usize, _node: u32| -> Result<(), String> { Ok(()) },
    );
    assert_eq!(failed.err(), Some("two".to_string()));
}

#[test]
fn map_tree_puts_a_subtree_in_place_of_each_leaf() {
    let flat = FlatTree::from(sample());
    let seen = std::cell::RefCell::new(Vec::new());
    let mapped = flat
        .map_tree(
            |n: u32, meta: &'static str| -> Tree<String, &'static str> {
                if n % 2 == 0 {
                    Tree::branch(meta, vec![Tree::leaf("half", format!("{}", n / 2))])
                } else {
                    Tree::leaf(meta, format!("{}", n))
                }
            },
            |index: usize, tree: &Tree<String, &'static str>| -> Result<(), String> {
                seen.borrow_mut().push((index, show(tree)));
                Ok(())
            },
        )
        .unwrap();
    let indices: Vec<usize> = seen.borrow().iter().map(|(index, _)| *index).collect();
    assert_eq!(indices, vec![1, 3, 4, 5]);
    assert_eq!(seen.borrow()[0].1, show(&Tree::<String, &str>::leaf("", "1".to_string())));
    assert_eq!(mapped.len(), 8);
    let back: Tree<String, &str> = Tree::from(mapped);
    let half = |n: u32| Tree::branch("", vec![Tree::leaf("half", format!("{}", n))]);
    let expected: Tree<String, &str> = Tree::branch(
        "root",
        vec![
            Tree::leaf("", "1".to_string()),
            Tree::branch("inner", vec![half(1), Tree::leaf("", "3".to_string())]),
            half(2),
        ],
    );
    assert_eq!(show(&back), show(&expected));
}

#[test]
fn map_tree_result_async_stops_at_the_first_failure() {
    let log = std::cell::RefCell::new(Vec::new());
    let result = FlatTree::from(sample()).map_tree_result_async(
        |n: u32, meta: &'static str| -> Result<Tree<u32, &'static str>, String> {
            if n == 3 {
                Err("three".to_string())
            } else {
                Ok(Tree::leaf(meta, n * 10))
            }
        },
        |index: usize| -> Result<(), String> {
            log.borrow_mut().push(format!("start {}", index));
            Ok(())
        },
        |index: usize, tree: &Tree<u32, &'static str>| -> Result<(), String> {
            log.borrow_mut().push(format!("update {} {}", index, show(tree)));
            Ok(())
        },
    );
    assert_eq!(result.err(), Some("three".to_string()));
    assert_eq!(
        *log.borrow(),
        vec![
            "start 1".to_string(),
            format!("update 1 {}", show(&leaf(10))),
            "start 3".to_string(),
            format!("update 3 {}", show(&leaf(20))),
            "start 4".to_string(),
        ]
    );
    let mapped = FlatTree::from(sample())
        .map_tree_result_async(
            |n: u32, meta: &'static str| -> Result<Tree<u32, &'static str>, String> {
                Ok(Tree::leaf(meta, n * 10))
            },
            |_index: usize| -> Result<(), String> { Ok(()) },
            |_index: usize, _tree: &Tree<u32, &'static str>| -> Result<(), String> { Ok(()) },
        )
        .unwrap();
    let back: Tree<u32, &str> = Tree::from(mapped);
    assert_eq!(show(&back), show(&sample().map(|n: u32| n * 10)));
}

#[test]
fn map_option_drops_leaves_and_the_branches_left_bare() {
    let seen = std::cell::RefCell::new(Vec::new());
    let mapped = FlatTree::from(sample())
        .map_option(
            |n: u32| if n == 1 || n == 4 { Some(n) } else { None },
            |index: usize, node: Option<&u32>| -> Result<(), String> {
                seen.borrow_mut().push((index, node.copied()));
                Ok(())
            },
        )
        .unwrap();
    assert_eq!(*seen.borrow(), vec![(1, Some(1)), (3, None), (4, None), (5, Some(4))]);
    assert!(!mapped.is_empty());
    assert_eq!(mapped.len(), 6);
    assert!(matches!(mapped.get(2), Err(FlatTreeError::NodeMissing(2))));
    assert!(matches!(mapped.get(3), Err(FlatTreeError::NodeMissing(3))));
    assert!(matches!(mapped.get(0), Ok(FlatTreeNode::Branch { .. })));
    let back: Tree<u32, &str> = Tree::from(mapped);
    assert_eq!(show(&back), show(&Tree::branch("root", vec![leaf(1), leaf(4)])));
    let nothing = FlatTree::from(sample())
        .map_option(
            |_n: u32| -> Option<u32> { None },
            |_index: usize, _node: Option<&u32>| -> Result<(), String> { Ok(()) },
        )
        .unwrap();
    assert!(nothing.is_empty());
    assert!(matches!(nothing.get(0), Err(FlatTreeError::NodeMissing(0))));
}

fn arena(slots: Vec<Option<FlatTreeNode<u32, &'static str>>>) -> FlatTree<u32, &'static str> {
    let mut flat = FlatTree::new();
    for slot in slots {
        flat.push_slot(slot);
    }
    flat
}

fn branch_of(children: &[usize]) -> Option<FlatTreeNode<u32, &'static str>> {
    Some(FlatTreeNode::Branch { meta: "", children: children.to_vec() })
}

fn leaf_of(node: u32) -> Option<FlatTreeNode<u32, &'static str>> {
    Some(FlatTreeNode::Leaf { meta: "", node })
}

#[test]
fn depth_first_search_follows_children_in_lower_slots() {
    let flat = arena(vec![branch_of(&[2]), leaf_of(7), branch_of(&[1])]);
    assert_eq!(flat.depth_first_search(), vec![1, 2, 0]);
    let wide = arena(vec![branch_of(&[3, 1]), leaf_of(1), leaf_of(2), branch_of(&[2, 9])]);
    assert_eq!(wide.depth_first_search(), vec![2, 3, 1, 0]);
}

#[test]
fn depth_first_search_visits_every_slot_once() {
    let shared = arena(vec![branch_of(&[1, 2, 1]), leaf_of(1), branch_of(&[1])]);
    assert_eq!(shared.depth_first_search(), vec![1, 2, 0]);
    let circle = arena(vec![branch_of(&[1]), branch_of(&[0, 2]), leaf_of(3)]);
    assert_eq!(circle.depth_first_search(), vec![2, 1, 0]);
    let own = arena(vec![branch_of(&[0])]);
    assert_eq!(own.depth_first_search(), vec![0]);
}

#[test]
fn map_option_prunes_branches_whose_children_lie_in_lower_slots() {
    let flat = arena(vec![branch_of(&[2, 3]), leaf_of(7), branch_of(&[1]), leaf_of(8)]);
    let mapped = flat
        .map_option(
            |n: u32| if n == 8 { Some(n) } else { None },
            |_index: usize, _node: Option<&u32>| -> Result<(), String> { Ok(()) },
        )
        .unwrap();
    assert!(matches!(mapped.get(1), Err(FlatTreeError::NodeMissing(1))));
    assert!(matches!(mapped.get(2), Err(FlatTreeError::NodeMissing(2))));
    assert!(matches!(mapped.get(0), Ok(FlatTreeNode::Branch { .. })));
    assert!(matches!(mapped.get(3), Ok(FlatTreeNode::Leaf { node: 8, .. })));
}
