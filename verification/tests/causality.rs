use lusid::causality::{compute_epochs, CausalityMeta, EpochError};
use lusid::tree::Tree;

type Node = Tree<Option<&'static str>, CausalityMeta<String>>;

fn ids(names: &[&str]) -> Vec<String> {
    names.iter().map(|name| name.to_string()).collect()
}

fn named(id: &str, node: &'static str) -> Node {
    Tree::leaf(CausalityMeta::id(id.to_string()), Some(node))
}

fn meta(id: Option<&str>, requires: &[&str], required_by: &[&str]) -> CausalityMeta<String> {
    CausalityMeta {
        id: id.map(|id| id.to_string()),
        requires: ids(requires),
        required_by: ids(required_by),
    }
}

#[test]
fn metadata_builders_set_one_field() {
    let plain: CausalityMeta<String> = CausalityMeta::default();
    assert!(plain.id.is_none() && plain.requires.is_empty() && plain.required_by.is_empty());
    let with_id = CausalityMeta::id("a".to_string());
    assert_eq!(with_id.id, Some("a".to_string()));
    assert!(with_id.requires.is_empty() && with_id.required_by.is_empty());
    let after = CausalityMeta::requiring(ids(&["a", "b"]));
    assert!(after.id.is_none());
    assert_eq!(after.requires, ids(&["a", "b"]));
    assert!(after.required_by.is_empty());
    let before = CausalityMeta::required_by(ids(&["c"]));
    assert!(before.id.is_none() && before.requires.is_empty());
    assert_eq!(before.required_by, ids(&["c"]));
}

#[test]
fn a_requirement_puts_the_leaf_in_a_later_epoch() {
    let tree: Node = Tree::branch(
        CausalityMeta::default(),
        vec![
            named("a", "A"),
            named("b", "B"),
            Tree::leaf(CausalityMeta::requiring(ids(&["a", "b"])), Some("C")),
        ],
    );
    assert_eq!(compute_epochs(tree).unwrap(), vec![vec!["A", "B"], vec!["C"]]);
}

#[test]
fn two_leaves_that_require_each_other_are_a_cycle() {
    let tree: Node = Tree::branch(
        CausalityMeta::default(),
        vec![
            Tree::leaf(meta(Some("a"), &["b"], &[]), Some("A")),
            Tree::leaf(meta(Some("b"), &["a"], &[]), Some("B")),
        ],
    );
    match compute_epochs(tree) {
        Err(EpochError::CycleDetected { remaining }) => assert_eq!(remaining, 2),
        other => panic!("unexpected result {:?}", other),
    }
}

#[test]
fn a_cycle_counts_what_waits_for_it() {
    let tree: Node = Tree::branch(
        CausalityMeta::default(),
        vec![
            Tree::leaf(meta(Some("free"), &[], &[]), Some("F")),
            Tree::leaf(meta(Some("a"), &["b"], &[]), Some("A")),
            Tree::leaf(meta(Some("b"), &["a"], &[]), Some("B")),
            Tree::leaf(meta(None, &["a"], &[]), Some("C")),
        ],
    );
    match compute_epochs(tree) {
        Err(EpochError::CycleDetected { remaining }) => assert_eq!(remaining, 3),
        other => panic!("unexpected result {:?}", other),
    }
}

#[test]
fn a_leaf_that_requires_itself_is_a_cycle() {
    let tree: Node = Tree::leaf(meta(Some("a"), &["a"], &[]), Some("A"));
    match compute_epochs(tree) {
        Err(EpochError::CycleDetected { remaining }) => assert_eq!(remaining, 1),
        other => panic!("unexpected result {:?}", other),
    }
}

#[test]
fn required_by_is_the_inverse_of_requires() {
    let tree: Node = Tree::branch(
        CausalityMeta::default(),
        vec![
            named("late", "L"),
            Tree::leaf(CausalityMeta::required_by(ids(&["late"])), Some("E")),
        ],
    );
    assert_eq!(compute_epochs(tree).unwrap(), vec![vec!["E"], vec!["L"]]);
}

#[test]
fn a_branch_hands_its_requirements_to_its_leaves() {
    let tree: Node = Tree::branch(
        CausalityMeta::default(),
        vec![
            Tree::branch(
                CausalityMeta::requiring(ids(&["x"])),
                vec![
                    Tree::leaf(CausalityMeta::default(), Some("L1")),
                    Tree::branch(
                        CausalityMeta::default(),
                        vec![Tree::leaf(CausalityMeta::default(), Some("L2"))],
                    ),
                ],
            ),
            named("x", "X"),
        ],
    );
    assert_eq!(compute_epochs(tree).unwrap(), vec![vec!["X"], vec!["L1", "L2"]]);
}

#[test]
fn a_name_of_a_branch_stands_for_all_its_leaves() {
    let tree: Node = Tree::branch(
        CausalityMeta::default(),
        vec![
            Tree::leaf(CausalityMeta::requiring(ids(&["group"])), Some("last")),
            Tree::branch(
                CausalityMeta::id("group".to_string()),
                vec![
                    named("one", "G1"),
                    Tree::leaf(CausalityMeta::requiring(ids(&["one"])), Some("G2")),
                ],
            ),
        ],
    );
    assert_eq!(
        compute_epochs(tree).unwrap(),
        vec![vec!["G1"], vec!["G2"], vec!["last"]]
    );
}

#[test]
fn leaves_without_a_value_are_left_out() {
    let tree: Node = Tree::branch(
        CausalityMeta::default(),
        vec![
            Tree::leaf(CausalityMeta::id("a".to_string()), None),
            Tree::leaf(CausalityMeta::requiring(ids(&["a"])), Some("B")),
            Tree::leaf(CausalityMeta::default(), None),
        ],
    );
    assert_eq!(compute_epochs(tree).unwrap(), vec![vec!["B"]]);
    let nothing: Node = Tree::branch(CausalityMeta::default(), vec![]);
    assert_eq!(compute_epochs(nothing).unwrap(), Vec::<Vec<&str>>::new());
}

#[test]
fn every_leaf_with_a_value_comes_out_once() {
    let tree: Node = Tree::branch(
        CausalityMeta::default(),
        vec![
            named("a", "A"),
            Tree::leaf(meta(Some("b"), &["a"], &[]), Some("B")),
            Tree::leaf(meta(Some("c"), &["a"], &[]), Some("C")),
            Tree::leaf(meta(None, &["b", "c", "a"], &[]), Some("D")),
            Tree::leaf(meta(None, &[], &["a"]), Some("Z")),
        ],
    );
    let epochs = compute_epochs(tree).unwrap();
    assert_eq!(epochs, vec![vec!["Z"], vec!["A"], vec!["B", "C"], vec!["D"]]);
    let mut all: Vec<&str> = epochs.into_iter().flatten().collect();
    all.sort();
    assert_eq!(all, vec!["A", "B", "C", "D", "Z"]);
}

#[test]
fn a_name_declared_twice_is_refused() {
    let tree: Node = Tree::branch(
        CausalityMeta::default(),
        vec![named("a", "A"), named("b", "B"), named("a", "C")],
    );
    match compute_epochs(tree) {
        Err(EpochError::DuplicateId(id)) => assert_eq!(id, "a"),
        other => panic!("unexpected result {:?}", other),
    }
    let nested: Node = Tree::branch(CausalityMeta::id("a".to_string()), vec![named("a", "A")]);
    assert!(matches!(compute_epochs(nested), Err(EpochError::DuplicateId(_))));
}

#[test]
fn an_unknown_name_is_refused() {
    let requires: Node = Tree::leaf(CausalityMeta::requiring(ids(&["nobody"])), Some("A"));
    match compute_epochs(requires) {
        Err(EpochError::UnknownRequiresRef(id)) => assert_eq!(id, "nobody"),
        other => panic!("unexpected result {:?}", other),
    }
    let required_by: Node = Tree::leaf(CausalityMeta::required_by(ids(&["nobody"])), Some("A"));
    match compute_epochs(required_by) {
        Err(EpochError::UnknownRequiredByRef(id)) => assert_eq!(id, "nobody"),
        other => panic!("unexpected result {:?}", other),
    }
}

#[test]
fn a_duplicate_is_reported_before_an_unknown_name() {
    let tree: Node = Tree::branch(
        CausalityMeta::default(),
        vec![
            Tree::leaf(meta(Some("a"), &["nobody"], &[]), Some("A")),
            named("a", "B"),
        ],
    );
    assert!(matches!(compute_epochs(tree), Err(EpochError::DuplicateId(_))));
}
