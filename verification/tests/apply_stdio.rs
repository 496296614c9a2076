use lusid::apply_stdio::{
    AppUpdate, AppView, AppViewError, FlatViewTree, FlatViewTreeError, FlatViewTreeNode,
    OperationView, Phase, ViewNode,
};
use lusid::view::{Render, ViewElement, ViewTree};

fn line(text: &str) -> ViewElement {
    ViewElement::line(text)
}

fn leaf(text: &str) -> ViewTree {
    ViewTree::Leaf { view: line(text) }
}

fn plan() -> ViewTree {
    ViewTree::Branch {
        view: line("."),
        children: vec![
            leaf("a"),
            ViewTree::Branch { view: line("inner"), children: vec![leaf("b")] },
        ],
    }
}

fn shown(view: &ViewElement) -> String {
    format!("{:?}", view)
}

fn leaf_state(tree: &FlatViewTree, index: usize) -> String {
    match tree.get(index) {
        Ok(FlatViewTreeNode::Leaf { node, .. }) => match node {
            ViewNode::NotStarted => "not started".to_string(),
            ViewNode::Started => "started".to_string(),
            ViewNode::Complete(view) => format!("complete {}", shown(view)),
        },
        Ok(FlatViewTreeNode::Branch { children, .. }) => format!("branch {:?}", children),
        Err(FlatViewTreeError::NodeMissing(_)) => "missing".to_string(),
        Err(error) => format!("{:?}", error),
    }
}

fn states(tree: &FlatViewTree) -> Vec<String> {
    (0..tree.len()).map(|index| leaf_state(tree, index)).collect()
}

fn run(updates: Vec<AppUpdate>) -> AppView {
    let mut view = AppView::default();
    for update in updates {
        view = view.update(update).unwrap();
    }
    view
}

fn until_states() -> Vec<AppUpdate> {
    vec![
        AppUpdate::ResourceParams { resource_params: plan() },
        AppUpdate::ResourcesStart,
        AppUpdate::ResourcesNode { index: 1, tree: leaf("A") },
        AppUpdate::ResourcesNode {
            index: 3,
            tree: ViewTree::Branch { view: line("B"), children: vec![leaf("B1"), leaf("B2")] },
        },
        AppUpdate::ResourcesComplete,
        AppUpdate::ResourceStatesStart,
    ]
}

fn until_apply() -> Vec<AppUpdate> {
    let mut updates = until_states();
    updates.extend(vec![
        AppUpdate::ResourceStatesNodeStart { index: 1 },
        AppUpdate::ResourceStatesNodeComplete { index: 1, node: line("A ok") },
        AppUpdate::ResourceStatesComplete,
        AppUpdate::ResourceChangesStart,
        AppUpdate::ResourceChangesNode { index: 1, node: None },
        AppUpdate::ResourceChangesNode { index: 4, node: Some(line("change B1")) },
        AppUpdate::ResourceChangesComplete { has_changes: true },
        AppUpdate::OperationsStart,
        AppUpdate::OperationsNode { index: 4, operations: leaf("op B1") },
        AppUpdate::OperationsComplete,
        AppUpdate::OperationsApplyStart {
            operations: vec![vec![line("first"), line("second")], vec![line("third")]],
        },
    ]);
    updates
}

#[test]
fn a_view_node_renders_by_progress() {
    assert_eq!(shown(&ViewNode::NotStarted.render()), shown(&ViewElement::span("🟩")));
    assert_eq!(shown(&ViewNode::Started.render()), shown(&ViewElement::span("⌛")));
    assert_eq!(
        shown(&ViewNode::Complete(line("done")).render()),
        shown(&ViewElement::Fragment(vec![ViewElement::span("✅"), line("done")]))
    );
    assert!(matches!(ViewNode::default(), ViewNode::NotStarted));
}

#[test]
fn a_completed_tree_is_laid_out_flat() {
    let tree = FlatViewTree::from_view_tree_completed(plan());
    assert_eq!(FlatViewTree::root_index(), 0);
    assert!(!tree.is_empty());
    assert_eq!(
        states(&tree),
        vec![
            "branch [1, 2]".to_string(),
            format!("complete {}", shown(&line("a"))),
            "branch [3]".to_string(),
            format!("complete {}", shown(&line("b"))),
        ]
    );
    assert!(matches!(tree.get(9), Err(FlatViewTreeError::IndexOutOfBounds(9))));
    assert!(FlatViewTree::default().is_empty());
    assert!(FlatViewTree::default().root().is_none());
}

#[test]
fn a_template_keeps_branches_and_resets_leaves() {
    let mut tree = FlatViewTree::from_view_tree_completed(plan());
    tree.set_node_none(1).unwrap();
    let template = tree.template();
    assert_eq!(
        states(&template),
        vec!["branch [1, 2]", "missing", "branch [3]", "not started"]
    );
    match (tree.get(2), template.get(2)) {
        (
            Ok(FlatViewTreeNode::Branch { meta: before, .. }),
            Ok(FlatViewTreeNode::Branch { meta: after, .. }),
        ) => assert_eq!(format!("{:?}", before), format!("{:?}", after)),
        other => panic!("unexpected nodes {:?}", other),
    }
}

#[test]
fn leaves_are_set_and_branches_refused() {
    let mut tree = FlatViewTree::from_view_tree_completed(plan()).template();
    tree.set_leaf_started(1).unwrap();
    assert_eq!(leaf_state(&tree, 1), "started");
    tree.set_leaf_view(1, ViewNode::Complete(line("x"))).unwrap();
    assert_eq!(leaf_state(&tree, 1), format!("complete {}", shown(&line("x"))));
    assert!(matches!(tree.set_leaf_started(0), Err(FlatViewTreeError::NotALeaf(0))));
    assert!(matches!(
        tree.set_leaf_view(2, ViewNode::Started),
        Err(FlatViewTreeError::NotALeaf(2))
    ));
    assert_eq!(tree.len(), 4);
    assert!(matches!(tree.set_leaf_started(6), Err(FlatViewTreeError::IndexOutOfBounds(6))));
    assert!(matches!(
        tree.set_leaf_view(4, ViewNode::Started),
        Err(FlatViewTreeError::IndexOutOfBounds(4))
    ));
    assert!(matches!(tree.set_node_none(9), Err(FlatViewTreeError::IndexOutOfBounds(9))));
    assert!(matches!(
        tree.replace_subtree_completed(4, leaf("x")),
        Err(FlatViewTreeError::IndexOutOfBounds(4))
    ));
    assert_eq!(tree.len(), 4);
    tree.set_node_none(3).unwrap();
    assert_eq!(leaf_state(&tree, 3), "missing");
    tree.set_leaf_started(3).unwrap();
    assert_eq!(leaf_state(&tree, 3), "started");
    assert_eq!(tree.len(), 4);
    match tree.get_mut(1) {
        Ok(FlatViewTreeNode::Leaf { node, .. }) => *node = ViewNode::NotStarted,
        other => panic!("unexpected node {:?}", other),
    }
    assert_eq!(leaf_state(&tree, 1), "not started");
    assert!(matches!(tree.get_mut(7), Err(FlatViewTreeError::IndexOutOfBounds(7))));
}

#[test]
fn replacing_a_subtree_appends_its_children() {
    let mut tree = FlatViewTree::from_view_tree_completed(plan()).template();
    tree.replace_subtree_completed(
        3,
        ViewTree::Branch { view: line("B"), children: vec![leaf("B1"), leaf("B2")] },
    )
    .unwrap();
    assert_eq!(
        states(&tree),
        vec![
            "branch [1, 2]".to_string(),
            "not started".to_string(),
            "branch [3]".to_string(),
            "branch [4, 5]".to_string(),
            format!("complete {}", shown(&line("B1"))),
            format!("complete {}", shown(&line("B2"))),
        ]
    );
    tree.replace_subtree_completed(3, leaf("flat")).unwrap();
    assert_eq!(leaf_state(&tree, 3), format!("complete {}", shown(&line("flat"))));
    assert_eq!(leaf_state(&tree, 4), "missing");
    assert_eq!(leaf_state(&tree, 5), "missing");
}

#[test]
fn the_view_starts_empty() {
    let view = AppView::default();
    assert_eq!(view.phase(), Phase::Start);
    assert!(view.resource_params().is_none());
    assert!(view.resources().is_none());
    assert!(view.resource_states().is_none());
    assert!(view.resource_changes().is_none());
    assert!(view.operations_tree().is_none());
    assert!(view.operations_epochs().is_none());
}

#[test]
fn every_phase_shows_what_was_reached() {
    let updates = until_apply();
    let mut with_done = until_apply();
    with_done.push(AppUpdate::OperationsApplyComplete);
    let total = with_done.len();
    for count in 0..=total {
        let mut prefix = Vec::new();
        let mut all = until_apply();
        all.push(AppUpdate::OperationsApplyComplete);
        for update in all.into_iter().take(count) {
            prefix.push(update);
        }
        let view = run(prefix);
        let rank = match view.phase() {
            Phase::Start => 0,
            Phase::ResourceParams => 1,
            Phase::Resources => 2,
            Phase::ResourceStates => 3,
            Phase::ResourceChanges => 4,
            Phase::Operations => 5,
            Phase::OperationsApply => 6,
            Phase::Done => 7,
        };
        assert_eq!(view.resource_params().is_some(), rank >= 1);
        assert_eq!(view.resources().is_some(), rank >= 2);
        assert_eq!(view.resource_states().is_some(), rank >= 3);
        assert_eq!(view.resource_changes().is_some(), rank >= 4);
        assert_eq!(view.operations_tree().is_some(), rank >= 5);
        assert_eq!(view.operations_epochs().is_some(), rank >= 6);
    }
    assert_eq!(run(updates).phase(), Phase::OperationsApply);
    assert_eq!(run(with_done).phase(), Phase::Done);
}

#[test]
fn the_trees_of_the_phases_keep_their_slots() {
    let view = run(until_apply());
    assert_eq!(
        states(view.resource_params().unwrap()),
        vec![
            "branch [1, 2]".to_string(),
            format!("complete {}", shown(&line("a"))),
            "branch [3]".to_string(),
            format!("complete {}", shown(&line("b"))),
        ]
    );
    assert_eq!(
        states(view.resources().unwrap()),
        vec![
            "branch [1, 2]".to_string(),
            format!("complete {}", shown(&line("A"))),
            "branch [3]".to_string(),
            "branch [4, 5]".to_string(),
            format!("complete {}", shown(&line("B1"))),
            format!("complete {}", shown(&line("B2"))),
        ]
    );
    assert_eq!(
        states(view.resource_states().unwrap()),
        vec![
            "branch [1, 2]".to_string(),
            format!("complete {}", shown(&line("A ok"))),
            "branch [3]".to_string(),
            "branch [4, 5]".to_string(),
            "not started".to_string(),
            "not started".to_string(),
        ]
    );
    assert_eq!(
        states(view.resource_changes().unwrap()),
        vec![
            "branch [1, 2]".to_string(),
            "missing".to_string(),
            "branch [3]".to_string(),
            "branch [4, 5]".to_string(),
            format!("complete {}", shown(&line("change B1"))),
            "not started".to_string(),
        ]
    );
    assert_eq!(
        states(view.operations_tree().unwrap()),
        vec![
            "branch [1, 2]".to_string(),
            "missing".to_string(),
            "branch [3]".to_string(),
            "branch [4, 5]".to_string(),
            format!("complete {}", shown(&line("op B1"))),
            "not started".to_string(),
        ]
    );
    match &view {
        AppView::OperationsApply { has_changes, .. } => assert_eq!(*has_changes, Some(true)),
        other => panic!("unexpected view {:?}", other),
    }
}

fn operation(view: &AppView, e: usize, o: usize) -> &OperationView {
    &view.operations_epochs().unwrap()[e][o]
}

#[test]
fn output_is_gathered_line_by_line() {
    let mut updates = until_apply();
    updates.extend(vec![
        AppUpdate::OperationApplyStart { index: (0, 1) },
        AppUpdate::OperationApplyStdout { index: (0, 1), stdout: "one".to_string() },
        AppUpdate::OperationApplyStderr { index: (0, 1), stderr: "oops".to_string() },
        AppUpdate::OperationApplyStdout { index: (0, 1), stdout: "two".to_string() },
        AppUpdate::OperationApplyComplete { index: (0, 1), error: Some("failed".to_string()) },
    ]);
    let view = run(updates);
    let epochs = view.operations_epochs().unwrap();
    assert_eq!(epochs.len(), 2);
    assert_eq!(epochs[0].len(), 2);
    assert_eq!(epochs[1].len(), 1);
    let second = operation(&view, 0, 1);
    assert_eq!(shown(&second.label), shown(&line("second")));
    assert_eq!(second.stdout, "one\ntwo\n");
    assert_eq!(second.stderr, "oops\n");
    assert!(second.is_complete);
    assert_eq!(second.error, Some("failed".to_string()));
    let first = operation(&view, 0, 0);
    assert_eq!(first.stdout, "");
    assert_eq!(first.stderr, "");
    assert!(!first.is_complete);
    assert_eq!(first.error, None);
    let restarted = view.update(AppUpdate::OperationApplyStart { index: (0, 1) }).unwrap();
    let second = operation(&restarted, 0, 1);
    assert_eq!(second.stdout, "");
    assert_eq!(second.stderr, "");
    assert!(!second.is_complete);
    assert_eq!(second.error, Some("failed".to_string()));
}

#[test]
fn an_operation_that_does_not_exist_is_refused() {
    for index in [(2, 0), (0, 2), (1, 1)] {
        for update in [
            AppUpdate::OperationApplyStart { index },
            AppUpdate::OperationApplyStdout { index, stdout: "x".to_string() },
            AppUpdate::OperationApplyStderr { index, stderr: "x".to_string() },
            AppUpdate::OperationApplyComplete { index, error: None },
        ] {
            match run(until_apply()).update(update) {
                Err(AppViewError::OperationIndexOutOfBounds(e, o)) => assert_eq!((e, o), index),
                other => panic!("unexpected result {:?}", other),
            }
        }
    }
}

#[test]
fn a_leaf_update_on_a_branch_is_refused() {
    let view = run(until_states());
    match view.update(AppUpdate::ResourceStatesNodeStart { index: 3 }) {
        Err(AppViewError::FlatTree(FlatViewTreeError::NotALeaf(3))) => {}
        other => panic!("unexpected result {:?}", other),
    }
    let mut kept = run(until_states());
    let refused = kept.try_update(AppUpdate::ResourceStatesNodeComplete { index: 0, node: line("x") });
    assert!(matches!(refused, Err(AppViewError::FlatTree(FlatViewTreeError::NotALeaf(0)))));
    assert_eq!(kept.phase(), Phase::ResourceStates);
    assert_eq!(leaf_state(kept.resource_states().unwrap(), 1), "not started");
}

fn every_update() -> Vec<AppUpdate> {
    vec![
        AppUpdate::ResourceParams { resource_params: leaf("p") },
        AppUpdate::ResourcesStart,
        AppUpdate::ResourcesNode { index: 0, tree: leaf("r") },
        AppUpdate::ResourcesComplete,
        AppUpdate::ResourceStatesStart,
        AppUpdate::ResourceStatesNodeStart { index: 0 },
        AppUpdate::ResourceStatesNodeComplete { index: 0, node: line("s") },
        AppUpdate::ResourceStatesComplete,
        AppUpdate::ResourceChangesStart,
        AppUpdate::ResourceChangesNode { index: 0, node: None },
        AppUpdate::ResourceChangesComplete { has_changes: false },
        AppUpdate::OperationsStart,
        AppUpdate::OperationsNode { index: 0, operations: leaf("o") },
        AppUpdate::OperationsComplete,
        AppUpdate::OperationsApplyStart { operations: vec![] },
        AppUpdate::OperationApplyStart { index: (0, 0) },
        AppUpdate::OperationApplyStdout { index: (0, 0), stdout: String::new() },
        AppUpdate::OperationApplyStderr { index: (0, 0), stderr: String::new() },
        AppUpdate::OperationApplyComplete { index: (0, 0), error: None },
        AppUpdate::OperationsApplyComplete,
    ]
}

fn at_phase(phase: Phase) -> AppView {
    let mut all = until_apply();
    all.push(AppUpdate::OperationsApplyComplete);
    let mut view = AppView::default();
    for update in all {
        if view.phase() == phase {
            break;
        }
        view = view.update(update).unwrap();
    }
    assert_eq!(view.phase(), phase);
    view
}

#[test]
fn an_update_of_another_phase_is_refused_and_changes_nothing() {
    let phases = [
        (Phase::Start, vec![0]),
        (Phase::ResourceParams, vec![1]),
        (Phase::Resources, vec![2, 3, 4]),
        (Phase::ResourceStates, vec![5, 6, 7, 8]),
        (Phase::ResourceChanges, vec![9, 10, 11]),
        (Phase::Operations, vec![12, 13, 14]),
        (Phase::OperationsApply, vec![15, 16, 17, 18, 19]),
        (Phase::Done, vec![]),
    ];
    for (phase, accepted) in phases.iter() {
        for (place, update) in every_update().into_iter().enumerate() {
            let name = update.name();
            assert_eq!(phase.step(&update).is_some(), accepted.contains(&place));
            if accepted.contains(&place) {
                continue;
            }
            let mut view = at_phase(*phase);
            let before = format!("{:?}", view);
            match view.try_update(update) {
                Err(AppViewError::InvalidTransition { from, update }) => {
                    assert_eq!(from, phase.name());
                    assert_eq!(update, name);
                }
                other => panic!("unexpected result {:?}", other),
            }
            assert_eq!(format!("{:?}", view), before);
        }
    }
}

#[test]
fn phases_and_updates_have_names() {
    assert_eq!(Phase::Start.name(), "Start");
    assert_eq!(Phase::OperationsApply.name(), "OperationsApply");
    assert_eq!(AppUpdate::ResourcesStart.name(), "ResourcesStart");
    assert_eq!(
        AppUpdate::OperationApplyStdout { index: (0, 0), stdout: String::new() }.name(),
        "OperationApplyStdout"
    );
    assert_eq!(Phase::Start.step(&AppUpdate::ResourcesStart), None);
    assert_eq!(
        Phase::OperationsApply.step(&AppUpdate::OperationsApplyComplete),
        Some(Phase::Done)
    );
    assert_eq!(
        Phase::Resources.step(&AppUpdate::ResourcesComplete),
        Some(Phase::Resources)
    );
}

#[test]
fn an_apply_without_changes_stops_before_the_operations() {
    let mut updates = until_states();
    updates.extend(vec![
        AppUpdate::ResourceStatesComplete,
        AppUpdate::ResourceChangesStart,
        AppUpdate::ResourceChangesNode { index: 1, node: None },
        AppUpdate::ResourceChangesComplete { has_changes: false },
    ]);
    let view = run(updates);
    assert_eq!(view.phase(), Phase::ResourceChanges);
    match &view {
        AppView::ResourceChanges { has_changes, .. } => assert_eq!(*has_changes, Some(false)),
        other => panic!("unexpected view {:?}", other),
    }
    assert!(view.operations_tree().is_none());
    assert!(view.operations_epochs().is_none());
}

#[test]
fn an_update_of_a_slot_outside_the_tree_is_refused() {
    let states = run(until_states());
    let slots = states.resource_states().unwrap().len();
    for update in [
        AppUpdate::ResourceStatesNodeStart { index: slots },
        AppUpdate::ResourceStatesNodeComplete { index: slots + 3, node: line("x") },
    ] {
        let index = match &update {
            AppUpdate::ResourceStatesNodeStart { index } => *index,
            AppUpdate::ResourceStatesNodeComplete { index, .. } => *index,
            _ => unreachable!(),
        };
        let mut view = run(until_states());
        match view.try_update(update) {
            Err(AppViewError::FlatTree(FlatViewTreeError::IndexOutOfBounds(refused))) => {
                assert_eq!(refused, index)
            }
            other => panic!("unexpected result {:?}", other),
        }
        assert_eq!(view.resource_states().unwrap().len(), slots);
        assert_eq!(view.phase(), Phase::ResourceStates);
    }
    let mut resources = run(vec![
        AppUpdate::ResourceParams { resource_params: plan() },
        AppUpdate::ResourcesStart,
    ]);
    let slots = resources.resources().unwrap().len();
    assert!(matches!(
        resources.try_update(AppUpdate::ResourcesNode { index: slots, tree: leaf("x") }),
        Err(AppViewError::FlatTree(FlatViewTreeError::IndexOutOfBounds(_)))
    ));
    assert_eq!(resources.resources().unwrap().len(), slots);
    let mut changes = run(until_states());
    changes.try_update(AppUpdate::ResourceStatesComplete).unwrap();
    changes.try_update(AppUpdate::ResourceChangesStart).unwrap();
    let slots = changes.resource_changes().unwrap().len();
    assert!(matches!(
        changes.try_update(AppUpdate::ResourceChangesNode { index: slots, node: None }),
        Err(AppViewError::FlatTree(FlatViewTreeError::IndexOutOfBounds(_)))
    ));
    assert!(matches!(
        changes.try_update(AppUpdate::ResourceChangesNode { index: slots + 1, node: Some(line("c")) }),
        Err(AppViewError::FlatTree(FlatViewTreeError::IndexOutOfBounds(_)))
    ));
    assert_eq!(changes.resource_changes().unwrap().len(), slots);
    changes.try_update(AppUpdate::ResourceChangesComplete { has_changes: true }).unwrap();
    changes.try_update(AppUpdate::OperationsStart).unwrap();
    let slots = changes.operations_tree().unwrap().len();
    assert!(matches!(
        changes.try_update(AppUpdate::OperationsNode { index: slots, operations: leaf("o") }),
        Err(AppViewError::FlatTree(FlatViewTreeError::IndexOutOfBounds(_)))
    ));
    assert_eq!(changes.operations_tree().unwrap().len(), slots);
}
