use lusid::apply::{
    change_of, epoch_labels, merge_epochs, operation_error, operations_of, resources_of, CoreKind,
};
use lusid::causality::{compute_epochs, CausalityMeta, NodeKey};
use lusid::operation::apt::AptOperation;
use lusid::operation::file::FilePath;
use lusid::operation::Operation;
use lusid::params::value::{Span, Spanned, Value};
use lusid::plan::item::is_core_module;
use lusid::plan::model::{Name, Plan, PlanFromRimuError, Version};
use lusid::plan::tree::{scope_meta, scope_subitems, scope_tree};
use lusid::plan::{
    map_plan_subitems, render_plan_tree, IntoPlanItemError, PlanId, PlanItem, PlanMeta,
    PlanNodeId, PlanTree,
};
use lusid::resource::apt::{AptParams, AptResource, AptState};
use lusid::resource::file::{FileParams, FileState};
use lusid::resource::{Resource, ResourceChange, ResourceParams, ResourceState};
use lusid::tree::{FlatTree, Tree};
use lusid::view::{ViewElement, ViewTree};

fn span(start: usize) -> Span {
    Span { source: "plan.rimu".to_string(), start, end: start + 1 }
}

fn at(inner: Value, start: usize) -> Spanned<Value> {
    Spanned { inner, span: span(start) }
}

fn text(value: &str) -> Value {
    Value::String(value.to_string())
}

fn object(entries: Vec<(&str, Value)>) -> Value {
    Value::Object(
        entries
            .into_iter()
            .enumerate()
            .map(|(place, (key, value))| (key.to_string(), at(value, place)))
            .collect(),
    )
}

fn list(items: Vec<Value>) -> Value {
    Value::List(items.into_iter().enumerate().map(|(place, item)| at(item, 10 + place)).collect())
}

fn ids(names: &[&str]) -> Vec<String> {
    names.iter().map(|name| name.to_string()).collect()
}

#[test]
fn a_plan_item_is_read_from_an_object() {
    let item = PlanItem::from_rimu(&object(vec![
        ("id", text("web")),
        ("module", text("@core/apt")),
        ("params", object(vec![("package", text("nginx"))])),
        ("requires", list(vec![text("base"), text("net")])),
        ("required_by", list(vec![text("site")])),
    ]))
    .unwrap();
    assert_eq!(item.module.inner, "@core/apt");
    assert_eq!(item.module.span.start, 1);
    assert_eq!(item.id.as_ref().unwrap().inner, "web");
    assert!(item.params.as_ref().unwrap().inner.same_as(&object(vec![("package", text("nginx"))])));
    let requires: Vec<&str> = item.requires.iter().map(|name| name.inner.as_str()).collect();
    assert_eq!(requires, vec!["base", "net"]);
    assert_eq!(item.requires[1].span.start, 11);
    let required_by: Vec<&str> = item.required_by.iter().map(|name| name.inner.as_str()).collect();
    assert_eq!(required_by, vec!["site"]);
    let bare = PlanItem::from_rimu(&object(vec![("module", text("./other.rimu"))])).unwrap();
    assert!(bare.id.is_none() && bare.params.is_none());
    assert!(bare.requires.is_empty() && bare.required_by.is_empty());
}

#[test]
fn what_is_no_plan_item_is_refused() {
    let read = |value: Value| PlanItem::from_rimu(&value).unwrap_err();
    assert!(matches!(read(text("x")), IntoPlanItemError::NotAnObject));
    assert!(matches!(read(object(vec![("id", text("a"))])), IntoPlanItemError::ModuleMissing));
    assert!(matches!(
        read(object(vec![("module", Value::Null)])),
        IntoPlanItemError::ModuleNotAString { span } if span.start == 0
    ));
    assert!(matches!(
        read(object(vec![("module", text("m")), ("id", Value::Boolean(true))])),
        IntoPlanItemError::IdNotAString { span } if span.start == 1
    ));
    assert!(matches!(
        read(object(vec![("module", text("m")), ("requires", text("a"))])),
        IntoPlanItemError::RequiresNotAList { span } if span.start == 1
    ));
    assert!(matches!(
        read(object(vec![("module", text("m")), ("requires", list(vec![text("a"), Value::Null]))])),
        IntoPlanItemError::RequiresItemNotAString { item_span } if item_span.start == 11
    ));
    assert!(matches!(
        read(object(vec![("module", text("m")), ("required_by", Value::Null)])),
        IntoPlanItemError::RequiredByNotAList { .. }
    ));
    assert!(matches!(
        read(object(vec![("module", text("m")), ("required_by", list(vec![Value::Null]))])),
        IntoPlanItemError::RequiredByItemNotAString { item_span } if item_span.start == 10
    ));
    assert!(matches!(
        read(object(vec![
            ("required_by", Value::Null),
            ("requires", Value::Null),
            ("id", Value::Null),
            ("module", text("m"))
        ])),
        IntoPlanItemError::IdNotAString { .. }
    ));
}

#[test]
fn the_names_of_an_item_belong_to_its_plan() {
    let item = PlanItem::from_rimu(&object(vec![
        ("id", text("web")),
        ("module", text("@core/apt")),
        ("requires", list(vec![text("base")])),
    ]))
    .unwrap();
    let plan = PlanId::Path("/plans/site.rimu".to_string());
    let meta = item.meta(&plan);
    assert_eq!(
        meta.id,
        Some(PlanNodeId::PlanItem { plan_id: plan.clone(), item_id: "web".to_string() })
    );
    assert_eq!(
        meta.requires,
        vec![PlanNodeId::PlanItem { plan_id: plan.clone(), item_id: "base".to_string() }]
    );
    assert!(meta.required_by.is_empty());
}

#[test]
fn a_core_module_is_named_behind_its_prefix() {
    assert_eq!(is_core_module("@core/apt"), Some("apt".to_string()));
    assert_eq!(is_core_module("@core/"), Some(String::new()));
    assert_eq!(is_core_module("@core"), None);
    assert_eq!(is_core_module("./other.rimu"), None);
    assert_eq!(is_core_module("x@core/apt"), None);
    assert_eq!(CoreKind::from_name("apt"), Some(CoreKind::Apt));
    assert_eq!(CoreKind::from_name("file"), Some(CoreKind::File));
    assert_eq!(CoreKind::from_name("pacman"), Some(CoreKind::Pacman));
    assert_eq!(CoreKind::from_name("command"), Some(CoreKind::Command));
    assert_eq!(CoreKind::from_name("git"), Some(CoreKind::Git));
    assert_eq!(CoreKind::from_name("docker"), None);
    assert_eq!(CoreKind::from_name(""), None);
    assert!(matches!(
        CoreKind::Git.param_types(),
        lusid::params::schema::ParamTypes::Struct(_)
    ));
    assert!(matches!(
        CoreKind::File.param_types(),
        lusid::params::schema::ParamTypes::Union(cases) if cases.len() == 5
    ));
}

#[test]
fn plan_ids_are_compared_and_labelled() {
    let path = PlanId::Path("/a/b.rimu".to_string());
    let git = PlanId::Git("https://x/y".to_string(), "p.rimu".to_string());
    assert!(path.same_as(&path.duplicate()));
    assert!(!path.same_as(&git));
    assert!(!git.same_as(&PlanId::Git("https://x/y".to_string(), "q.rimu".to_string())));
    assert_eq!(path.label(), "Path(/a/b.rimu)");
    assert_eq!(git.label(), "Git(https://x/y, p.rimu)");
    assert_eq!(path.join("c.rimu"), PlanId::Path("/a/c.rimu".to_string()));
    assert_eq!(git.join("d/e.rimu"), PlanId::Git("https://x/y".to_string(), "d/e.rimu".to_string()));
    assert_eq!(path.clone().as_path(), Some("/a/b.rimu".to_string()));
    assert_eq!(git.clone().as_path(), None);
    let item = PlanNodeId::PlanItem { plan_id: path.clone(), item_id: "web".to_string() };
    let sub = PlanNodeId::SubItem { scope_id: "s1".to_string(), item_id: "file".to_string() };
    assert_eq!(PlanNodeId::Plan(path.clone()).label(), "Plan(Path(/a/b.rimu))");
    assert_eq!(item.label(), "PlanItem(plan = Path(/a/b.rimu), item = web)");
    assert_eq!(sub.label(), "SubItem(scope = s1, item = file)");
    assert!(item.same_as(&item.duplicate()));
    assert!(!item.same_as(&sub));
    assert!(!sub.same_as(&PlanNodeId::SubItem { scope_id: "s2".to_string(), item_id: "file".to_string() }));
}

fn sub(scope: &str, item: &str) -> PlanNodeId {
    PlanNodeId::SubItem { scope_id: scope.to_string(), item_id: item.to_string() }
}

#[test]
fn names_below_an_item_get_a_scope() {
    let meta = CausalityMeta {
        id: Some("file".to_string()),
        requires: ids(&["a", "b"]),
        required_by: ids(&["c"]),
    };
    let scoped = scope_meta(meta, "s1");
    assert_eq!(scoped.id, Some(sub("s1", "file")));
    assert_eq!(scoped.requires, vec![sub("s1", "a"), sub("s1", "b")]);
    assert_eq!(scoped.required_by, vec![sub("s1", "c")]);
    let tree: Tree<u8, CausalityMeta<String>> = Tree::branch(
        CausalityMeta::id("top".to_string()),
        vec![
            Tree::leaf(CausalityMeta::id("file".to_string()), 1),
            Tree::leaf(CausalityMeta::requiring(ids(&["file"])), 2),
        ],
    );
    let expected: PlanTree<u8> = Tree::branch(
        CausalityMeta::id(sub("s1", "top")),
        vec![
            Tree::leaf(CausalityMeta::id(sub("s1", "file")), 1),
            Tree::leaf(CausalityMeta::requiring(vec![sub("s1", "file")]), 2),
        ],
    );
    assert_eq!(format!("{:?}", scope_tree(tree, "s1")), format!("{:?}", expected));
}

fn item_meta(id: &str) -> PlanMeta {
    CausalityMeta::id(PlanNodeId::PlanItem {
        plan_id: PlanId::Path("/p.rimu".to_string()),
        item_id: id.to_string(),
    })
}

#[test]
fn subitems_go_below_their_item() {
    let subitems: Vec<Tree<u8, CausalityMeta<String>>> = vec![
        Tree::leaf(CausalityMeta::id("update".to_string()), 1),
        Tree::leaf(CausalityMeta::requiring(ids(&["update"])), 2),
    ];
    let tree = scope_subitems(item_meta("web"), subitems, "s1");
    let expected: PlanTree<u8> = Tree::branch(
        item_meta("web"),
        vec![
            Tree::leaf(CausalityMeta::id(sub("s1", "update")), 1),
            Tree::leaf(CausalityMeta::requiring(vec![sub("s1", "update")]), 2),
        ],
    );
    assert_eq!(format!("{:?}", tree), format!("{:?}", expected));
}

fn scopes_of<N>(tree: &PlanTree<N>) -> Vec<String> {
    let mut scopes = Vec::new();
    if let Tree::Branch { children, .. } = tree {
        for child in children {
            if let Tree::Leaf { meta, .. } | Tree::Branch { meta, .. } = child {
                for id in meta.id.iter().chain(meta.requires.iter()).chain(meta.required_by.iter()) {
                    match id {
                        PlanNodeId::SubItem { scope_id, .. } => scopes.push(scope_id.clone()),
                        other => panic!("unexpected name {:?}", other),
                    }
                }
            }
        }
    }
    scopes
}

#[test]
fn every_expansion_gets_a_scope_of_its_own() {
    let subitems = || -> Vec<Tree<u8, CausalityMeta<String>>> {
        vec![
            Tree::leaf(CausalityMeta::id("file".to_string()), 1),
            Tree::leaf(CausalityMeta::requiring(ids(&["file"])), 2),
        ]
    };
    let first = map_plan_subitems(item_meta("a"), subitems());
    let second = map_plan_subitems(item_meta("b"), subitems());
    let first_scopes = scopes_of(&first);
    let second_scopes = scopes_of(&second);
    assert_eq!(first_scopes.len(), 2);
    assert_eq!(first_scopes[0], first_scopes[1]);
    assert!(!first_scopes[0].is_empty());
    assert_ne!(first_scopes[0], second_scopes[0]);
    match &first {
        Tree::Branch { meta, children } => {
            assert_eq!(format!("{:?}", meta), format!("{:?}", item_meta("a")));
            assert_eq!(children.len(), 2);
        }
        other => panic!("unexpected tree {:?}", other),
    }
}

#[test]
fn a_plan_tree_shows_names_and_dots() {
    let tree: PlanTree<String> = Tree::branch(
        CausalityMeta::default(),
        vec![
            Tree::leaf(item_meta("a"), "leaf a".to_string()),
            Tree::branch(item_meta("b"), vec![Tree::leaf(CausalityMeta::default(), "leaf b".to_string())]),
        ],
    );
    let expected = ViewTree::Branch {
        view: ViewElement::line("."),
        children: vec![
            ViewTree::Leaf { view: ViewElement::line("leaf a") },
            ViewTree::Branch {
                view: ViewElement::line("PlanItem(plan = Path(/p.rimu), item = b)"),
                children: vec![ViewTree::Leaf { view: ViewElement::line("leaf b") }],
            },
        ],
    };
    assert_eq!(format!("{:?}", render_plan_tree(&tree)), format!("{:?}", expected));
}

fn apt_item(id: &str, packages: &[&str]) -> PlanTree<ResourceParams> {
    Tree::leaf(
        item_meta(id),
        ResourceParams::Apt(AptParams::Packages { packages: ids(packages) }),
    )
}

#[test]
fn two_apt_items_become_one_update_and_one_install() {
    let plan: PlanTree<ResourceParams> = Tree::branch(
        CausalityMeta::default(),
        vec![apt_item("one", &["git"]), apt_item("two", &["curl"])],
    );
    let flat = FlatTree::from(plan);
    let resources = flat
        .map_tree(
            |params: ResourceParams, meta: PlanMeta| resources_of(params, meta),
            |_index: usize, _tree: &PlanTree<Resource>| -> Result<(), String> { Ok(()) },
        )
        .unwrap();
    let states = resources
        .map_result_async(
            |resource: Resource| -> Result<(Resource, ResourceState), String> {
                Ok((resource, ResourceState::Apt(AptState::NotInstalled)))
            },
            |_index: usize| -> Result<(), String> { Ok(()) },
            |_index: usize, _node: (Resource, ResourceState)| -> Result<(), String> { Ok(()) },
        )
        .unwrap();
    let changes = states
        .map_option(
            |(resource, state): (Resource, ResourceState)| change_of(&resource, &state).unwrap(),
            |_index: usize, _change: Option<&ResourceChange>| -> Result<(), String> { Ok(()) },
        )
        .unwrap();
    assert!(!changes.is_empty());
    let operations = changes
        .map_tree(
            |change: ResourceChange, meta: PlanMeta| operations_of(change, meta),
            |_index: usize, _tree: &PlanTree<Operation>| -> Result<(), String> { Ok(()) },
        )
        .unwrap();
    let tree: PlanTree<Operation> = Tree::from(operations);
    let epochs = compute_epochs(tree.map(Some)).unwrap();
    let shown: Vec<Vec<String>> = epochs
        .iter()
        .map(|epoch| epoch.iter().map(|operation| operation.label()).collect())
        .collect();
    assert_eq!(
        shown,
        vec![
            vec!["Apt::Update".to_string(), "Apt::Update".to_string()],
            vec![
                "Apt::Install(packages = [git])".to_string(),
                "Apt::Install(packages = [curl])".to_string()
            ],
        ]
    );
    let by_epoch: Vec<Vec<String>> = merge_epochs(epochs.clone())
        .iter()
        .map(|epoch| epoch.iter().map(|operation| operation.label()).collect())
        .collect();
    assert_eq!(
        by_epoch,
        vec![
            vec!["Apt::Update".to_string()],
            vec!["Apt::Install(packages = [curl, git])".to_string()],
        ]
    );
    let all: Vec<Operation> = epochs.into_iter().flatten().collect();
    let merged = Operation::merge(all);
    let labels: Vec<String> = merged.iter().map(|operation| operation.label()).collect();
    assert_eq!(labels, vec!["Apt::Update", "Apt::Install(packages = [curl, git])"]);
}

#[test]
fn a_plan_without_changes_stops_after_the_changes() {
    let plan: PlanTree<ResourceParams> = Tree::branch(
        CausalityMeta::default(),
        vec![Tree::leaf(
            item_meta("file"),
            ResourceParams::File(FileParams::File {
                path: FilePath::new("/tmp/x"),
                mode: None,
                user: None,
                group: None,
            }),
        )],
    );
    let resources = FlatTree::from(plan)
        .map_tree(
            |params: ResourceParams, meta: PlanMeta| resources_of(params, meta),
            |_index: usize, _tree: &PlanTree<Resource>| -> Result<(), String> { Ok(()) },
        )
        .unwrap();
    let reported = std::cell::RefCell::new(Vec::new());
    let changes = resources
        .map_option(
            |resource: Resource| {
                change_of(&resource, &ResourceState::File(FileState::FilePresent)).unwrap()
            },
            |index: usize, change: Option<&ResourceChange>| -> Result<(), String> {
                reported.borrow_mut().push((index, change.is_some()));
                Ok(())
            },
        )
        .unwrap();
    assert_eq!(*reported.borrow(), vec![(2, false)]);
    assert!(changes.is_empty());
    assert_eq!(changes.len(), 3);
    assert!(changes.get(0).is_err() && changes.get(1).is_err() && changes.get(2).is_err());
}

#[test]
fn a_state_of_another_kind_is_no_state_of_the_resource() {
    let resource = Resource::Apt(AptResource { package: "git".to_string() });
    assert!(change_of(&resource, &ResourceState::File(FileState::FilePresent)).is_none());
    assert!(matches!(
        change_of(&resource, &ResourceState::Apt(AptState::Installed)),
        Some(None)
    ));
    assert!(matches!(
        change_of(&resource, &ResourceState::Apt(AptState::NotInstalled)),
        Some(Some(ResourceChange::Apt(_)))
    ));
}

#[test]
fn the_epochs_are_reported_by_label() {
    let epochs = vec![
        vec![Operation::Apt(AptOperation::Update)],
        vec![
            Operation::Apt(AptOperation::Install { packages: ids(&["git"]) }),
            Operation::Apt(AptOperation::Update),
        ],
        vec![],
    ];
    let expected = vec![
        vec![ViewElement::line("Apt::Update")],
        vec![ViewElement::line("Apt::Install(packages = [git])"), ViewElement::line("Apt::Update")],
        vec![],
    ];
    assert_eq!(format!("{:?}", epoch_labels(&epochs)), format!("{:?}", expected));
    assert_eq!(operation_error(true, "warning".to_string()), None);
    assert_eq!(operation_error(false, "E: failed".to_string()), Some("E: failed".to_string()));
}

#[test]
fn a_plan_module_is_read_from_an_object() {
    let string = || object(vec![("type", text("string"))]);
    let plan = Plan::from_rimu(&object(vec![
        ("name", text("site")),
        ("version", text("1.2.0")),
        ("params", object(vec![("host", string())])),
        ("setup", Value::Function),
    ]))
    .unwrap();
    assert_eq!(plan.name.as_ref().unwrap().inner.0, "site");
    assert_eq!(plan.name.as_ref().unwrap().span.start, 0);
    assert_eq!(plan.version.as_ref().unwrap().inner.0, "1.2.0");
    assert_eq!(plan.setup.start, 3);
    match &plan.params.as_ref().unwrap().inner {
        lusid::params::schema::ParamTypes::Struct(fields) => {
            assert_eq!(fields.keys().collect::<Vec<_>>(), vec!["host"])
        }
        other => panic!("unexpected schema {:?}", other),
    }
    let bare = Plan::from_rimu(&object(vec![("setup", Value::Function)])).unwrap();
    assert!(bare.name.is_none() && bare.version.is_none() && bare.params.is_none());

    let read = |value: Value| Plan::from_rimu(&value).unwrap_err();
    assert!(matches!(read(text("x")), PlanFromRimuError::NotAnObject));
    assert!(matches!(read(object(vec![])), PlanFromRimuError::SetupMissing));
    assert!(matches!(
        read(object(vec![("name", Value::Null), ("setup", Value::Function)])),
        PlanFromRimuError::Name(error) if error.span.start == 0
    ));
    assert!(matches!(
        read(object(vec![("setup", Value::Function), ("version", Value::Boolean(true))])),
        PlanFromRimuError::Version(error) if error.span.start == 1
    ));
    assert!(matches!(
        read(object(vec![("params", text("x")), ("setup", Value::Function)])),
        PlanFromRimuError::Params(_)
    ));
    assert!(matches!(
        read(object(vec![("params", object(vec![("host", text("x"))]))])),
        PlanFromRimuError::Params(_)
    ));
    assert!(matches!(
        read(object(vec![("setup", text("x"))])),
        PlanFromRimuError::SetupNotAFunction(error) if error.span.start == 0
    ));
    assert!(matches!(
        read(object(vec![("version", Value::Null), ("name", Value::Null)])),
        PlanFromRimuError::Name(_)
    ));
}

#[test]
fn names_and_versions_are_texts() {
    assert_eq!(Name::from_rimu(&text("site")).unwrap().0, "site");
    assert!(Name::from_rimu(&Value::Null).is_err());
    assert!(Name::from_rimu(&Value::Number("1".to_string())).is_err());
    assert_eq!(Version::from_rimu(&text("")).unwrap().0, "");
    assert!(Version::from_rimu(&list(vec![])).is_err());
}
