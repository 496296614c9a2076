use lusid::apply::{
    core_module, merge_epochs, run_epochs, CoreKind, PlanItemToResourceError, RunOutcome,
};
use lusid::operation::apt::AptOperation;
use lusid::operation::command::CommandOperation;
use lusid::operation::Operation;
use lusid::operation::file::{FileGroup, FileMode, FilePath, FileUser};
use lusid::params::read::{flag_value, number_value, parse_number, text_value, texts_value};
use lusid::params::validate::ParamsValidationError;
use lusid::params::value::{Span, Spanned, Value};
use lusid::params::values::{ParamValue, ParamValues};
use lusid::resource::apt::AptParams;
use lusid::resource::command::CommandParams;
use lusid::resource::file::FileParams;
use lusid::resource::git::GitParams;
use lusid::resource::pacman::PacmanParams;
use lusid::resource::ResourceParams;

fn at<T>(inner: T) -> Spanned<T> {
    Spanned { inner, span: Span { source: "plans/site/plan.rimu".to_string(), start: 0, end: 0 } }
}

fn text(value: &str) -> Value {
    Value::String(value.to_string())
}

fn number(value: &str) -> Value {
    Value::Number(value.to_string())
}

fn object(entries: Vec<(&str, Value)>) -> Spanned<Value> {
    at(Value::Object(entries.into_iter().map(|(key, value)| (key.to_string(), at(value))).collect()))
}

fn list(items: Vec<Value>) -> Value {
    Value::List(items.into_iter().map(at).collect())
}

fn read(kind: &str, params: Vec<(&str, Value)>) -> Result<ResourceParams, PlanItemToResourceError> {
    core_module(kind, Some(&object(params)))
}

fn shown(params: Result<ResourceParams, PlanItemToResourceError>) -> String {
    format!("{:?}", params.unwrap())
}

#[test]
fn numbers_are_read_from_decimal_digits() {
    assert_eq!(parse_number("420"), Some(420));
    assert_eq!(parse_number("0"), Some(0));
    assert_eq!(parse_number("007"), Some(7));
    assert_eq!(parse_number("4294967295"), Some(u32::MAX));
    for text in ["", "4294967296", "99999999999999999999999", "-1", "+1", "1.0", "1e3", " 1", "٣"] {
        assert_eq!(parse_number(text), None);
    }
}

#[test]
fn single_values_are_read_by_kind() {
    assert_eq!(text_value(&ParamValue::String("a".to_string())), Some("a".to_string()));
    assert_eq!(text_value(&ParamValue::HostPath("h/p".to_string())), Some("h/p".to_string()));
    assert_eq!(text_value(&ParamValue::TargetPath("/t".to_string())), Some("/t".to_string()));
    assert_eq!(text_value(&ParamValue::Literal(text("file"))), Some("file".to_string()));
    assert_eq!(text_value(&ParamValue::Number("1".to_string())), None);
    assert_eq!(text_value(&ParamValue::Literal(Value::Null)), None);
    assert_eq!(flag_value(&ParamValue::Boolean(true)), Some(true));
    assert_eq!(flag_value(&ParamValue::Literal(Value::Boolean(false))), Some(false));
    assert_eq!(flag_value(&ParamValue::String("true".to_string())), None);
    assert_eq!(number_value(&ParamValue::Number("493".to_string())), Some(493));
    assert_eq!(number_value(&ParamValue::Number("4.5".to_string())), None);
    assert_eq!(number_value(&ParamValue::String("493".to_string())), None);
    let names = ParamValue::List(vec![
        at(ParamValue::String("a".to_string())),
        at(ParamValue::String("b".to_string())),
    ]);
    assert_eq!(texts_value(&names), Some(vec!["a".to_string(), "b".to_string()]));
    assert_eq!(texts_value(&ParamValue::List(vec![])), Some(vec![]));
    let mixed = ParamValue::List(vec![
        at(ParamValue::String("a".to_string())),
        at(ParamValue::Boolean(true)),
        at(ParamValue::String("c".to_string())),
    ]);
    assert_eq!(texts_value(&mixed), None);
    assert_eq!(texts_value(&ParamValue::String("a".to_string())), None);
}

#[test]
fn values_are_read_under_a_name() {
    let values = ParamValues(vec![
        ("name".to_string(), at(ParamValue::String("first".to_string()))),
        ("count".to_string(), at(ParamValue::Number("3".to_string()))),
        ("name".to_string(), at(ParamValue::String("second".to_string()))),
        ("deep".to_string(), at(ParamValue::Boolean(true))),
    ]);
    assert_eq!(values.text("name"), Some("first".to_string()));
    assert_eq!(values.text("count"), None);
    assert_eq!(values.text("other"), None);
    assert_eq!(values.optional_text("name"), Some(Some("first".to_string())));
    assert_eq!(values.optional_text("other"), Some(None));
    assert_eq!(values.optional_text("count"), None);
    assert_eq!(values.optional_number("count"), Some(Some(3)));
    assert_eq!(values.optional_number("other"), Some(None));
    assert_eq!(values.optional_number("name"), None);
    assert_eq!(values.optional_flag("deep"), Some(Some(true)));
    assert_eq!(values.optional_flag("other"), Some(None));
    assert_eq!(values.optional_flag("name"), None);
    assert_eq!(values.texts("name"), None);
    assert!(matches!(values.held("deep"), Some(ParamValue::Boolean(true))));
    assert!(values.held("shallow").is_none());
}

#[test]
fn packages_are_read_for_apt_and_pacman() {
    assert_eq!(
        shown(read("apt", vec![("package", text("git"))])),
        format!("{:?}", ResourceParams::Apt(AptParams::Package { package: "git".to_string() }))
    );
    assert_eq!(
        shown(read("apt", vec![("packages", list(vec![text("git"), text("curl")]))])),
        format!(
            "{:?}",
            ResourceParams::Apt(AptParams::Packages {
                packages: vec!["git".to_string(), "curl".to_string()]
            })
        )
    );
    assert_eq!(
        shown(read("pacman", vec![("package", text("git"))])),
        format!("{:?}", ResourceParams::Pacman(PacmanParams::Package { package: "git".to_string() }))
    );
    assert_eq!(
        shown(read("pacman", vec![("packages", list(vec![]))])),
        format!("{:?}", ResourceParams::Pacman(PacmanParams::Packages { packages: vec![] }))
    );
    assert!(matches!(
        read("apt", vec![("package", text("git")), ("packages", list(vec![]))]),
        Err(PlanItemToResourceError::ParamsValidation(ParamsValidationError::Union { .. }))
    ));
    assert!(matches!(
        read("apt", vec![("packages", text("git"))]),
        Err(PlanItemToResourceError::ParamsValidation(_))
    ));
}

#[test]
fn a_file_is_read_with_its_attributes() {
    let params = read(
        "file",
        vec![
            ("type", text("file")),
            ("path", text("/etc/foo")),
            ("mode", number("420")),
            ("user", text("root")),
        ],
    );
    assert_eq!(
        shown(params),
        format!(
            "{:?}",
            ResourceParams::File(FileParams::File {
                path: FilePath::new("/etc/foo"),
                mode: Some(FileMode::new(420)),
                user: Some(FileUser::new("root")),
                group: None,
            })
        )
    );
    assert_eq!(
        shown(read("file", vec![("path", text("/srv")), ("group", text("www")), ("type", text("directory"))])),
        format!(
            "{:?}",
            ResourceParams::File(FileParams::Directory {
                path: FilePath::new("/srv"),
                mode: None,
                user: None,
                group: Some(FileGroup::new("www")),
            })
        )
    );
    assert_eq!(
        shown(read("file", vec![("type", text("file-absent")), ("path", text("/tmp/x"))])),
        format!("{:?}", ResourceParams::File(FileParams::FileAbsent { path: FilePath::new("/tmp/x") }))
    );
    assert_eq!(
        shown(read("file", vec![("type", text("directory-absent")), ("path", text("/tmp/d"))])),
        format!(
            "{:?}",
            ResourceParams::File(FileParams::DirectoryAbsent { path: FilePath::new("/tmp/d") })
        )
    );
    assert_eq!(
        shown(read(
            "file",
            vec![("type", text("source")), ("source", text("files/foo")), ("path", text("/etc/foo"))]
        )),
        format!(
            "{:?}",
            ResourceParams::File(FileParams::Source {
                source: FilePath::new("plans/site/files/foo"),
                path: FilePath::new("/etc/foo"),
                mode: None,
                user: None,
                group: None,
            })
        )
    );
}

#[test]
fn a_file_that_does_not_fit_is_refused() {
    assert!(matches!(
        read("file", vec![("type", text("file")), ("path", text("etc/foo"))]),
        Err(PlanItemToResourceError::ParamsValidation(_))
    ));
    assert!(matches!(
        read("file", vec![("type", text("link")), ("path", text("/etc/foo"))]),
        Err(PlanItemToResourceError::ParamsValidation(_))
    ));
    assert!(matches!(
        read("file", vec![("type", text("file")), ("path", text("/etc/foo")), ("mode", number("0.5"))]),
        Err(PlanItemToResourceError::ParamsIntoType)
    ));
    assert!(matches!(
        read("file", vec![("type", text("file")), ("path", text("/f")), ("mode", number("4294967296"))]),
        Err(PlanItemToResourceError::ParamsIntoType)
    ));
    assert!(matches!(
        read("file", vec![("type", text("file-absent")), ("path", text("/f")), ("mode", number("1"))]),
        Err(PlanItemToResourceError::ParamsValidation(_))
    ));
}

#[test]
fn a_command_is_read_by_its_status() {
    assert_eq!(
        shown(read(
            "command",
            vec![
                ("status", text("uninstall")),
                ("is_installed", text("false_command")),
                ("uninstall", text("rm -f /tmp/x")),
            ]
        )),
        format!(
            "{:?}",
            ResourceParams::Command(CommandParams::Uninstall {
                is_installed: Some("false_command".to_string()),
                install: None,
                uninstall: "rm -f /tmp/x".to_string(),
            })
        )
    );
    assert_eq!(
        shown(read(
            "command",
            vec![("install", text("make install")), ("uninstall", text("make uninstall")), ("status", text("install"))]
        )),
        format!(
            "{:?}",
            ResourceParams::Command(CommandParams::Install {
                is_installed: None,
                install: "make install".to_string(),
                uninstall: Some("make uninstall".to_string()),
            })
        )
    );
    assert!(matches!(
        read("command", vec![("status", text("install")), ("uninstall", text("x"))]),
        Err(PlanItemToResourceError::ParamsIntoType)
    ));
    assert!(matches!(
        read("command", vec![("status", text("upgrade")), ("install", text("x"))]),
        Err(PlanItemToResourceError::ParamsIntoType)
    ));
    assert!(matches!(
        read("command", vec![("install", text("x"))]),
        Err(PlanItemToResourceError::ParamsValidation(_))
    ));
}

#[test]
fn a_checkout_is_read_with_its_flags() {
    assert_eq!(
        shown(read(
            "git",
            vec![
                ("repo", text("https://example.org/r.git")),
                ("path", text("/srv/r")),
                ("version", text("main")),
                ("force", Value::Boolean(true)),
            ]
        )),
        format!(
            "{:?}",
            ResourceParams::Git(GitParams {
                repo: "https://example.org/r.git".to_string(),
                path: FilePath::new("/srv/r"),
                version: Some("main".to_string()),
                update: None,
                force: Some(true),
            })
        )
    );
    assert!(matches!(
        read("git", vec![("repo", text("r")), ("path", text("relative"))]),
        Err(PlanItemToResourceError::ParamsValidation(_))
    ));
}

#[test]
fn a_core_module_needs_a_known_kind_and_parameters() {
    assert!(matches!(
        read("docker", vec![]),
        Err(PlanItemToResourceError::UnsupportedCoreModuleId { id }) if id == "docker"
    ));
    assert!(matches!(core_module("apt", None), Err(PlanItemToResourceError::MissingParams)));
    assert!(matches!(
        core_module("docker", None),
        Err(PlanItemToResourceError::UnsupportedCoreModuleId { .. })
    ));
    assert!(matches!(
        core_module("apt", Some(&at(text("git")))),
        Err(PlanItemToResourceError::ParamsValidation(ParamsValidationError::ValuesNotAnObject))
    ));
    let rootless = Spanned {
        inner: Value::Object(vec![
            ("type".to_string(), Spanned { inner: text("source"), span: Span { source: String::new(), start: 0, end: 0 } }),
            ("source".to_string(), Spanned { inner: text("files/foo"), span: Span { source: String::new(), start: 0, end: 0 } }),
            ("path".to_string(), Spanned { inner: text("/etc/foo"), span: Span { source: String::new(), start: 0, end: 0 } }),
        ]),
        span: Span { source: String::new(), start: 0, end: 0 },
    };
    assert!(matches!(
        core_module("file", Some(&rootless)),
        Err(PlanItemToResourceError::ParamsValueFromRimu(_))
    ));
    assert_eq!(
        format!("{:?}", CoreKind::Apt.params(&ParamValues(vec![]))),
        "None"
    );
}

fn install(packages: &[&str]) -> Operation {
    Operation::Apt(AptOperation::Install {
        packages: packages.iter().map(|package| package.to_string()).collect(),
    })
}

fn line(command: &str) -> Operation {
    Operation::Command(CommandOperation { command: command.to_string() })
}

fn labels(epochs: &Vec<Vec<Operation>>) -> Vec<Vec<String>> {
    epochs.iter().map(|epoch| epoch.iter().map(|operation| operation.label()).collect()).collect()
}

#[test]
fn every_epoch_is_merged_by_itself() {
    let merged = merge_epochs(vec![
        vec![install(&["git"]), line("true"), Operation::Apt(AptOperation::Update), install(&["curl"])],
        vec![],
        vec![install(&["git"])],
    ]);
    assert_eq!(
        labels(&merged),
        vec![
            vec!["Apt::Update".to_string(), "Apt::Install(packages = [curl, git])".to_string(), "Command(true)".to_string()],
            vec![],
            vec!["Apt::Install(packages = [git])".to_string()],
        ]
    );
}

#[test]
fn operations_run_in_order_and_are_reported() {
    let epochs = vec![vec![line("a"), line("b")], vec![], vec![line("c")]];
    let log = std::cell::RefCell::new(Vec::new());
    let outcome = run_epochs(
        &epochs,
        |index: (usize, usize)| -> Result<(), String> {
            log.borrow_mut().push(format!("start {:?}", index));
            Ok(())
        },
        |operation: &Operation, index: (usize, usize)| -> Result<(bool, String), String> {
            log.borrow_mut().push(format!("run {:?} {}", index, operation.label()));
            Ok((true, "a warning".to_string()))
        },
        |index: (usize, usize), error: Option<&String>| -> Result<(), String> {
            log.borrow_mut().push(format!("complete {:?} {:?}", index, error));
            Ok(())
        },
    );
    assert!(matches!(outcome, Ok(RunOutcome::Completed)));
    assert_eq!(
        *log.borrow(),
        vec![
            "start (0, 0)", "run (0, 0) Command(a)", "complete (0, 0) None",
            "start (0, 1)", "run (0, 1) Command(b)", "complete (0, 1) None",
            "start (2, 0)", "run (2, 0) Command(c)", "complete (2, 0) None",
        ]
    );
    let nothing: Result<RunOutcome, String> = run_epochs(
        &vec![],
        |_index: (usize, usize)| Ok(()),
        |_operation: &Operation, _index: (usize, usize)| Ok((false, String::new())),
        |_index: (usize, usize), _error: Option<&String>| Ok(()),
    );
    assert!(matches!(nothing, Ok(RunOutcome::Completed)));
}

#[test]
fn the_first_failure_ends_the_run() {
    let epochs = vec![vec![line("a"), line("b"), line("c")], vec![line("d")]];
    let log = std::cell::RefCell::new(Vec::new());
    let outcome = run_epochs(
        &epochs,
        |index: (usize, usize)| -> Result<(), String> {
            log.borrow_mut().push(format!("start {:?}", index));
            Ok(())
        },
        |operation: &Operation, _index: (usize, usize)| -> Result<(bool, String), String> {
            Ok((operation.label() != "Command(b)", format!("{} wrote this", operation.label())))
        },
        |index: (usize, usize), error: Option<&String>| -> Result<(), String> {
            log.borrow_mut().push(format!("complete {:?} {:?}", index, error));
            Ok(())
        },
    );
    match outcome {
        Ok(RunOutcome::Failed { index, error }) => {
            assert_eq!(index, (0, 1));
            assert_eq!(error, "Command(b) wrote this");
        }
        other => panic!("unexpected outcome {:?}", other),
    }
    assert_eq!(
        *log.borrow(),
        vec![
            "start (0, 0)".to_string(),
            "complete (0, 0) None".to_string(),
            "start (0, 1)".to_string(),
            "complete (0, 1) Some(\"Command(b) wrote this\")".to_string(),
        ]
    );
}

#[test]
fn a_call_that_fails_ends_the_run() {
    let epochs = vec![vec![line("a"), line("b")]];
    let started = run_epochs(
        &epochs,
        |index: (usize, usize)| -> Result<(), String> {
            if index == (0, 1) {
                Err("no start".to_string())
            } else {
                Ok(())
            }
        },
        |_operation: &Operation, _index: (usize, usize)| Ok((true, String::new())),
        |_index: (usize, usize), _error: Option<&String>| Ok(()),
    );
    assert_eq!(started.err(), Some("no start".to_string()));
    let ran = run_epochs(
        &epochs,
        |_index: (usize, usize)| Ok(()),
        |_operation: &Operation, _index: (usize, usize)| -> Result<(bool, String), String> {
            Err("no spawn".to_string())
        },
        |_index: (usize, usize), _error: Option<&String>| Ok(()),
    );
    assert_eq!(ran.err(), Some("no spawn".to_string()));
    let completed = run_epochs(
        &epochs,
        |_index: (usize, usize)| Ok(()),
        |_operation: &Operation, _index: (usize, usize)| Ok((true, String::new())),
        |_index: (usize, usize), _error: Option<&String>| -> Result<(), String> {
            Err("no report".to_string())
        },
    );
    assert_eq!(completed.err(), Some("no report".to_string()));
}

#[test]
fn the_tree_of_changes_tells_what_comes_next() {
    use_after_changes();
}

fn use_after_changes() {
    let some: lusid::tree::FlatTree<u8, &'static str> =
        lusid::tree::FlatTree::from(lusid::tree::Tree::branch("", vec![lusid::tree::Tree::leaf("", 1)]));
    let (update, next) = lusid::apply::after_changes(&some);
    assert!(matches!(
        update,
        lusid::apply_stdio::AppUpdate::ResourceChangesComplete { has_changes: true }
    ));
    assert_eq!(next, lusid::apply::AfterChanges::Operations);
    let none = some
        .map_option(
            |_node: u8| -> Option<u8> { None },
            |_index: usize, _node: Option<&u8>| -> Result<(), String> { Ok(()) },
        )
        .unwrap();
    let (update, next) = lusid::apply::after_changes(&none);
    assert!(matches!(
        update,
        lusid::apply_stdio::AppUpdate::ResourceChangesComplete { has_changes: false }
    ));
    assert_eq!(next, lusid::apply::AfterChanges::Stop);
    let empty: lusid::tree::FlatTree<u8, &'static str> = lusid::tree::FlatTree::new();
    assert_eq!(lusid::apply::after_changes(&empty).1, lusid::apply::AfterChanges::Stop);
}
