use lusid::operation::apt::{Apt, AptOperation};
use lusid::operation::command::{Command, CommandOperation};
use lusid::operation::file::{
    File, FileGroup, FileMode, FileOperation, FilePath, FileSource, FileUser,
};
use lusid::operation::git::{Git, GitOperation};
use lusid::operation::pacman::{Pacman, PacmanOperation};
use lusid::operation::{partition_by_type, Operation};

fn names(list: &[&str]) -> Vec<String> {
    list.iter().map(|name| name.to_string()).collect()
}

fn labels(operations: &[Operation]) -> Vec<String> {
    operations.iter().map(|operation| operation.label()).collect()
}

#[test]
fn file_values_hand_back_what_they_hold() {
    assert_eq!(FilePath::new("/etc/foo").as_path(), "/etc/foo");
    assert_eq!(FileMode::new(0o644).as_u32(), 0o644);
    assert_eq!(FileUser::new("root").as_str(), "root");
    assert_eq!(FileGroup::new("wheel").as_str(), "wheel");
    assert_eq!(FilePath::new("a"), FilePath::new("a"));
    assert_ne!(FilePath::new("a"), FilePath::new("b"));
}

#[test]
fn apt_merge_keeps_one_update_and_one_sorted_install() {
    let merged = Apt::merge(vec![
        AptOperation::Install { packages: names(&["git"]) },
        AptOperation::Update,
        AptOperation::Install { packages: names(&["curl", "git"]) },
        AptOperation::Update,
        AptOperation::Install { packages: names(&["zsh", "abc"]) },
    ]);
    let shown: Vec<String> = merged.iter().map(|operation| operation.label()).collect();
    assert_eq!(
        shown,
        vec!["Apt::Update", "Apt::Install(packages = [abc, curl, git, zsh])"]
    );
}

#[test]
fn apt_merge_of_nothing_is_nothing() {
    assert!(Apt::merge(vec![]).is_empty());
    let only_update = Apt::merge(vec![AptOperation::Update]);
    assert_eq!(only_update.len(), 1);
    assert!(matches!(only_update[0], AptOperation::Update));
    let no_packages = Apt::merge(vec![AptOperation::Install { packages: vec![] }]);
    assert!(no_packages.is_empty());
    let only_install = Apt::merge(vec![AptOperation::Install { packages: names(&["b", "a"]) }]);
    assert_eq!(only_install.len(), 1);
    match &only_install[0] {
        AptOperation::Install { packages } => assert_eq!(packages, &names(&["a", "b"])),
        other => panic!("unexpected operation {:?}", other),
    }
}

#[test]
fn pacman_merge_keeps_one_upgrade_and_one_sorted_install() {
    let merged = Pacman::merge(vec![
        PacmanOperation::Install { packages: names(&["vim", "git"]) },
        PacmanOperation::Upgrade,
        PacmanOperation::Install { packages: names(&["git"]) },
    ]);
    let shown: Vec<String> = merged.iter().map(|operation| operation.label()).collect();
    assert_eq!(shown, vec!["Pacman::Upgrade", "Pacman::Install(packages = [git, vim])"]);
}

#[test]
fn packages_are_sorted_by_bytes() {
    let merged = Apt::merge(vec![AptOperation::Install {
        packages: names(&["b", "B", "a1", "a", "ab", "é", "z"]),
    }]);
    match &merged[0] {
        AptOperation::Install { packages } => {
            let mut expected = names(&["b", "B", "a1", "a", "ab", "é", "z"]);
            expected.sort();
            assert_eq!(packages, &expected);
            assert_eq!(packages, &names(&["B", "a", "a1", "ab", "b", "z", "é"]));
        }
        other => panic!("unexpected operation {:?}", other),
    }
}

#[test]
fn other_kinds_are_not_merged() {
    let files = vec![
        FileOperation::RemoveFile { path: FilePath::new("/a") },
        FileOperation::RemoveFile { path: FilePath::new("/a") },
    ];
    assert_eq!(File::merge(files).len(), 2);
    let commands = vec![
        CommandOperation { command: "true".to_string() },
        CommandOperation { command: "true".to_string() },
    ];
    assert_eq!(Command::merge(commands).len(), 2);
    let pulls = vec![
        GitOperation::Pull { path: FilePath::new("/r") },
        GitOperation::Pull { path: FilePath::new("/r") },
    ];
    assert_eq!(Git::merge(pulls).len(), 2);
}

fn mixed() -> Vec<Operation> {
    vec![
        Operation::File(FileOperation::CreateDirectory { path: FilePath::new("/d") }),
        Operation::Apt(AptOperation::Install { packages: names(&["git"]) }),
        Operation::Git(GitOperation::Pull { path: FilePath::new("/r") }),
        Operation::Pacman(PacmanOperation::Upgrade),
        Operation::Apt(AptOperation::Update),
        Operation::Command(CommandOperation { command: "echo hi".to_string() }),
        Operation::Apt(AptOperation::Install { packages: names(&["curl"]) }),
        Operation::File(FileOperation::RemoveFile { path: FilePath::new("/f") }),
    ]
}

#[test]
fn partition_keeps_the_order_within_a_kind() {
    let parts = partition_by_type(mixed());
    assert_eq!(parts.apt.len(), 3);
    assert_eq!(parts.pacman.len(), 1);
    assert_eq!(parts.file.len(), 2);
    assert_eq!(parts.command.len(), 1);
    assert_eq!(parts.git.len(), 1);
    assert_eq!(parts.file[0].label(), "File::CreateDirectory(path = /d)");
    assert_eq!(parts.file[1].label(), "File::RemoveFile(path = /f)");
    assert_eq!(parts.apt[1].label(), "Apt::Update");
}

#[test]
fn merge_puts_the_kinds_one_after_the_other() {
    let merged = Operation::merge(mixed());
    assert_eq!(
        labels(&merged),
        vec![
            "Apt::Update",
            "Apt::Install(packages = [curl, git])",
            "Pacman::Upgrade",
            "File::CreateDirectory(path = /d)",
            "File::RemoveFile(path = /f)",
            "Command(echo hi)",
            "Git::Pull(path = /r)",
        ]
    );
}

#[test]
fn two_installs_of_one_epoch_become_one() {
    let merged = Operation::merge(vec![
        Operation::Apt(AptOperation::Update),
        Operation::Apt(AptOperation::Install { packages: names(&["git"]) }),
        Operation::Apt(AptOperation::Update),
        Operation::Apt(AptOperation::Install { packages: names(&["curl"]) }),
    ]);
    assert_eq!(
        labels(&merged),
        vec!["Apt::Update", "Apt::Install(packages = [curl, git])"]
    );
}

#[test]
fn file_operations_are_labelled() {
    let path = || FilePath::new("/etc/foo");
    let shown = |operation: FileOperation| operation.label();
    assert_eq!(
        shown(FileOperation::WriteFile { path: path(), source: FileSource::Contents(vec![1, 2, 3]) }),
        "File::WriteFile(path = /etc/foo, source = Contents(3 bytes))"
    );
    assert_eq!(
        shown(FileOperation::WriteFile {
            path: path(),
            source: FileSource::Path(FilePath::new("src/foo"))
        }),
        "File::WriteFile(path = /etc/foo, source = Path(src/foo))"
    );
    assert_eq!(
        shown(FileOperation::CopyFile { source: FilePath::new("/a"), destination: FilePath::new("/b") }),
        "File::CopyFile(source = /a, destination = /b)"
    );
    assert_eq!(
        shown(FileOperation::MoveFile { source: FilePath::new("/a"), destination: FilePath::new("/b") }),
        "File::MoveFile(source = /a, destination = /b)"
    );
    assert_eq!(
        shown(FileOperation::CreateSymlink { source: FilePath::new("/a"), path: FilePath::new("/b") }),
        "File::CreateSymlink(source = /a, path = /b)"
    );
    assert_eq!(shown(FileOperation::RemoveDirectory { path: path() }), "File::RemoveDirectory(path = /etc/foo)");
    assert_eq!(
        shown(FileOperation::ChangeMode { path: path(), mode: FileMode::new(0o644) }),
        "File::ChangeMode(path = /etc/foo, mode = 644)"
    );
    assert_eq!(
        shown(FileOperation::ChangeMode { path: path(), mode: FileMode::new(0) }),
        "File::ChangeMode(path = /etc/foo, mode = 0)"
    );
    assert_eq!(
        shown(FileOperation::ChangeOwner {
            path: path(),
            user: Some(FileUser::new("root")),
            group: None
        }),
        "File::ChangeOwner(path = /etc/foo, user = Some(FileUser(\"root\")), group = None)"
    );
    assert_eq!(
        shown(FileOperation::ChangeOwner {
            path: path(),
            user: None,
            group: Some(FileGroup::new("a\"b"))
        }),
        "File::ChangeOwner(path = /etc/foo, user = None, group = Some(FileGroup(\"a\\\"b\")))"
    );
}

#[test]
fn git_operations_are_labelled() {
    let path = || FilePath::new("/srv/app");
    assert_eq!(
        GitOperation::Clone { repo: "https://x/y.git".to_string(), path: path() }.label(),
        "Git::Clone(repo = https://x/y.git, path = /srv/app)"
    );
    assert_eq!(GitOperation::Fetch { path: path() }.label(), "Git::Fetch(path = /srv/app)");
    assert_eq!(
        GitOperation::Checkout { path: path(), version: "main".to_string(), force: true }.label(),
        "Git::Checkout(path = /srv/app, version = main, force = true)"
    );
    assert_eq!(GitOperation::Pull { path: path() }.label(), "Git::Pull(path = /srv/app)");
}

#[test]
fn apt_operations_run_apt_get_with_privileges() {
    let update = AptOperation::Update.command();
    assert_eq!(update.label(), "sudo -n DEBIAN_FRONTEND=noninteractive apt-get update");
    let install = AptOperation::Install { packages: names(&["curl", "git"]) }.command();
    assert_eq!(
        install.label(),
        "sudo -n DEBIAN_FRONTEND=noninteractive apt-get install -y curl git"
    );
    assert!(install.environment().is_empty());
}

#[test]
fn pacman_operations_run_pacman_with_privileges() {
    assert_eq!(
        PacmanOperation::Upgrade.command().label(),
        "sudo -n pacman -Syu --noconfirm --color=never"
    );
    assert_eq!(
        PacmanOperation::Install { packages: names(&["git"]) }.command().label(),
        "sudo -n pacman -S --noconfirm --needed --color=never -- git"
    );
}

#[test]
fn git_operations_run_git() {
    let path = || FilePath::new("/srv/app");
    assert_eq!(
        GitOperation::Clone { repo: "r".to_string(), path: path() }.command().label(),
        "git clone r /srv/app"
    );
    assert_eq!(
        GitOperation::Fetch { path: path() }.command().label(),
        "git -C /srv/app fetch --all --prune"
    );
    assert_eq!(
        GitOperation::Checkout { path: path(), version: "v1".to_string(), force: false }
            .command()
            .label(),
        "git -C /srv/app checkout v1"
    );
    assert_eq!(
        GitOperation::Checkout { path: path(), version: "v1".to_string(), force: true }
            .command()
            .label(),
        "git -C /srv/app checkout -f v1"
    );
    assert_eq!(
        GitOperation::Pull { path: path() }.command().label(),
        "git -C /srv/app pull --ff-only"
    );
}

#[test]
fn a_command_operation_runs_its_line() {
    let run = CommandOperation { command: "rm -f '/tmp/x y'".to_string() };
    assert_eq!(run.label(), "Command(rm -f '/tmp/x y')");
    let command = run.command().unwrap();
    assert_eq!(command.program(), "rm");
    assert_eq!(command.arguments(), &names(&["-f", "/tmp/x y"]));
    assert!(CommandOperation { command: "echo \"open".to_string() }.command().is_err());
}
