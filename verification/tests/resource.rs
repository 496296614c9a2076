use lusid::causality::{compute_epochs, CausalityMeta};
use lusid::operation::file::{FileGroup, FileMode, FilePath, FileUser};
use lusid::operation::Operation;
use lusid::resource::apt::{Apt, AptChange, AptParams, AptResource, AptState, AptStateError};
use lusid::resource::command::{
    Command, CommandChange, CommandParams, CommandResource, CommandState, CommandStatus,
};
use lusid::resource::file::{
    File, FileChange, FileObservation, FileParams, FileResource, FileState,
};
use lusid::resource::git::{Git, GitChange, GitParams, GitResource, GitState, GitStateError};
use lusid::resource::pacman::{Pacman, PacmanParams, PacmanResource, PacmanState, PacmanStateError};
use lusid::resource::{Resource, ResourceChange, ResourceParams, ResourceState};
use lusid::tree::Tree;

fn names(list: &[&str]) -> Vec<String> {
    list.iter().map(|name| name.to_string()).collect()
}

fn meta_of<N>(tree: &Tree<N, CausalityMeta<String>>) -> (Option<String>, Vec<String>, Vec<String>) {
    match tree {
        Tree::Leaf { meta, .. } | Tree::Branch { meta, .. } => {
            (meta.id.clone(), meta.requires.clone(), meta.required_by.clone())
        }
    }
}

fn node_of<N>(tree: &Tree<N, CausalityMeta<String>>) -> &N {
    match tree {
        Tree::Leaf { node, .. } => node,
        Tree::Branch { .. } => panic!("expected a leaf"),
    }
}

fn plain() -> (Option<String>, Vec<String>, Vec<String>) {
    (None, vec![], vec![])
}

fn named(id: &str) -> (Option<String>, Vec<String>, Vec<String>) {
    (Some(id.to_string()), vec![], vec![])
}

fn after(id: &str) -> (Option<String>, Vec<String>, Vec<String>) {
    (None, names(&[id]), vec![])
}

#[test]
fn apt_makes_one_resource_for_each_package() {
    let one = Apt::resources(AptParams::Package { package: "git".to_string() });
    assert_eq!(one.len(), 1);
    assert_eq!(node_of(&one[0]).package, "git");
    assert_eq!(meta_of(&one[0]), plain());
    let many = Apt::resources(AptParams::Packages { packages: names(&["git", "curl"]) });
    assert_eq!(many.len(), 2);
    assert_eq!(node_of(&many[0]).package, "git");
    assert_eq!(node_of(&many[1]).package, "curl");
    assert!(Apt::resources(AptParams::Packages { packages: vec![] }).is_empty());
}

#[test]
fn apt_reads_the_status_that_dpkg_prints() {
    assert_eq!(Apt::state_from_output("'install ok installed'").unwrap(), AptState::Installed);
    assert_eq!(Apt::state_from_output("install ok installed").unwrap(), AptState::Installed);
    assert_eq!(
        Apt::state_from_output("'deinstall ok config-files'").unwrap(),
        AptState::NotInstalled
    );
    assert_eq!(
        Apt::state_from_output("'unknown ok not-installed'").unwrap(),
        AptState::NotInstalled
    );
    assert_eq!(Apt::state_from_output("'install ok unpacked'").unwrap(), AptState::NotInstalled);
    assert_eq!(
        Apt::state_from_output("'install ok half-installed'").unwrap(),
        AptState::NotInstalled
    );
    assert_eq!(Apt::state_from_output("install  installed").unwrap(), AptState::Installed);
    assert_eq!(
        Apt::state_from_output("''install ok installed extra''").unwrap(),
        AptState::Installed
    );
}

#[test]
fn apt_refuses_a_status_that_it_does_not_know() {
    for output in ["", "installed", "install ok", "'install ok triggers-pending'", "install  ok installed"] {
        match Apt::state_from_output(output) {
            Err(AptStateError::ParseStatus { status }) => assert_eq!(status, output),
            other => panic!("unexpected state {:?} for {:?}", other, output),
        }
    }
}

#[test]
fn apt_takes_an_unknown_package_for_not_installed() {
    assert_eq!(
        Apt::state_from_failure("dpkg-query: no packages found matching foo\n"),
        Some(AptState::NotInstalled)
    );
    assert_eq!(Apt::state_from_failure("dpkg-query: error: something else"), None);
    assert_eq!(Apt::state_from_failure(""), None);
}

#[test]
fn apt_changes_only_what_is_not_installed() {
    let resource = AptResource { package: "git".to_string() };
    assert!(Apt::change(&resource, &AptState::Installed).is_none());
    match Apt::change(&resource, &AptState::NotInstalled) {
        Some(AptChange::Install { package }) => assert_eq!(package, "git"),
        other => panic!("unexpected change {:?}", other),
    }
}

#[test]
fn apt_installs_after_an_update() {
    let trees = Apt::operations(AptChange::Install { package: "git".to_string() });
    assert_eq!(trees.len(), 2);
    assert_eq!(meta_of(&trees[0]), named("update"));
    assert_eq!(node_of(&trees[0]).label(), "Apt::Update");
    assert_eq!(meta_of(&trees[1]), after("update"));
    assert_eq!(node_of(&trees[1]).label(), "Apt::Install(packages = [git])");
}

#[test]
fn apt_asks_dpkg_for_the_status() {
    let query = Apt::query(&AptResource { package: "git".to_string() });
    assert_eq!(query.label(), "dpkg-query -W -f='${Status}' git");
}

#[test]
fn pacman_reads_what_the_query_prints() {
    assert_eq!(Pacman::state_from_output("git 2.44.0-1\n").unwrap(), PacmanState::Installed);
    match Pacman::state_from_output(" \n\t") {
        Err(PacmanStateError::ParseStatus { output }) => assert_eq!(output, " \n\t"),
        other => panic!("unexpected state {:?}", other),
    }
    assert!(Pacman::state_from_output("").is_err());
    assert_eq!(
        Pacman::state_from_failure("error: package 'foo' was not found\n"),
        Some(PacmanState::NotInstalled)
    );
    assert_eq!(Pacman::state_from_failure("error: database locked"), None);
    assert_eq!(
        Pacman::query(&PacmanResource { package: "git".to_string() }).label(),
        "pacman -Q git"
    );
}

#[test]
fn pacman_installs_after_an_upgrade() {
    let made = Pacman::resources(PacmanParams::Packages { packages: names(&["git"]) });
    assert_eq!(made.len(), 1);
    let change = Pacman::change(node_of(&made[0]), &PacmanState::NotInstalled).unwrap();
    let trees = Pacman::operations(change);
    assert_eq!(trees.len(), 2);
    assert_eq!(meta_of(&trees[0]), named("upgrade"));
    assert_eq!(node_of(&trees[0]).label(), "Pacman::Upgrade");
    assert_eq!(meta_of(&trees[1]), after("upgrade"));
    assert_eq!(node_of(&trees[1]).label(), "Pacman::Install(packages = [git])");
    assert!(Pacman::change(node_of(&made[0]), &PacmanState::Installed).is_none());
}

fn uninstall_resource() -> CommandResource {
    let trees = Command::resources(CommandParams::Uninstall {
        is_installed: Some("false_command".to_string()),
        install: None,
        uninstall: "rm -f /tmp/x".to_string(),
    });
    assert_eq!(trees.len(), 1);
    assert_eq!(meta_of(&trees[0]), plain());
    node_of(&trees[0]).clone()
}

#[test]
fn a_command_that_is_missing_is_not_uninstalled() {
    let resource = uninstall_resource();
    assert_eq!(resource.status, CommandStatus::Uninstall);
    assert_eq!(resource.uninstall, Some("rm -f /tmp/x".to_string()));
    assert_eq!(Command::probe(&resource), Some(&"false_command".to_string()));
    let state = Command::state_from_exit(false);
    assert_eq!(state, CommandState::NotInstalled);
    assert!(Command::change(&resource, &state).is_none());
}

#[test]
fn a_command_changes_only_against_the_wanted_status() {
    let uninstall = uninstall_resource();
    match Command::change(&uninstall, &CommandState::Installed) {
        Some(CommandChange::Uninstall { command }) => assert_eq!(command, "rm -f /tmp/x"),
        other => panic!("unexpected change {:?}", other),
    }
    assert!(Command::change(&uninstall, &CommandState::Unknown).is_none());
    let install = CommandResource {
        status: CommandStatus::Install,
        is_installed: None,
        install: Some("make install".to_string()),
        uninstall: None,
    };
    assert!(Command::change(&install, &CommandState::Installed).is_none());
    assert!(Command::change(&install, &CommandState::Unknown).is_none());
    match Command::change(&install, &CommandState::NotInstalled) {
        Some(CommandChange::Install { command }) => assert_eq!(command, "make install"),
        other => panic!("unexpected change {:?}", other),
    }
    let no_command = CommandResource { install: None, ..install };
    assert!(Command::change(&no_command, &CommandState::NotInstalled).is_none());
    assert_eq!(Command::state_from_exit(true), CommandState::Installed);
}

#[test]
fn a_blank_test_leaves_the_state_unknown() {
    let mut resource = uninstall_resource();
    resource.is_installed = Some("  \t".to_string());
    assert_eq!(Command::probe(&resource), None);
    resource.is_installed = None;
    assert_eq!(Command::probe(&resource), None);
}

#[test]
fn a_command_change_is_one_operation() {
    let trees = Command::operations(CommandChange::Install { command: "make install".to_string() });
    assert_eq!(trees.len(), 1);
    assert_eq!(meta_of(&trees[0]), plain());
    assert_eq!(node_of(&trees[0]).label(), "Command(make install)");
}

#[test]
fn a_file_with_mode_and_owner_expands_in_order() {
    let trees = File::resources(FileParams::File {
        path: FilePath::new("/etc/foo"),
        mode: Some(FileMode::new(0o644)),
        user: Some(FileUser::new("root")),
        group: Some(FileGroup::new("wheel")),
    });
    let shown: Vec<String> = trees.iter().map(|tree| node_of(tree).label()).collect();
    assert_eq!(
        shown,
        vec![
            "FilePresent(/etc/foo)",
            "FileMode(/etc/foo, mode = 644)",
            "FileUser(/etc/foo, user = root)",
            "FileGroup(/etc/foo, group = wheel)",
        ]
    );
    assert_eq!(meta_of(&trees[0]), named("file"));
    for tree in &trees[1..] {
        assert_eq!(meta_of(tree), after("file"));
    }
}

#[test]
fn attributes_that_are_not_given_are_left_out() {
    let trees = File::resources(FileParams::Directory {
        path: FilePath::new("/srv"),
        mode: None,
        user: None,
        group: Some(FileGroup::new("www")),
    });
    let shown: Vec<String> = trees.iter().map(|tree| node_of(tree).label()).collect();
    assert_eq!(shown, vec!["DirectoryPresent(/srv)", "FileGroup(/srv, group = www)"]);
    assert_eq!(meta_of(&trees[0]), named("directory"));
    assert_eq!(meta_of(&trees[1]), after("directory"));
    let source = File::resources(FileParams::Source {
        source: FilePath::new("files/a"),
        path: FilePath::new("/a"),
        mode: None,
        user: Some(FileUser::new("me")),
        group: None,
    });
    let shown: Vec<String> = source.iter().map(|tree| node_of(tree).label()).collect();
    assert_eq!(shown, vec!["FileSource(files/a -> /a)", "FileUser(/a, user = me)"]);
    let absent = File::resources(FileParams::FileAbsent { path: FilePath::new("/gone") });
    assert_eq!(absent.len(), 1);
    assert_eq!(meta_of(&absent[0]), plain());
    assert_eq!(node_of(&absent[0]).label(), "FileAbsent(/gone)");
    let no_directory = File::resources(FileParams::DirectoryAbsent { path: FilePath::new("/d") });
    assert_eq!(node_of(&no_directory[0]).label(), "DirectoryAbsent(/d)");
}

fn seen(exists: bool) -> FileObservation {
    FileObservation { exists, same_contents: false, mode: 0, user: None, group: None }
}

#[test]
fn only_the_low_bits_of_a_mode_are_compared() {
    let resource = FileResource::Mode { path: FilePath::new("/f"), mode: FileMode::new(0o644) };
    let regular = FileObservation { mode: 0o100644, ..seen(true) };
    assert_eq!(File::state(&resource, &regular), FileState::ModeCorrect);
    let other = FileObservation { mode: 0o100600, ..seen(true) };
    assert_eq!(File::state(&resource, &other), FileState::ModeIncorrect);
    let gone = FileObservation { mode: 0o100644, ..seen(false) };
    assert_eq!(File::state(&resource, &gone), FileState::ModeIncorrect);
    let sticky = FileResource::Mode { path: FilePath::new("/f"), mode: FileMode::new(0o1755) };
    let directory = FileObservation { mode: 0o41755, ..seen(true) };
    assert_eq!(File::state(&sticky, &directory), FileState::ModeCorrect);
    let typed = FileResource::Mode { path: FilePath::new("/f"), mode: FileMode::new(0o100644) };
    assert_eq!(File::state(&typed, &regular), FileState::ModeCorrect);
    let plain = FileObservation { mode: 0o644, ..seen(true) };
    assert_eq!(File::state(&typed, &plain), FileState::ModeCorrect);
    assert_eq!(File::state(&typed, &other), FileState::ModeIncorrect);
}

#[test]
fn a_file_is_observed_by_kind() {
    let path = || FilePath::new("/f");
    assert_eq!(File::state(&FileResource::FilePresent { path: path() }, &seen(true)), FileState::FilePresent);
    assert_eq!(File::state(&FileResource::FileAbsent { path: path() }, &seen(false)), FileState::FileAbsent);
    assert_eq!(
        File::state(&FileResource::DirectoryPresent { path: path() }, &seen(false)),
        FileState::DirectoryAbsent
    );
    assert_eq!(
        File::state(&FileResource::DirectoryAbsent { path: path() }, &seen(true)),
        FileState::DirectoryPresent
    );
    let sourced = FileResource::FileSource { source: FilePath::new("s"), path: path() };
    assert_eq!(
        File::state(&sourced, &FileObservation { same_contents: true, ..seen(true) }),
        FileState::FileSourced
    );
    assert_eq!(File::state(&sourced, &seen(true)), FileState::FileNotSourced);
    assert_eq!(
        File::state(&sourced, &FileObservation { same_contents: true, ..seen(false) }),
        FileState::FileNotSourced
    );
    let user = FileResource::User { path: path(), user: FileUser::new("root") };
    assert_eq!(
        File::state(&user, &FileObservation { user: Some("root".to_string()), ..seen(true) }),
        FileState::UserCorrect
    );
    assert_eq!(
        File::state(&user, &FileObservation { user: Some("me".to_string()), ..seen(true) }),
        FileState::UserIncorrect
    );
    assert_eq!(File::state(&user, &seen(true)), FileState::UserIncorrect);
    let group = FileResource::Group { path: path(), group: FileGroup::new("wheel") };
    assert_eq!(
        File::state(&group, &FileObservation { group: Some("wheel".to_string()), ..seen(true) }),
        FileState::GroupCorrect
    );
    assert_eq!(
        File::state(&group, &FileObservation { group: Some("wheel".to_string()), ..seen(false) }),
        FileState::GroupIncorrect
    );
}

#[test]
fn a_file_that_is_as_wanted_needs_no_change() {
    let path = || FilePath::new("/tmp/x");
    let held = [
        (FileResource::FilePresent { path: path() }, FileState::FilePresent),
        (FileResource::FileAbsent { path: path() }, FileState::FileAbsent),
        (FileResource::DirectoryPresent { path: path() }, FileState::DirectoryPresent),
        (FileResource::DirectoryAbsent { path: path() }, FileState::DirectoryAbsent),
        (FileResource::FileSource { source: path(), path: path() }, FileState::FileSourced),
        (FileResource::Mode { path: path(), mode: FileMode::new(1) }, FileState::ModeCorrect),
        (FileResource::User { path: path(), user: FileUser::new("u") }, FileState::UserCorrect),
        (FileResource::Group { path: path(), group: FileGroup::new("g") }, FileState::GroupCorrect),
    ];
    for (resource, state) in held.iter() {
        assert!(File::change(resource, state).is_none());
    }
}

#[test]
fn a_file_that_is_not_as_wanted_changes() {
    let path = || FilePath::new("/tmp/x");
    let label = |resource: FileResource, state: FileState| {
        File::change(&resource, &state).unwrap().label()
    };
    assert_eq!(
        label(FileResource::FilePresent { path: path() }, FileState::FileAbsent),
        "File::WriteFile(path = /tmp/x, source = Contents(0 bytes))"
    );
    assert_eq!(
        label(FileResource::FileSource { source: FilePath::new("a/b"), path: path() }, FileState::FileNotSourced),
        "File::WriteFile(path = /tmp/x, source = Path(a/b))"
    );
    assert_eq!(
        label(FileResource::FileAbsent { path: path() }, FileState::FilePresent),
        "File::RemoveFile(path = /tmp/x)"
    );
    assert_eq!(
        label(FileResource::DirectoryPresent { path: path() }, FileState::DirectoryAbsent),
        "File::CreateDirectory(path = /tmp/x)"
    );
    assert_eq!(
        label(FileResource::DirectoryAbsent { path: path() }, FileState::DirectoryPresent),
        "File::RemoveDirectory(path = /tmp/x)"
    );
    assert_eq!(
        label(FileResource::Mode { path: path(), mode: FileMode::new(0o600) }, FileState::ModeIncorrect),
        "File::ChangeMode(path = /tmp/x, mode = 600)"
    );
    assert_eq!(
        label(FileResource::User { path: path(), user: FileUser::new("root") }, FileState::UserIncorrect),
        "File::ChangeOwner(path = /tmp/x, user = Some(FileUser(\"root\")), group = None)"
    );
    assert_eq!(
        label(FileResource::Group { path: path(), group: FileGroup::new("wheel") }, FileState::GroupIncorrect),
        "File::ChangeOwner(path = /tmp/x, user = None, group = Some(FileGroup(\"wheel\")))"
    );
}

#[test]
fn a_file_change_is_one_operation() {
    let trees = File::operations(FileChange::RemoveFile { path: FilePath::new("/tmp/x") });
    assert_eq!(trees.len(), 1);
    assert_eq!(meta_of(&trees[0]), plain());
    assert_eq!(node_of(&trees[0]).label(), "File::RemoveFile(path = /tmp/x)");
}

fn checkout(version: Option<&str>, update: bool, force: bool) -> GitResource {
    GitResource {
        repo: "https://example.org/app.git".to_string(),
        path: FilePath::new("/srv/app"),
        version: version.map(|version| version.to_string()),
        update,
        force,
    }
}

fn present(head: &str, branch: Option<&str>, is_dirty: bool) -> GitState {
    GitState::Present {
        head: Some(head.to_string()),
        branch: branch.map(|branch| branch.to_string()),
        is_dirty,
    }
}

#[test]
fn git_updates_and_force_have_defaults() {
    let trees = Git::resources(GitParams {
        repo: "r".to_string(),
        path: FilePath::new("/p"),
        version: None,
        update: None,
        force: None,
    });
    assert_eq!(trees.len(), 1);
    let resource = node_of(&trees[0]);
    assert!(resource.update);
    assert!(!resource.force);
    assert_eq!(meta_of(&trees[0]), plain());
    let other = Git::resources(GitParams {
        repo: "r".to_string(),
        path: FilePath::new("/p"),
        version: Some("v1".to_string()),
        update: Some(false),
        force: Some(true),
    });
    let resource = node_of(&other[0]);
    assert!(!resource.update && resource.force);
    assert_eq!(resource.version, Some("v1".to_string()));
}

#[test]
fn git_changes_follow_the_state() {
    let label = |resource: &GitResource, state: &GitState| {
        Git::change(resource, state).map(|change| change.label())
    };
    assert_eq!(
        label(&checkout(None, true, false), &GitState::Absent),
        Some("Git::Clone(repo = https://example.org/app.git, path = /srv/app)".to_string())
    );
    assert_eq!(
        label(&checkout(Some("main"), true, false), &present("abc", Some("main"), false)),
        Some("Git::Pull(path = /srv/app)".to_string())
    );
    assert_eq!(label(&checkout(Some("main"), true, true), &present("abc", Some("main"), true)), None);
    assert_eq!(label(&checkout(Some("main"), false, false), &present("abc", Some("main"), false)), None);
    assert_eq!(label(&checkout(Some("abc"), true, false), &present("abc", Some("main"), false)), None);
    assert_eq!(
        label(&checkout(Some("v2"), true, true), &present("abc", Some("main"), true)),
        Some("Git::Checkout(path = /srv/app, version = v2, force = true, fetch = true)".to_string())
    );
    assert_eq!(
        label(&checkout(Some("v2"), false, false), &present("abc", None, false)),
        Some("Git::Checkout(path = /srv/app, version = v2, force = false, fetch = false)".to_string())
    );
    assert_eq!(
        label(&checkout(None, true, false), &present("abc", Some("main"), false)),
        Some("Git::Pull(path = /srv/app)".to_string())
    );
    assert_eq!(label(&checkout(None, true, false), &present("abc", None, false)), None);
    assert_eq!(label(&checkout(None, true, true), &present("abc", Some("main"), true)), None);
    assert_eq!(label(&checkout(None, false, false), &present("abc", Some("main"), false)), None);
}

#[test]
fn a_checkout_that_fetches_is_two_operations() {
    let trees = Git::operations(GitChange::Checkout {
        path: FilePath::new("/srv/app"),
        version: "v2".to_string(),
        force: false,
        fetch: true,
    });
    assert_eq!(trees.len(), 2);
    assert_eq!(meta_of(&trees[0]), named("fetch"));
    assert_eq!(node_of(&trees[0]).label(), "Git::Fetch(path = /srv/app)");
    assert_eq!(meta_of(&trees[1]), after("fetch"));
    assert_eq!(
        node_of(&trees[1]).label(),
        "Git::Checkout(path = /srv/app, version = v2, force = false)"
    );
    let one = Git::operations(GitChange::Checkout {
        path: FilePath::new("/srv/app"),
        version: "v2".to_string(),
        force: true,
        fetch: false,
    });
    assert_eq!(one.len(), 1);
    assert_eq!(meta_of(&one[0]), plain());
    let pull = Git::operations(GitChange::Pull { path: FilePath::new("/srv/app") });
    assert_eq!(node_of(&pull[0]).label(), "Git::Pull(path = /srv/app)");
    let clone = Git::operations(GitChange::Clone { repo: "r".to_string(), path: FilePath::new("/p") });
    assert_eq!(node_of(&clone[0]).label(), "Git::Clone(repo = r, path = /p)");
}

#[test]
fn git_holds_the_checkout_against_what_git_reports() {
    let resource = checkout(None, true, false);
    assert!(Git::check_git_dir(&resource, ".git\n").is_ok());
    assert!(Git::check_git_dir(&resource, "/srv/app/.git").is_ok());
    match Git::check_git_dir(&resource, "/srv/.git\n") {
        Err(GitStateError::GitDirMismatch { expected, actual }) => {
            assert_eq!(expected, "/srv/app/.git");
            assert_eq!(actual, "/srv/.git");
        }
        other => panic!("unexpected verdict {:?}", other),
    }
    assert!(Git::git_dir_verdict(true, "a".to_string(), "b".to_string()).is_ok());
    assert!(Git::git_dir_verdict(false, "a".to_string(), "a".to_string()).is_err());
    assert!(Git::check_remote(&resource, Some("https://example.org/app.git\n")).is_ok());
    match Git::check_remote(&resource, Some("https://example.org/other.git\n")) {
        Err(GitStateError::RemoteMismatch { expected, actual }) => {
            assert_eq!(expected, "https://example.org/app.git");
            assert_eq!(actual, Some("https://example.org/other.git".to_string()));
        }
        other => panic!("unexpected verdict {:?}", other),
    }
    assert!(matches!(
        Git::check_remote(&resource, None),
        Err(GitStateError::RemoteMismatch { actual: None, .. })
    ));
    assert_eq!(Git::check_dirty(&resource, 0).unwrap(), false);
    assert!(matches!(Git::check_dirty(&resource, 12), Err(GitStateError::Dirty)));
    assert_eq!(Git::check_dirty(&checkout(None, true, true), 12).unwrap(), true);
    match Git::present(Some("abc\n"), Some(" main \n"), true) {
        GitState::Present { head, branch, is_dirty } => {
            assert_eq!(head, Some("abc".to_string()));
            assert_eq!(branch, Some("main".to_string()));
            assert!(is_dirty);
        }
        other => panic!("unexpected state {:?}", other),
    }
    assert_eq!(
        Git::inspect(&resource, &names(&["rev-parse", "HEAD"])).label(),
        "git -C /srv/app rev-parse HEAD"
    );
}

#[test]
fn resources_dispatch_to_their_kind() {
    let trees = ResourceParams::Apt(AptParams::Packages { packages: names(&["git", "curl"]) })
        .resources();
    assert_eq!(trees.len(), 2);
    assert_eq!(node_of(&trees[0]).label(), "Apt(git)");
    assert_eq!(node_of(&trees[1]).label(), "Apt(curl)");
    let resource = Resource::Apt(AptResource { package: "git".to_string() });
    assert!(resource.accepts_state(&ResourceState::Apt(AptState::Installed)));
    assert!(!resource.accepts_state(&ResourceState::Pacman(PacmanState::Installed)));
    assert!(resource.change(&ResourceState::Apt(AptState::Installed)).is_none());
    let change = resource.change(&ResourceState::Apt(AptState::NotInstalled)).unwrap();
    assert_eq!(change.label(), "Apt::Installed(git)");
    let operations = change.operations();
    assert_eq!(operations.len(), 2);
    assert_eq!(node_of(&operations[1]).label(), "Apt::Install(packages = [git])");
    let file = Resource::File(FileResource::Mode {
        path: FilePath::new("/f"),
        mode: FileMode::new(0o600),
    });
    assert!(file.accepts_state(&ResourceState::File(FileState::ModeIncorrect)));
    assert!(!file.accepts_state(&ResourceState::File(FileState::FilePresent)));
    let change: ResourceChange =
        file.change(&ResourceState::File(FileState::ModeIncorrect)).unwrap();
    assert_eq!(change.label(), "File::ChangeMode(path = /f, mode = 600)");
}

#[test]
fn a_file_with_mode_and_owner_is_written_before_it_is_changed() {
    let resources = File::resources(FileParams::File {
        path: FilePath::new("/etc/foo"),
        mode: Some(FileMode::new(0o644)),
        user: Some(FileUser::new("root")),
        group: None,
    });
    assert_eq!(resources.len(), 3);
    let mut leaves: Vec<Tree<Option<Operation>, CausalityMeta<String>>> = Vec::new();
    for tree in resources {
        match tree {
            Tree::Leaf { meta, node } => {
                let absent = FileObservation {
                    exists: false,
                    same_contents: false,
                    mode: 0,
                    user: None,
                    group: None,
                };
                let state = File::state(&node, &absent);
                let change = File::change(&node, &state).unwrap();
                let mut operations = File::operations(change);
                assert_eq!(operations.len(), 1);
                match operations.remove(0) {
                    Tree::Leaf { node, .. } => leaves.push(Tree::leaf(meta, Some(node))),
                    Tree::Branch { .. } => panic!("expected a leaf"),
                }
            }
            Tree::Branch { .. } => panic!("expected a leaf"),
        }
    }
    let epochs = compute_epochs(Tree::branch(CausalityMeta::default(), leaves)).unwrap();
    let shown: Vec<Vec<String>> = epochs
        .iter()
        .map(|epoch| epoch.iter().map(|operation| operation.label()).collect())
        .collect();
    assert_eq!(
        shown,
        vec![
            vec!["File::WriteFile(path = /etc/foo, source = Contents(0 bytes))".to_string()],
            vec![
                "File::ChangeMode(path = /etc/foo, mode = 644)".to_string(),
                "File::ChangeOwner(path = /etc/foo, user = Some(FileUser(\"root\")), group = None)"
                    .to_string()
            ],
        ]
    );
}

#[test]
fn a_file_that_exists_needs_no_operation() {
    let resources = File::resources(FileParams::File {
        path: FilePath::new("/tmp/x"),
        mode: None,
        user: None,
        group: None,
    });
    assert_eq!(resources.len(), 1);
    let exists = FileObservation {
        exists: true,
        same_contents: false,
        mode: 0o100644,
        user: None,
        group: None,
    };
    let resource = node_of(&resources[0]);
    let state = File::state(resource, &exists);
    assert_eq!(state, FileState::FilePresent);
    assert!(File::change(resource, &state).is_none());
}

#[test]
fn resources_and_states_are_labelled() {
    assert_eq!(AptParams::Package { package: "git".to_string() }.label(), "Apt(package = git)");
    assert_eq!(
        AptParams::Packages { packages: names(&["a", "b"]) }.label(),
        "Apt(packages = [a, b])"
    );
    assert_eq!(AptState::Installed.label(), "Apt::Installed");
    assert_eq!(AptState::NotInstalled.label(), "Apt::NotInstalled");
    assert_eq!(PacmanState::NotInstalled.label(), "Pacman::NotInstalled");
    assert_eq!(CommandState::Unknown.label(), "Command::Unknown");
    assert_eq!(FileState::ModeIncorrect.label(), "ModeIncorrect");
    assert_eq!(GitState::Absent.label(), "Git::Absent");
    assert_eq!(
        present("abc", None, true).label(),
        "Git::Present(head = Some(\"abc\"), branch = None, is_dirty = true)"
    );
    assert_eq!(
        uninstall_resource().label(),
        "Command(status = Uninstall, is_installed = Some(\"false_command\"), install = None, uninstall = Some(\"rm -f /tmp/x\"))"
    );
    assert_eq!(
        checkout(Some("v1"), true, false).label(),
        "Git(repo = https://example.org/app.git, path = /srv/app, version = Some(\"v1\"), update = true, force = false)"
    );
    assert_eq!(
        GitParams {
            repo: "r".to_string(),
            path: FilePath::new("/p"),
            version: None,
            update: Some(false),
            force: None
        }
        .label(),
        "Git(repo = r, path = /p, version = None, update = Some(false), force = None)"
    );
    assert_eq!(
        FileParams::Source {
            source: FilePath::new("a"),
            path: FilePath::new("/b"),
            mode: None,
            user: None,
            group: None
        }
        .label(),
        "Source(source=a, path=/b)"
    );
}

#[test]
fn an_apt_query_tells_the_state_or_an_error() {
    assert_eq!(Apt::state_of_query(true, "install ok installed", "ignored").unwrap(), AptState::Installed);
    assert_eq!(
        Apt::state_of_query(true, "'deinstall ok config-files'", "").unwrap(),
        AptState::NotInstalled
    );
    assert!(matches!(
        Apt::state_of_query(true, "what is this", "no packages found matching x"),
        Err(AptStateError::ParseStatus { status }) if status == "what is this"
    ));
    assert_eq!(
        Apt::state_of_query(false, "install ok installed", "dpkg-query: no packages found matching x")
            .unwrap(),
        AptState::NotInstalled
    );
    assert!(matches!(
        Apt::state_of_query(false, "install ok installed", "dpkg-query: cannot open the database"),
        Err(AptStateError::Command { stderr }) if stderr == "dpkg-query: cannot open the database"
    ));
    assert!(matches!(Apt::state_of_query(false, "", ""), Err(AptStateError::Command { .. })));
}

#[test]
fn a_pacman_query_tells_the_state_or_an_error() {
    assert_eq!(Pacman::state_of_query(true, "git 2.44-1\n", "").unwrap(), PacmanState::Installed);
    assert!(matches!(
        Pacman::state_of_query(true, " \n", "error: package 'x' was not found"),
        Err(PacmanStateError::ParseStatus { .. })
    ));
    assert_eq!(
        Pacman::state_of_query(false, "git 2.44-1", "error: package 'x' was not found").unwrap(),
        PacmanState::NotInstalled
    );
    assert!(matches!(
        Pacman::state_of_query(false, "", "error: could not open the database"),
        Err(PacmanStateError::Command { stderr }) if stderr == "error: could not open the database"
    ));
}

#[test]
fn the_state_of_a_command_is_what_its_test_tells() {
    assert_eq!(Command::state_of_probe(None), CommandState::Unknown);
    assert_eq!(Command::state_of_probe(Some(true)), CommandState::Installed);
    assert_eq!(Command::state_of_probe(Some(false)), CommandState::NotInstalled);
    let with_test = |test: Option<&str>, status: CommandStatus| CommandResource {
        status,
        is_installed: test.map(|test| test.to_string()),
        install: Some("make install".to_string()),
        uninstall: Some("make uninstall".to_string()),
    };
    for status in [CommandStatus::Install, CommandStatus::Uninstall] {
        let tested = with_test(Some("which tool"), status);
        assert_eq!(Command::state(&tested, Some(true)), CommandState::Installed);
        assert_eq!(Command::state(&tested, Some(false)), CommandState::NotInstalled);
        assert_eq!(Command::state(&tested, None), CommandState::Unknown);
        for test in [None, Some(""), Some(" \t")] {
            let untested = with_test(test, status);
            assert_eq!(Command::state(&untested, None), CommandState::Unknown);
            assert_eq!(Command::state(&untested, Some(true)), CommandState::Unknown);
            assert_eq!(Command::state(&untested, Some(false)), CommandState::Unknown);
        }
    }
}
