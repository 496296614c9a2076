use lusid::cmd::{Command, CommandParseError};

#[test]
fn test_get_command() {
    assert_eq!(Command::new("lusid").label(), "lusid")
}

#[test]
fn test_get_command_with_one_arg() {
    let mut command = Command::new("lusid");
    command.arg("-a");
    assert_eq!(command.label(), "lusid -a")
}

#[test]
fn test_get_command_with_two_args() {
    let mut command = Command::new("lusid");
    command.arg("-a");
    command.arg("-b");
    assert_eq!(command.label(), "lusid -a -b")
}

#[test]
fn sudo_hands_the_environment_on_as_arguments() {
    let mut command = Command::new("apt-get");
    command.env("Z", "last");
    command.env("DEBIAN_FRONTEND", "noninteractive");
    command.env("Z", "changed");
    command.arg("update");
    command.current_dir("/tmp");
    command.stdout(true);
    let privileged = command.sudo();
    assert_eq!(privileged.program(), "sudo");
    assert_eq!(
        privileged.arguments(),
        &vec![
            "-n".to_string(),
            "DEBIAN_FRONTEND=noninteractive".to_string(),
            "Z=changed".to_string(),
            "apt-get".to_string(),
            "update".to_string()
        ]
    );
    assert!(privileged.environment().is_empty());
    assert_eq!(privileged.directory(), Some(&"/tmp".to_string()));
    assert!(privileged.get_stdout());
    assert!(!privileged.get_stderr());
    assert_eq!(
        privileged.label(),
        "sudo -n DEBIAN_FRONTEND=noninteractive Z=changed apt-get update"
    );
}

#[test]
fn a_line_is_read_as_a_shell_reads_it() {
    let command = Command::from_str("rm -f '/tmp/a b' \"c d\"").unwrap();
    assert_eq!(command.program(), "rm");
    assert_eq!(
        command.arguments(),
        &vec!["-f".to_string(), "/tmp/a b".to_string(), "c d".to_string()]
    );
    let empty = Command::from_str("   ").unwrap();
    assert_eq!(empty.program(), "");
    assert!(empty.arguments().is_empty());
    assert_eq!(Command::from_str("echo 'open").unwrap_err(), CommandParseError);
}

#[test]
fn a_shell_command_is_handed_to_sh() {
    let shell = Command::new_sh("echo hi | wc");
    assert_eq!(shell.program(), "sh");
    assert_eq!(shell.arguments(), &vec!["-c".to_string(), "echo hi | wc".to_string()]);
}

#[test]
fn empty_arguments_show_as_nothing() {
    let mut one = Command::new("lusid");
    one.arg("");
    assert_eq!(one.label(), "lusid");
    let mut two = Command::new("lusid");
    two.arg("");
    two.arg("");
    assert_eq!(two.label(), "lusid  ");
    let mut mixed = Command::new("lusid");
    mixed.arg("");
    mixed.arg("-a");
    assert_eq!(mixed.label(), "lusid  -a");
}

#[test]
fn variables_are_set_one_after_the_other() {
    let mut command = Command::new("apt-get");
    command.envs(&vec![
        ("B".to_string(), "2".to_string()),
        ("A".to_string(), "1".to_string()),
        ("B".to_string(), "3".to_string()),
    ]);
    assert_eq!(
        command.environment(),
        &vec![("A".to_string(), "1".to_string()), ("B".to_string(), "3".to_string())]
    );
    command.envs(&vec![]);
    assert_eq!(command.environment().len(), 2);
}
