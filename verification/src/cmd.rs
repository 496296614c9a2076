//! Commands to run on the host: the program, its arguments and its
//! environment, and how a command is run with privileges.

use crate::text::{join_texts, joined_with, lex_le, lex_lt, text_le, texts};
use vstd::prelude::*;
use vstd::string::StringExecFns;

verus! {

/// A command to run.
#[derive(Debug, Clone)]
pub struct Command {
    program: String,
    args: Vec<String>,
    envs: Vec<(String, String)>,
    current_dir: Option<String>,
    stdout: bool,
    stderr: bool,
}

/// The mathematical shape of a [`Command`]. The variables of the
/// environment are sorted by name, each name once.
pub ghost struct CommandShape {
    pub program: Seq<char>,
    pub args: Seq<Seq<char>>,
    pub envs: Seq<(Seq<char>, Seq<char>)>,
    pub current_dir: Option<Seq<char>>,
    pub stdout: bool,
    pub stderr: bool,
}

/// The names and values of the variables.
pub open spec fn env_pairs(envs: Seq<(String, String)>) -> Seq<(Seq<char>, Seq<char>)> {
    Seq::new(envs.len(), |i: int| (envs[i].0@, envs[i].1@))
}

/// The variables are sorted by name, each name once.
pub open spec fn envs_sorted(envs: Seq<(Seq<char>, Seq<char>)>) -> bool {
    forall|i: int, j: int| 0 <= i < j < envs.len() ==> lex_lt(envs[i].0, envs[j].0)
}

/// The variables with `key` set to `value`: the variable is replaced where
/// it is set already, else put in its place in the order.
pub open spec fn with_env(
    envs: Seq<(Seq<char>, Seq<char>)>,
    key: Seq<char>,
    value: Seq<char>,
) -> Seq<(Seq<char>, Seq<char>)> {
    let at = env_place(envs, key, 0);
    if at < envs.len() && envs[at].0 == key {
        envs.update(at, (key, value))
    } else {
        envs.insert(at, (key, value))
    }
}

/// The first place from `from` on whose name does not come before `key`.
pub open spec fn env_place(envs: Seq<(Seq<char>, Seq<char>)>, key: Seq<char>, from: int) -> int
    decreases envs.len() - from,
{
    if from < 0 || from >= envs.len() || lex_le(key, envs[from].0) {
        from
    } else {
        env_place(envs, key, from + 1)
    }
}

/// The arguments that hand the variables on: `name=value` for each.
pub open spec fn env_args(envs: Seq<(Seq<char>, Seq<char>)>) -> Seq<Seq<char>> {
    Seq::new(envs.len(), |i: int| envs[i].0 + seq!['='] + envs[i].1)
}

/// The command run with privileges: `sudo -n`, then the variables of the
/// environment as arguments, then the program and its arguments. The
/// directory and the handling of the output stay.
pub open spec fn privileged(command: CommandShape) -> CommandShape {
    CommandShape {
        program: "sudo"@,
        args: seq!["-n"@] + env_args(command.envs) + seq![command.program] + command.args,
        envs: Seq::empty(),
        current_dir: command.current_dir,
        stdout: command.stdout,
        stderr: command.stderr,
    }
}

/// The words joined by blanks.
pub open spec fn joined(words: Seq<Seq<char>>, upto: int) -> Seq<char> {
    joined_with(words, seq![' '], upto)
}

/// The command as one line: the program, and behind it the arguments
/// joined by blanks, where that is not the empty text.
pub open spec fn command_line(command: CommandShape) -> Seq<char> {
    let args = joined(command.args, command.args.len() as int);
    if args.len() == 0 {
        command.program
    } else {
        command.program + seq![' '] + args
    }
}

/// The variables after the first `upto` of `vars` are set in turn.
pub open spec fn with_envs(
    envs: Seq<(Seq<char>, Seq<char>)>,
    vars: Seq<(String, String)>,
    upto: int,
) -> Seq<(Seq<char>, Seq<char>)>
    decreases upto,
{
    if upto <= 0 {
        envs
    } else {
        with_env(with_envs(envs, vars, upto - 1), vars[upto - 1].0@, vars[upto - 1].1@)
    }
}

impl View for Command {
    type V = CommandShape;

    closed spec fn view(&self) -> CommandShape {
        CommandShape {
            program: self.program@,
            args: texts(self.args@),
            envs: env_pairs(self.envs@),
            current_dir: match self.current_dir {
                Some(dir) => Some(dir@),
                None => None,
            },
            stdout: self.stdout,
            stderr: self.stderr,
        }
    }
}

impl Command {
    /// The command is well formed: its variables are sorted, each name once.
    pub open spec fn well_formed(&self) -> bool {
        envs_sorted(self@.envs)
    }

    /// A command that runs `program` without arguments.
    pub fn new(program: &str) -> (command: Self)
        ensures
            command@ == (CommandShape {
                program: program@,
                args: Seq::empty(),
                envs: Seq::empty(),
                current_dir: None,
                stdout: false,
                stderr: false,
            }),
            command.well_formed(),
    {
        let command = Command {
            program: String::from_str(program),
            args: Vec::new(),
            envs: Vec::new(),
            current_dir: None,
            stdout: false,
            stderr: false,
        };
        assert(command@.args =~= Seq::empty());
        assert(command@.envs =~= Seq::empty());
        command
    }

    /// Adds an argument.
    pub fn arg(&mut self, arg: &str)
        ensures
            final(self)@ == (CommandShape { args: old(self)@.args.push(arg@), ..old(self)@ }),
    {
        self.args.push(String::from_str(arg));
        assert(self@.args =~= old(self)@.args.push(arg@));
    }

    /// Adds arguments.
    pub fn args(&mut self, args: &Vec<String>)
        ensures
            final(self)@ == (CommandShape { args: old(self)@.args + texts(args@), ..old(self)@ }),
    {
        let ghost before = self@.args;
        let mut i: usize = 0;
        assert(self@.args =~= before + texts(args@).subrange(0, 0));
        while i < args.len()
            invariant
                i <= args.len(),
                self@ == (CommandShape {
                    args: before + texts(args@).subrange(0, i as int),
                    ..old(self)@
                }),
            decreases args.len() - i,
        {
            let ghost so_far = texts(self.args@);
            self.args.push(args[i].clone());
            assert(texts(self.args@) =~= so_far.push(args[i as int]@));
            assert(texts(args@)[i as int] == args[i as int]@);
            assert(self@.args =~= before + texts(args@).subrange(0, i + 1));
            i += 1;
        }
        assert(texts(args@).subrange(0, args.len() as int) =~= texts(args@));
    }

    /// Sets variables of the environment, one after the other.
    pub fn envs(&mut self, vars: &Vec<(String, String)>)
        requires
            old(self).well_formed(),
        ensures
            final(self)@ == (CommandShape {
                envs: with_envs(old(self)@.envs, vars@, vars.len() as int),
                ..old(self)@
            }),
            final(self).well_formed(),
    {
        let mut i: usize = 0;
        while i < vars.len()
            invariant
                i <= vars.len(),
                self.well_formed(),
                self@ == (CommandShape {
                    envs: with_envs(old(self)@.envs, vars@, i as int),
                    ..old(self)@
                }),
            decreases vars.len() - i,
        {
            self.env(vars[i].0.as_str(), vars[i].1.as_str());
            i += 1;
        }
    }

    /// Sets a variable of the environment.
    pub fn env(&mut self, key: &str, value: &str)
        requires
            old(self).well_formed(),
        ensures
            final(self)@ == (CommandShape {
                envs: with_env(old(self)@.envs, key@, value@),
                ..old(self)@
            }),
            final(self).well_formed(),
    {
        let ghost before = self@.envs;
        let mut at: usize = 0;
        while at < self.envs.len() && !text_le(key, self.envs[at].0.as_str())
            invariant
                at <= self.envs.len(),
                *self == *old(self),
                before == self@.envs,
                env_place(before, key@, at as int) == env_place(before, key@, 0),
                forall|i: int| 0 <= i < at ==> lex_lt(#[trigger] before[i].0, key@),
            decreases self.envs.len() - at,
        {
            proof {
                assert(before[at as int].0 == self.envs[at as int].0@);
                crate::text::lemma_lex_total(key@, before[at as int].0);
                if before[at as int].0 == key@ {
                    crate::text::lemma_lex_reflexive(key@);
                }
            }
            at += 1;
        }
        let pair = (String::from_str(key), String::from_str(value));
        proof {
            if at < self.envs.len() {
                assert(before[at as int].0 == self.envs[at as int].0@);
            }
        }
        if at < self.envs.len() && self.envs[at].0 == pair.0 {
            self.envs[at] = pair;
            proof {
                let after = self@.envs;
                assert(after =~= before.update(at as int, (key@, value@)));
                assert forall|i: int, j: int| 0 <= i < j < after.len() implies lex_lt(
                    after[i].0,
                    after[j].0,
                ) by {
                    assert(lex_lt(before[i].0, before[j].0));
                }
            }
        } else {
            self.envs.insert(at, pair);
            proof {
                let after = self@.envs;
                assert(after =~= before.insert(at as int, (key@, value@)));
                assert forall|i: int, j: int| 0 <= i < j < after.len() implies lex_lt(
                    after[i].0,
                    after[j].0,
                ) by {
                    if j < at {
                        assert(lex_lt(before[i].0, before[j].0));
                    } else if j == at {
                        assert(lex_lt(before[i].0, key@));
                    } else if i == at {
                        assert(lex_le(key@, before[at as int].0));
                        if j - 1 > at {
                            assert(lex_lt(before[at as int].0, before[j - 1].0));
                            crate::text::lemma_lex_transitive(
                                key@,
                                before[at as int].0,
                                before[j - 1].0,
                            );
                            if key@ == before[j - 1].0 {
                                crate::text::lemma_lex_antisymmetric(
                                    before[at as int].0,
                                    before[j - 1].0,
                                );
                            }
                        }
                    } else if i < at {
                        assert(lex_lt(before[i].0, before[j - 1].0));
                    } else {
                        assert(lex_lt(before[i - 1].0, before[j - 1].0));
                    }
                }
            }
        }
    }

    /// Sets the directory in which the command runs.
    pub fn current_dir(&mut self, dir: &str)
        ensures
            final(self)@ == (CommandShape { current_dir: Some(dir@), ..old(self)@ }),
    {
        self.current_dir = Some(String::from_str(dir));
    }

    /// Says whether the command writes to the output of the caller.
    pub fn stdout(&mut self, stdout: bool)
        ensures
            final(self)@ == (CommandShape { stdout, ..old(self)@ }),
    {
        self.stdout = stdout;
    }

    /// Says whether the command writes to the error output of the caller.
    pub fn stderr(&mut self, stderr: bool)
        ensures
            final(self)@ == (CommandShape { stderr, ..old(self)@ }),
    {
        self.stderr = stderr;
    }

    /// Whether the output of the command goes where that of the caller goes.
    pub fn get_stdout(&self) -> (stdout: bool)
        ensures
            stdout == self@.stdout,
    {
        self.stdout
    }

    /// Whether the error output of the command goes where that of the caller goes.
    pub fn get_stderr(&self) -> (stderr: bool)
        ensures
            stderr == self@.stderr,
    {
        self.stderr
    }

    /// The program.
    pub fn program(&self) -> (program: &str)
        ensures
            program@ == self@.program,
    {
        self.program.as_str()
    }

    /// The arguments.
    pub fn arguments(&self) -> (args: &Vec<String>)
        ensures
            texts(args@) == self@.args,
    {
        &self.args
    }

    /// The variables of the environment, sorted by name.
    pub fn environment(&self) -> (envs: &Vec<(String, String)>)
        ensures
            env_pairs(envs@) == self@.envs,
    {
        &self.envs
    }

    /// The directory in which the command runs, if one is set.
    pub fn directory(&self) -> (dir: Option<&String>)
        ensures
            match dir {
                Some(dir) => self@.current_dir == Some(dir@),
                None => self@.current_dir is None,
            },
    {
        self.current_dir.as_ref()
    }

    /// The command run with privileges, without asking for a password.
    /// The environment is handed on as arguments.
    pub fn sudo(self) -> (command: Self)
        ensures
            command@ == privileged(self@),
            command.well_formed(),
    {
        let mut args: Vec<String> = Vec::new();
        args.push(String::from_str("-n"));
        let ghost head = texts(args@);
        assert(head =~= seq!["-n"@]);
        let mut i: usize = 0;
        proof {
            reveal_strlit("=");
            assert("="@ =~= seq!['=']);
        }
        assert(texts(args@) =~= head + env_args(self@.envs).subrange(0, 0));
        while i < self.envs.len()
            invariant
                i <= self.envs.len(),
                "="@ == seq!['='],
                texts(args@) == head + env_args(self@.envs).subrange(0, i as int),
            decreases self.envs.len() - i,
        {
            let mut pair = self.envs[i].0.clone();
            pair.append("=");
            pair.append(self.envs[i].1.as_str());
            let ghost so_far = texts(args@);
            let ghost added = pair@;
            args.push(pair);
            proof {
                assert(self@.envs[i as int] == (self.envs[i as int].0@, self.envs[i as int].1@));
                assert(added =~= env_args(self@.envs)[i as int]);
                assert(texts(args@) =~= so_far.push(added));
                assert(texts(args@) =~= head + env_args(self@.envs).subrange(0, i + 1));
            }
            i += 1;
        }
        let ghost with_envs = texts(args@);
        assert(with_envs =~= head + env_args(self@.envs));
        args.push(self.program.clone());
        let ghost with_program = texts(args@);
        assert(with_program =~= with_envs + seq![self@.program]);
        let mut j: usize = 0;
        assert(texts(args@) =~= with_program + self@.args.subrange(0, 0));
        while j < self.args.len()
            invariant
                j <= self.args.len(),
                texts(args@) == with_program + self@.args.subrange(0, j as int),
            decreases self.args.len() - j,
        {
            let ghost so_far = texts(args@);
            args.push(self.args[j].clone());
            assert(texts(args@) =~= so_far.push(self.args[j as int]@));
            assert(self@.args[j as int] == self.args[j as int]@);
            assert(texts(args@) =~= with_program + self@.args.subrange(0, j + 1));
            j += 1;
        }
        assert(texts(args@) =~= with_program + self@.args);
        let command = Command {
            program: String::from_str("sudo"),
            args,
            envs: Vec::new(),
            current_dir: self.current_dir,
            stdout: self.stdout,
            stderr: self.stderr,
        };
        assert(command@.envs =~= Seq::empty());
        command
    }

    /// The command as one line: the program, and the arguments behind it.
    pub fn label(&self) -> (line: String)
        ensures
            line@ == command_line(self@),
    {
        proof {
            reveal_strlit(" ");
            assert(" "@ =~= seq![' ']);
        }
        let mut line = self.program.clone();
        let args = join_texts(&self.args, " ");
        if args.as_str().unicode_len() > 0 {
            line.append(" ");
            line.append(args.as_str());
        }
        line
    }

    /// The command `sh -c command`.
    pub fn new_sh(command: &str) -> (shell: Self)
        ensures
            shell@ == (CommandShape {
                program: "sh"@,
                args: seq!["-c"@, command@],
                envs: Seq::empty(),
                current_dir: None,
                stdout: false,
                stderr: false,
            }),
            shell.well_formed(),
    {
        let mut shell = Command::new("sh");
        shell.arg("-c");
        shell.arg(command);
        assert(shell@.args =~= seq!["-c"@, command@]);
        shell
    }
}

} // verus!

verus! {

/// The error of `shell_words::split`.
#[verifier::external_type_specification]
#[verifier::external_body]
pub struct ExParseError(shell_words::ParseError);

/// The words that `shell_words::split` finds in a line, with quotes and
/// escapes read as a shell reads them; nothing where a quote stays open.
pub uninterp spec fn shell_words_of(line: Seq<char>) -> Option<Seq<Seq<char>>>;

/// Splits a line into words with `shell_words::split`, which reads the
/// line character by character and fails only where a quote stays open.
#[verifier::external_body]
fn split_line(line: &str) -> (words: Result<Vec<String>, shell_words::ParseError>)
    ensures
        match words {
            Ok(words) => shell_words_of(line@) == Some(texts(words@)),
            Err(_) => shell_words_of(line@) is None,
        },
{
    shell_words::split(line)
}

/// A line that is no command: a quote stays open.
#[derive(Debug, Clone, Copy, PartialEq, Eq)]
pub struct CommandParseError;

/// The command that the words of a line make: the first word is the
/// program, the others are its arguments. No words make the command with
/// the empty program.
pub open spec fn command_of(words: Seq<Seq<char>>) -> CommandShape {
    CommandShape {
        program: if words.len() == 0 {
            Seq::empty()
        } else {
            words[0]
        },
        args: if words.len() == 0 {
            Seq::empty()
        } else {
            words.subrange(1, words.len() as int)
        },
        envs: Seq::empty(),
        current_dir: None,
        stdout: false,
        stderr: false,
    }
}

impl Command {
    /// The command that the words make.
    pub fn from_words(words: Vec<String>) -> (command: Self)
        ensures
            command@ == command_of(texts(words@)),
            command.well_formed(),
    {
        if words.len() == 0 {
            let command = Command::new("");
            proof {
                reveal_strlit("");
                assert(""@ =~= Seq::empty());
            }
            command
        } else {
            let ghost list = texts(words@);
            let mut command = Command::new(words[0].as_str());
            let mut i: usize = 1;
            assert(command@.args =~= list.subrange(1, 1));
            while i < words.len()
                invariant
                    1 <= i <= words.len(),
                    list == texts(words@),
                    command@ == (CommandShape {
                        args: list.subrange(1, i as int),
                        ..command_of(list)
                    }),
                decreases words.len() - i,
            {
                command.arg(words[i].as_str());
                assert(list[i as int] == words[i as int]@);
                assert(command@.args =~= list.subrange(1, i + 1));
                i += 1;
            }
            command
        }
    }

    /// Reads a command from a line as a shell reads it.
    pub fn from_str(line: &str) -> (command: Result<Self, CommandParseError>)
        ensures
            match command {
                Ok(command) => shell_words_of(line@) matches Some(words) && command@
                    == command_of(words) && command.well_formed(),
                Err(_) => shell_words_of(line@) is None,
            },
    {
        match split_line(line) {
            Ok(words) => Ok(Command::from_words(words)),
            Err(_) => Err(CommandParseError),
        }
    }
}

} // verus!
