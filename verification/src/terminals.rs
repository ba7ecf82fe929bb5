//! Commands that reach a remote host over `ssh`: the arguments of the connection, and
//! the wrapping of a command, its directory and its environment into one invocation of
//! the remote shell.

use crate::strings::decimal_string;
use crate::strings::spec_decimal;
use crate::strings::spec_option_view;
use crate::strings::spec_pair_views;
use crate::strings::spec_starts_with;
use crate::strings::spec_string_views;
use crate::strings::str_eq;
use crate::strings::strip_prefix;
use itertools::Itertools;
use vstd::prelude::*;
use vstd::string::StrSliceExecFns;
use vstd::string::StringExecFns;

verus! {

/// The terminals of a project that run on this machine, each by the identity of its
/// handle.
#[derive(Debug, Clone, PartialEq, Eq)]
pub struct Terminals {
    pub local_handles: Vec<u64>,
}

/// Place of the first `id` among `handles` at or behind `from`, or their number where
/// there is none.
pub open spec fn spec_handle_place(handles: Seq<u64>, id: u64, from: int) -> int
    decreases handles.len() - from,
{
    if from < 0 || from >= handles.len() {
        handles.len() as int
    } else if handles[from] == id {
        from
    } else {
        spec_handle_place(handles, id, from + 1)
    }
}

impl Terminals {
    /// Takes up the handle of a terminal that was started.
    pub fn register(&mut self, id: u64)
        ensures
            final(self).local_handles@ == old(self).local_handles@.push(id),
    {
        self.local_handles.push(id);
    }

    /// Lets go of the handle of a terminal that was released: the first handle with
    /// that identity goes. Says whether there was one, which is when those who watch
    /// the project are to be told.
    pub fn release(&mut self, id: u64) -> (found: bool)
        ensures
            ({
                let place = spec_handle_place(old(self).local_handles@, id, 0);
                if place < old(self).local_handles@.len() {
                    found && final(self).local_handles@ == old(self).local_handles@.remove(place)
                } else {
                    !found && final(self).local_handles@ == old(self).local_handles@
                }
            }),
    {
        let mut place: usize = 0;
        while place < self.local_handles.len() && self.local_handles[place] != id
            invariant
                place <= self.local_handles@.len(),
                self.local_handles@ == old(self).local_handles@,
                spec_handle_place(self.local_handles@, id, place as int) == spec_handle_place(
                    self.local_handles@,
                    id,
                    0,
                ),
            decreases self.local_handles@.len() - place,
        {
            place = place + 1;
        }
        if place < self.local_handles.len() {
            self.local_handles.remove(place);
            true
        } else {
            false
        }
    }
}

/// How to connect to a remote host.
#[derive(Debug, Clone, PartialEq, Eq)]
pub struct SshCommand {
    pub arguments: Vec<String>,
}

/// The argument that forwards a port: the local port, the host and the remote port,
/// with colons between them.
pub open spec fn spec_port_forwarding(local_port: u16, host: Seq<char>, remote_port: u16) -> Seq<
    char,
> {
    spec_decimal(local_port as nat) + ":"@ + host + ":"@ + spec_decimal(remote_port as nat)
}

impl SshCommand {
    /// Adds the two arguments that forward `local_port` to `remote_port` of `host`:
    /// `-L` and the forwarding.
    pub fn add_port_forwarding(&mut self, local_port: u16, host: String, remote_port: u16)
        ensures
            spec_string_views(final(self).arguments@) == spec_string_views(old(self).arguments@)
                + seq!["-L"@, spec_port_forwarding(local_port, host@, remote_port)],
    {
        let ghost before = self.arguments@;
        self.arguments.push(String::from_str("-L"));
        let mut forwarding = decimal_string(local_port as u64);
        forwarding.append(":");
        forwarding.append(host.as_str());
        forwarding.append(":");
        forwarding.append(decimal_string(remote_port as u64).as_str());
        self.arguments.push(forwarding);
        proof {
            assert(spec_string_views(self.arguments@) =~= spec_string_views(before) + seq![
                "-L"@,
                spec_port_forwarding(local_port, host@, remote_port),
            ]);
        }
    }
}

/// What `shlex::try_quote` makes of a word that holds no NUL: the word written so that
/// a shell reads it as one argument.
pub uninterp spec fn spec_shell_quote(word: Seq<char>) -> Seq<char>;

/// Quotes a word for the shell with `shlex::try_quote`. That function refuses a word
/// if and only if it holds a NUL character. What it makes of any other word is given a
/// name; it is made of the word's own characters and of quotes and backslashes put
/// between them, so it holds no NUL either. Nothing else is claimed of it.
#[verifier::external_body]
fn try_quote(word: &str) -> (quoted: Option<String>)
    ensures
        match quoted {
            Some(quoted) => !word@.contains('\0') && quoted@ == spec_shell_quote(word@)
                && !quoted@.contains('\0'),
            None => word@.contains('\0'),
        },
{
    match shlex::try_quote(word) {
        Ok(quoted) => Some(quoted.into_owned()),
        Err(_) => None,
    }
}

/// The first `upto` words, with `separator` between each two.
pub open spec fn spec_join(words: Seq<Seq<char>>, separator: Seq<char>, upto: int) -> Seq<char>
    decreases upto,
{
    if upto <= 0 || words.len() == 0 {
        Seq::empty()
    } else if upto == 1 {
        words[0]
    } else if upto > words.len() {
        spec_join(words, separator, upto - 1)
    } else {
        spec_join(words, separator, upto - 1) + separator + words[upto - 1]
    }
}

/// Joins words with `Itertools::join`: all words in their order, with `separator`
/// between each two, and the empty string for no words.
#[verifier::external_body]
fn join(words: &Vec<String>, separator: &str) -> (joined: String)
    ensures
        joined@ == spec_join(spec_string_views(words@), separator@, words@.len() as int),
{
    words.iter().join(separator)
}

/// The first `upto` words, each quoted for the shell; words that hold a NUL are left
/// out.
pub open spec fn spec_quote_all(words: Seq<Seq<char>>, upto: int) -> Seq<Seq<char>>
    decreases upto,
{
    if upto <= 0 {
        Seq::empty()
    } else {
        let rest = spec_quote_all(words, upto - 1);
        if upto > words.len() || words[upto - 1].contains('\0') {
            rest
        } else {
            rest.push(spec_shell_quote(words[upto - 1]))
        }
    }
}

/// The settings of the first `upto` variables: for each the quoted name, `=`, the
/// quoted value and a space; variables whose name or value holds a NUL are left out.
pub open spec fn spec_env_changes(env: Seq<(Seq<char>, Seq<char>)>, upto: int) -> Seq<char>
    decreases upto,
{
    if upto <= 0 {
        Seq::empty()
    } else {
        let rest = spec_env_changes(env, upto - 1);
        if upto > env.len() || env[upto - 1].0.contains('\0') || env[upto - 1].1.contains('\0') {
            rest
        } else {
            rest + spec_shell_quote(env[upto - 1].0) + "="@ + spec_shell_quote(env[upto - 1].1)
                + " "@
        }
    }
}

/// `s` without the characters `c` that it starts with, from place `from` on.
pub open spec fn spec_trim_start(s: Seq<char>, c: char, from: int) -> Seq<char>
    decreases s.len() - from,
{
    if from < 0 || from >= s.len() {
        Seq::empty()
    } else if s[from] == c {
        spec_trim_start(s, c, from + 1)
    } else {
        s.subrange(from, s.len() as int)
    }
}

/// What is run on the remote host: the command and its arguments, each quoted and with
/// spaces between them, or a login shell where no command is given.
pub open spec fn spec_to_run(
    shell: Seq<char>,
    command: Option<(Seq<char>, Seq<Seq<char>>)>,
) -> Seq<char> {
    match command {
        Some((command, arguments)) => {
            let words = seq![command] + arguments;
            let quoted = spec_quote_all(words, words.len() as int);
            spec_join(quoted, " "@, quoted.len() as int)
        },
        None => "exec "@ + shell + " -l"@,
    }
}

/// The line that the remote shell is given: a change to the directory, the settings of
/// the environment, and what is run. A path under `~/` is taken from `$HOME`, because
/// quoting would keep the shell from expanding the tilde.
pub open spec fn spec_commands(
    shell: Seq<char>,
    command: Option<(Seq<char>, Seq<Seq<char>>)>,
    path: Option<Seq<char>>,
    env: Seq<(Seq<char>, Seq<char>)>,
) -> Seq<char> {
    let tail = "; "@ + spec_env_changes(env, env.len() as int) + " "@ + spec_to_run(
        shell,
        command,
    );
    match path {
        Some(path) => if spec_starts_with(path, "~/"@) {
            "cd \"$HOME/"@ + spec_trim_start(spec_trim_start(path, '~', 0), '/', 0) + "\""@ + tail
        } else {
            "cd \""@ + path + "\""@ + tail
        },
        None => "cd"@ + tail,
    }
}

/// The program and arguments that run a command on the remote host, or nothing where
/// the line for the remote shell holds a NUL and cannot be quoted: `ssh`, with the
/// arguments of the connection, `-t`, and the shell invoked on the quoted line.
pub open spec fn spec_wrap_for_ssh(
    shell: Seq<char>,
    arguments: Seq<Seq<char>>,
    command: Option<(Seq<char>, Seq<Seq<char>>)>,
    path: Option<Seq<char>>,
    env: Seq<(Seq<char>, Seq<char>)>,
) -> Option<(Seq<char>, Seq<Seq<char>>)> {
    let commands = spec_commands(shell, command, path, env);
    if commands.contains('\0') {
        None
    } else {
        Some(
            (
                "ssh"@,
                arguments + seq!["-t"@, shell + " -c "@ + spec_shell_quote(commands)],
            ),
        )
    }
}

/// A character stands in two strings put together exactly when it stands in one of
/// them.
pub proof fn lemma_concat_contains(a: Seq<char>, b: Seq<char>, c: char)
    ensures
        (a + b).contains(c) == (a.contains(c) || b.contains(c)),
{
    if a.contains(c) {
        let i = choose|i: int| 0 <= i < a.len() && a[i] == c;
        assert((a + b)[i] == c);
    }
    if b.contains(c) {
        let i = choose|i: int| 0 <= i < b.len() && b[i] == c;
        assert((a + b)[a.len() + i] == c);
    }
    if (a + b).contains(c) {
        let i = choose|i: int| 0 <= i < (a + b).len() && (a + b)[i] == c;
        if i < a.len() {
            assert(a[i] == c);
        } else {
            assert(b[i - a.len()] == c);
        }
    }
}

/// Trimming takes away no character but the one that is trimmed: any other character
/// stands in the trimmed string exactly when it stands in the string.
pub proof fn lemma_trim_start_contains(s: Seq<char>, c: char, x: char, from: int)
    requires
        x != c,
        0 <= from <= s.len(),
    ensures
        spec_trim_start(s, c, from).contains(x) == s.subrange(from, s.len() as int).contains(x),
    decreases s.len() - from,
{
    let rest = s.subrange(from, s.len() as int);
    if from < s.len() && s[from] == c {
        lemma_trim_start_contains(s, c, x, from + 1);
        let shorter = s.subrange(from + 1, s.len() as int);
        if shorter.contains(x) {
            let i = choose|i: int| 0 <= i < shorter.len() && shorter[i] == x;
            assert(rest[i + 1] == x);
        }
        if rest.contains(x) {
            let i = choose|i: int| 0 <= i < rest.len() && rest[i] == x;
            assert(shorter[i - 1] == x);
        }
    } else if from >= s.len() {
        assert(rest =~= Seq::<char>::empty());
    }
}

/// Words that do not hold a character do not hold it when they are joined by a
/// separator that does not hold it.
pub proof fn lemma_join_contains(words: Seq<Seq<char>>, separator: Seq<char>, c: char, upto: int)
    requires
        forall|k: int| 0 <= k < words.len() ==> !(#[trigger] words[k]).contains(c),
        !separator.contains(c),
    ensures
        !spec_join(words, separator, upto).contains(c),
    decreases upto,
{
    if upto > 1 && words.len() > 0 {
        lemma_join_contains(words, separator, c, upto - 1);
        if upto <= words.len() {
            let front = spec_join(words, separator, upto - 1);
            lemma_concat_contains(front, separator, c);
            lemma_concat_contains(front + separator, words[upto - 1], c);
        }
    }
}

/// The fixed parts of the line for the remote shell hold no NUL.
proof fn lemma_literals_hold_no_nul()
    ensures
        !"exec "@.contains('\0'),
        !" -l"@.contains('\0'),
        !"cd \"$HOME/"@.contains('\0'),
        !"cd \""@.contains('\0'),
        !"\""@.contains('\0'),
        !"cd"@.contains('\0'),
        !"; "@.contains('\0'),
        !" "@.contains('\0'),
        !"="@.contains('\0'),
{
    reveal_strlit("exec ");
    reveal_strlit(" -l");
    reveal_strlit("cd \"$HOME/");
    reveal_strlit("cd \"");
    reveal_strlit("\"");
    reveal_strlit("cd");
    reveal_strlit("; ");
    reveal_strlit(" ");
    reveal_strlit("=");
}

/// Whether the line for the remote shell can be quoted: the path holds no NUL, and
/// neither does the shell where it is the shell that is run.
pub open spec fn spec_can_be_wrapped(
    shell: Seq<char>,
    has_command: bool,
    path: Option<Seq<char>>,
) -> bool {
    &&& match path {
        Some(path) => !path.contains('\0'),
        None => true,
    }
    &&& has_command || !shell.contains('\0')
}

/// Quotes every word for the shell and leaves out those that cannot be quoted.
pub fn quote_all(words: &Vec<String>) -> (quoted: Vec<String>)
    ensures
        spec_string_views(quoted@) == spec_quote_all(
            spec_string_views(words@),
            words@.len() as int,
        ),
        forall|k: int| 0 <= k < quoted@.len() ==> !(#[trigger] quoted@[k])@.contains('\0'),
{
    let mut quoted: Vec<String> = Vec::new();
    let mut i: usize = 0;
    while i < words.len()
        invariant
            i <= words@.len(),
            spec_string_views(quoted@) == spec_quote_all(spec_string_views(words@), i as int),
            forall|k: int| 0 <= k < quoted@.len() ==> !(#[trigger] quoted@[k])@.contains('\0'),
        decreases words@.len() - i,
    {
        let ghost before = quoted@;
        match try_quote(words[i].as_str()) {
            Some(word) => {
                quoted.push(word);
                proof {
                    assert(spec_string_views(quoted@) =~= spec_string_views(before).push(
                        spec_shell_quote(words@[i as int]@),
                    ));
                }
            },
            None => {},
        }
        i = i + 1;
    }
    quoted
}

/// The settings of the environment for the remote shell.
pub fn env_changes(env: &Vec<(String, String)>) -> (changes: String)
    ensures
        changes@ == spec_env_changes(spec_pair_views(env@), env@.len() as int),
        !changes@.contains('\0'),
{
    let mut changes = String::from_str("");
    proof {
        reveal_strlit("");
        assert(""@ =~= Seq::<char>::empty());
        lemma_literals_hold_no_nul();
    }
    let mut i: usize = 0;
    while i < env.len()
        invariant
            i <= env@.len(),
            changes@ == spec_env_changes(spec_pair_views(env@), i as int),
            !changes@.contains('\0'),
            !"="@.contains('\0'),
            !" "@.contains('\0'),
        decreases env@.len() - i,
    {
        let ghost before = changes@;
        match try_quote(env[i].0.as_str()) {
            Some(name) => match try_quote(env[i].1.as_str()) {
                Some(value) => {
                    changes.append(name.as_str());
                    changes.append("=");
                    changes.append(value.as_str());
                    changes.append(" ");
                    proof {
                        assert(changes@ =~= before + spec_shell_quote(env@[i as int].0@) + "="@
                            + spec_shell_quote(env@[i as int].1@) + " "@);
                        lemma_concat_contains(before, name@, '\0');
                        lemma_concat_contains(before + name@, "="@, '\0');
                        lemma_concat_contains(before + name@ + "="@, value@, '\0');
                        lemma_concat_contains(before + name@ + "="@ + value@, " "@, '\0');
                    }
                },
                None => {},
            },
            None => {},
        }
        i = i + 1;
    }
    changes
}

/// `s` without the characters `c` that it starts with.
pub fn trim_start(s: &str, c: char) -> (trimmed: String)
    ensures
        trimmed@ == spec_trim_start(s@, c, 0),
{
    let len = s.unicode_len();
    let mut i: usize = 0;
    while i < len && s.get_char(i) == c
        invariant
            i <= len,
            len == s@.len(),
            spec_trim_start(s@, c, i as int) == spec_trim_start(s@, c, 0),
        decreases len - i,
    {
        i = i + 1;
    }
    let trimmed = String::from_str(s.substring_char(i, len));
    proof {
        if i >= len {
            assert(trimmed@ =~= Seq::<char>::empty());
        }
    }
    trimmed
}

/// Wraps a command for a remote host. The command, with its arguments, is run in
/// `path` on the host, or in the remote home where no path is given, with `env` set; a
/// login shell is run where no command is given. The result is the program `ssh` with
/// its arguments: those of `ssh_command`, `-t`, and the invocation of `shell` on the
/// quoted line. There is no result where that line holds a NUL, which no quoting can
/// carry: that is where the path holds one, or the shell where no command is given.
/// Words of the command and settings of the environment that hold a NUL are left out
/// of the line.
pub fn wrap_for_ssh(
    shell: &str,
    ssh_command: &SshCommand,
    command: Option<(&String, &Vec<String>)>,
    path: Option<&str>,
    env: &Vec<(String, String)>,
) -> (wrapped: Option<(String, Vec<String>)>)
    ensures
        ({
            let expected = spec_wrap_for_ssh(
                shell@,
                spec_string_views(ssh_command.arguments@),
                match command {
                    Some((command, arguments)) => Some((command@, spec_string_views(arguments@))),
                    None => None,
                },
                match path {
                    Some(path) => Some(path@),
                    None => None,
                },
                spec_pair_views(env@),
            );
            match wrapped {
                Some((program, arguments)) => expected == Some(
                    (program@, spec_string_views(arguments@)),
                ),
                None => expected.is_none(),
            }
        }),
        wrapped.is_some() == spec_can_be_wrapped(
            shell@,
            command.is_some(),
            match path {
                Some(path) => Some(path@),
                None => None,
            },
        ),
{
    proof {
        lemma_literals_hold_no_nul();
    }
    let ghost command_view: Option<(Seq<char>, Seq<Seq<char>>)> = match command {
        Some((command, arguments)) => Some((command@, spec_string_views(arguments@))),
        None => None,
    };
    let to_run = match command {
        Some((command, arguments)) => {
            let mut words: Vec<String> = Vec::new();
            words.push(command.clone());
            let mut i: usize = 0;
            while i < arguments.len()
                invariant
                    i <= arguments@.len(),
                    spec_string_views(words@) == seq![command@] + spec_string_views(
                        arguments@,
                    ).subrange(0, i as int),
                decreases arguments@.len() - i,
            {
                let ghost before = words@;
                words.push(arguments[i].clone());
                proof {
                    assert(spec_string_views(words@) =~= spec_string_views(before).push(
                        arguments@[i as int]@,
                    ));
                }
                i = i + 1;
            }
            proof {
                assert(spec_string_views(arguments@).subrange(0, arguments@.len() as int)
                    == spec_string_views(arguments@));
            }
            let quoted = quote_all(&words);
            proof {
                let views = spec_string_views(quoted@);
                assert forall|k: int| 0 <= k < views.len() implies !(#[trigger] views[k]).contains(
                    '\0',
                ) by {
                    assert(views[k] == quoted@[k]@);
                }
                lemma_join_contains(views, " "@, '\0', views.len() as int);
            }
            join(&quoted, " ")
        },
        None => {
            let mut to_run = String::from_str("exec ");
            to_run.append(shell);
            to_run.append(" -l");
            proof {
                lemma_concat_contains("exec "@, shell@, '\0');
                lemma_concat_contains("exec "@ + shell@, " -l"@, '\0');
            }
            to_run
        },
    };
    assert(to_run@ == spec_to_run(shell@, command_view));
    assert(to_run@.contains('\0') == (command.is_none() && shell@.contains('\0')));
    let changes = env_changes(env);
    let mut commands = match path {
        Some(path) => {
            let mut commands = match strip_prefix(path, "~/") {
                Some(_) => {
                    let without_tilde = trim_start(path, '~');
                    let trimmed = trim_start(without_tilde.as_str(), '/');
                    let mut commands = String::from_str("cd \"$HOME/");
                    commands.append(trimmed.as_str());
                    proof {
                        lemma_trim_start_contains(path@, '~', '\0', 0);
                        lemma_trim_start_contains(without_tilde@, '/', '\0', 0);
                        assert(path@.subrange(0, path@.len() as int) == path@);
                        assert(without_tilde@.subrange(0, without_tilde@.len() as int)
                            == without_tilde@);
                        lemma_concat_contains("cd \"$HOME/"@, trimmed@, '\0');
                    }
                    commands
                },
                None => {
                    let mut commands = String::from_str("cd \"");
                    commands.append(path);
                    proof {
                        lemma_concat_contains("cd \""@, path@, '\0');
                    }
                    commands
                },
            };
            assert(commands@.contains('\0') == path@.contains('\0'));
            let ghost front = commands@;
            commands.append("\"");
            proof {
                lemma_concat_contains(front, "\""@, '\0');
            }
            commands
        },
        None => String::from_str("cd"),
    };
    let ghost head = commands@;
    assert(head.contains('\0') == (path matches Some(path) && path@.contains('\0')));
    commands.append("; ");
    commands.append(changes.as_str());
    commands.append(" ");
    commands.append(to_run.as_str());
    proof {
        lemma_concat_contains(head, "; "@, '\0');
        lemma_concat_contains(head + "; "@, changes@, '\0');
        lemma_concat_contains(head + "; "@ + changes@, " "@, '\0');
        lemma_concat_contains(head + "; "@ + changes@ + " "@, to_run@, '\0');
        assert(commands@ == head + "; "@ + changes@ + " "@ + to_run@);
    }
    proof {
        assert(commands@ =~= spec_commands(
            shell@,
            command_view,
            match path {
                Some(path) => Some(path@),
                None => None,
            },
            spec_pair_views(env@),
        ));
    }
    let quoted = match try_quote(commands.as_str()) {
        Some(quoted) => quoted,
        None => {
            return None;
        },
    };
    let mut shell_invocation = String::from_str(shell);
    shell_invocation.append(" -c ");
    shell_invocation.append(quoted.as_str());
    let mut arguments: Vec<String> = Vec::new();
    let mut k: usize = 0;
    while k < ssh_command.arguments.len()
        invariant
            k <= ssh_command.arguments@.len(),
            spec_string_views(arguments@) == spec_string_views(ssh_command.arguments@).subrange(
                0,
                k as int,
            ),
        decreases ssh_command.arguments@.len() - k,
    {
        let ghost before = arguments@;
        arguments.push(ssh_command.arguments[k].clone());
        proof {
            assert(spec_string_views(arguments@) =~= spec_string_views(before).push(
                ssh_command.arguments@[k as int]@,
            ));
        }
        k = k + 1;
    }
    let ghost connection = arguments@;
    arguments.push(String::from_str("-t"));
    arguments.push(shell_invocation);
    proof {
        assert(spec_string_views(ssh_command.arguments@).subrange(
            0,
            ssh_command.arguments@.len() as int,
        ) == spec_string_views(ssh_command.arguments@));
        assert(spec_string_views(arguments@) =~= spec_string_views(ssh_command.arguments@) + seq![
            "-t"@,
            shell@ + " -c "@ + spec_shell_quote(commands@),
        ]);
    }
    Some((String::from_str("ssh"), arguments))
}

/// The shell that a terminal runs.
#[derive(Debug, Clone, PartialEq, Eq)]
pub enum Shell {
    /// The shell of the system.
    System,
    /// A program, without arguments.
    Program(String),
    /// A program with arguments, and the title that the terminal shows in place of its
    /// own.
    WithArguments { program: String, args: Vec<String>, title_override: Option<String> },
}

/// A shell as a value.
pub enum ShellView {
    System,
    Program(Seq<char>),
    WithArguments { program: Seq<char>, args: Seq<Seq<char>>, title_override: Option<Seq<char>> },
}

impl View for Shell {
    type V = ShellView;

    open spec fn view(&self) -> ShellView {
        match self {
            Shell::System => ShellView::System,
            Shell::Program(program) => ShellView::Program(program@),
            Shell::WithArguments { program, args, title_override } => ShellView::WithArguments {
                program: program@,
                args: spec_string_views(args@),
                title_override: match title_override {
                    Some(title) => Some(title@),
                    None => None,
                },
            },
        }
    }
}

/// How paths are written on a host.
#[derive(Clone, Copy, Debug, PartialEq, Eq, Hash, Structural)]
pub enum PathStyle {
    Posix,
    Windows,
}

/// What is known of the remote host of a project.
#[derive(Debug)]
pub struct SshDetails {
    pub host: String,
    pub ssh_command: SshCommand,
    pub envs: Option<Vec<(String, String)>>,
    /// How paths are written on the host. The directories that are handed over for the
    /// host are taken to be written so.
    pub path_style: PathStyle,
    pub shell: String,
}

/// A task to run in a terminal.
#[derive(Debug)]
pub struct SpawnInTerminal {
    pub cwd: Option<String>,
    pub command: Option<String>,
    pub args: Vec<String>,
    pub env: Vec<(String, String)>,
}

/// What the settings say of terminals.
#[derive(Debug)]
pub struct TerminalSettings {
    pub env: Vec<(String, String)>,
    pub shell: Shell,
}

/// A folder of the project.
#[derive(Debug)]
pub struct Worktree {
    /// The directory at the root of the worktree, if its root is a directory.
    pub root_dir: Option<String>,
    /// The path of the worktree's root.
    pub abs_path: String,
    /// Whether the root is a directory, as far as the root is known.
    pub root_is_dir: Option<bool>,
}

/// What the terminals of a project depend on.
#[derive(Debug)]
pub struct Project {
    pub ssh_details: Option<SshDetails>,
    pub worktrees: Vec<Worktree>,
    /// The worktree of the entry that is active, by its place among the worktrees.
    pub active_worktree: Option<usize>,
    /// The environment that the editor was started with, if it is known.
    pub cli_environment: Option<Vec<(String, String)>>,
    pub terminals: Terminals,
}

/// How a terminal is to be started.
#[derive(Debug)]
pub struct TerminalSpawn {
    /// The directory to start in, for a terminal on this machine.
    pub local_path: Option<String>,
    pub shell: Shell,
    pub env: Vec<(String, String)>,
    pub is_ssh_terminal: bool,
}

/// A start of a terminal as a value.
pub struct TerminalSpawnView {
    pub local_path: Option<Seq<char>>,
    pub shell: ShellView,
    pub env: Seq<(Seq<char>, Seq<char>)>,
    pub is_ssh_terminal: bool,
}

impl View for TerminalSpawn {
    type V = TerminalSpawnView;

    open spec fn view(&self) -> TerminalSpawnView {
        TerminalSpawnView {
            local_path: spec_option_view(self.local_path),
            shell: self.shell@,
            env: spec_pair_views(self.env@),
            is_ssh_terminal: self.is_ssh_terminal,
        }
    }
}

/// A command to run outside a terminal.
#[derive(Debug)]
pub struct CommandSpawn {
    pub program: String,
    pub args: Vec<String>,
    pub envs: Vec<(String, String)>,
    pub current_dir: Option<String>,
}

/// Optional pairs of strings as values; no pairs for none.
pub open spec fn spec_optional_pairs(pairs: Option<Vec<(String, String)>>) -> Seq<
    (Seq<char>, Seq<char>),
> {
    match pairs {
        Some(pairs) => spec_pair_views(pairs@),
        None => Seq::empty(),
    }
}

/// Place of the first variable named `name` at or behind `from`, or the number of
/// variables where there is none.
pub open spec fn spec_env_find(env: Seq<(Seq<char>, Seq<char>)>, name: Seq<char>, from: int) -> int
    decreases env.len() - from,
{
    if from < 0 || from >= env.len() {
        env.len() as int
    } else if env[from].0 == name {
        from
    } else {
        spec_env_find(env, name, from + 1)
    }
}

/// The environment with `name` set to `value`: in place where it is set already, and
/// behind all others where it is not.
pub open spec fn spec_env_set(
    env: Seq<(Seq<char>, Seq<char>)>,
    name: Seq<char>,
    value: Seq<char>,
) -> Seq<(Seq<char>, Seq<char>)> {
    let place = spec_env_find(env, name, 0);
    if place < env.len() {
        env.update(place, (name, value))
    } else {
        env.push((name, value))
    }
}

/// The environment with the first `upto` variables of `more` set, one after the other:
/// what `more` sets wins over what was set.
pub open spec fn spec_env_extend(
    env: Seq<(Seq<char>, Seq<char>)>,
    more: Seq<(Seq<char>, Seq<char>)>,
    upto: int,
) -> Seq<(Seq<char>, Seq<char>)>
    decreases upto,
{
    if upto <= 0 {
        env
    } else if upto > more.len() {
        spec_env_extend(env, more, upto - 1)
    } else {
        spec_env_set(spec_env_extend(env, more, upto - 1), more[upto - 1].0, more[upto - 1].1)
    }
}

/// The environment with `name` set to `value` unless it is set already.
pub open spec fn spec_env_or_insert(
    env: Seq<(Seq<char>, Seq<char>)>,
    name: Seq<char>,
    value: Seq<char>,
) -> Seq<(Seq<char>, Seq<char>)> {
    if spec_env_find(env, name, 0) < env.len() {
        env
    } else {
        env.push((name, value))
    }
}

pub proof fn lemma_env_find_bounds(env: Seq<(Seq<char>, Seq<char>)>, name: Seq<char>, from: int)
    requires
        0 <= from <= env.len(),
    ensures
        from <= spec_env_find(env, name, from) <= env.len(),
    decreases env.len() - from,
{
    if from < env.len() && env[from].0 != name {
        lemma_env_find_bounds(env, name, from + 1);
    }
}

/// Place of the first variable named `name`, or the number of variables where there is
/// none.
pub fn env_find(env: &Vec<(String, String)>, name: &str) -> (place: usize)
    ensures
        place == spec_env_find(spec_pair_views(env@), name@, 0),
        place <= env@.len(),
{
    let ghost views = spec_pair_views(env@);
    let mut place: usize = 0;
    proof {
        lemma_env_find_bounds(views, name@, 0);
    }
    while place < env.len() && !str_eq(env[place].0.as_str(), name)
        invariant
            place <= env@.len(),
            views == spec_pair_views(env@),
            spec_env_find(views, name@, place as int) == spec_env_find(views, name@, 0),
        decreases env@.len() - place,
    {
        assert(views[place as int].0 == env@[place as int].0@);
        place = place + 1;
    }
    proof {
        if place < env@.len() {
            assert(views[place as int].0 == env@[place as int].0@);
        }
    }
    place
}

/// Sets `name` to `value` in the environment.
pub fn env_set(env: &mut Vec<(String, String)>, name: String, value: String)
    ensures
        spec_pair_views(final(env)@) == spec_env_set(spec_pair_views(old(env)@), name@, value@),
{
    let ghost before = spec_pair_views(env@);
    let place = env_find(env, name.as_str());
    if place < env.len() {
        env.set(place, (name, value));
        assert(spec_pair_views(env@) =~= before.update(place as int, (name@, value@)));
    } else {
        env.push((name, value));
        assert(spec_pair_views(env@) =~= before.push((name@, value@)));
    }
}

/// Sets every variable of `more` in the environment, one after the other.
pub fn env_extend(env: &mut Vec<(String, String)>, more: &Vec<(String, String)>)
    ensures
        spec_pair_views(final(env)@) == spec_env_extend(
            spec_pair_views(old(env)@),
            spec_pair_views(more@),
            more@.len() as int,
        ),
{
    let mut i: usize = 0;
    while i < more.len()
        invariant
            i <= more@.len(),
            spec_pair_views(env@) == spec_env_extend(
                spec_pair_views(old(env)@),
                spec_pair_views(more@),
                i as int,
            ),
        decreases more@.len() - i,
    {
        env_set(env, more[i].0.clone(), more[i].1.clone());
        i = i + 1;
    }
}

/// Sets `name` to `value` in the environment unless it is set already.
pub fn env_or_insert(env: &mut Vec<(String, String)>, name: &str, value: &str)
    ensures
        spec_pair_views(final(env)@) == spec_env_or_insert(
            spec_pair_views(old(env)@),
            name@,
            value@,
        ),
{
    let ghost before = spec_pair_views(env@);
    let place = env_find(env, name);
    if place >= env.len() {
        env.push((String::from_str(name), String::from_str(value)));
        assert(spec_pair_views(env@) =~= before.push((name@, value@)));
    }
}

/// The environment that a terminal starts from: that which the editor was started
/// with, then what the settings set, then what `more` sets.
pub open spec fn spec_terminal_env(
    cli_environment: Option<Vec<(String, String)>>,
    settings_env: Seq<(Seq<char>, Seq<char>)>,
    more: Seq<(Seq<char>, Seq<char>)>,
) -> Seq<(Seq<char>, Seq<char>)> {
    let merged = spec_env_extend(
        spec_env_extend(Seq::empty(), spec_optional_pairs(cli_environment), spec_optional_pairs(
            cli_environment,
        ).len() as int),
        settings_env,
        settings_env.len() as int,
    );
    spec_env_extend(merged, more, more.len() as int)
}

/// The title of a terminal on the host `host`.
pub open spec fn spec_remote_title(host: Seq<char>) -> Seq<char> {
    host + " \u{2014} Terminal"@
}

/// How a terminal is started, given the directory it starts in. On a remote host the
/// command, or a login shell where there is none, is wrapped for `ssh`, with `TERM`
/// set to a value that every host knows unless it is set, and the terminal itself gets
/// the environment of the connection only. On this machine the command runs as it is,
/// or `local_shell` where there is none. There is no start where the line for the
/// remote shell cannot be quoted.
pub open spec fn spec_terminal_spawn(
    ssh_details: Option<SshDetails>,
    env: Seq<(Seq<char>, Seq<char>)>,
    command: Option<(Seq<char>, Seq<Seq<char>>)>,
    path: Option<Seq<char>>,
    local_shell: ShellView,
) -> Option<TerminalSpawnView> {
    match ssh_details {
        Some(ssh) => match spec_wrap_for_ssh(
            ssh.shell@,
            spec_string_views(ssh.ssh_command.arguments@),
            command,
            path,
            spec_env_or_insert(env, "TERM"@, "xterm-256color"@),
        ) {
            Some((program, args)) => Some(
                TerminalSpawnView {
                    local_path: None,
                    shell: ShellView::WithArguments {
                        program,
                        args,
                        title_override: Some(spec_remote_title(ssh.host@)),
                    },
                    env: spec_env_extend(
                        Seq::empty(),
                        spec_optional_pairs(ssh.envs),
                        spec_optional_pairs(ssh.envs).len() as int,
                    ),
                    is_ssh_terminal: true,
                },
            ),
            None => None,
        },
        None => Some(TerminalSpawnView { local_path: path, shell: local_shell, env, is_ssh_terminal: false }),
    }
}

/// Expands a tilde at the start of a path with `shellexpand::tilde`, which asks the
/// system for the home directory. A path that does not start with a tilde comes back
/// as it is; of any other path nothing is claimed.
#[verifier::external_body]
fn expand_tilde(path: &str) -> (expanded: String)
    ensures
        !spec_starts_with(path@, seq!['~']) ==> expanded@ == path@,
{
    shellexpand::tilde(path).into_owned()
}

/// A copy of the strings.
pub fn copy_strings(strings: &Vec<String>) -> (copy: Vec<String>)
    ensures
        spec_string_views(copy@) == spec_string_views(strings@),
{
    let mut copy: Vec<String> = Vec::new();
    let mut i: usize = 0;
    while i < strings.len()
        invariant
            i <= strings@.len(),
            spec_string_views(copy@) == spec_string_views(strings@).subrange(0, i as int),
        decreases strings@.len() - i,
    {
        let ghost before = copy@;
        copy.push(strings[i].clone());
        assert(spec_string_views(copy@) =~= spec_string_views(before).push(strings@[i as int]@));
        i = i + 1;
    }
    assert(spec_string_views(strings@).subrange(0, strings@.len() as int) == spec_string_views(
        strings@,
    ));
    copy
}

/// A copy of the shell.
pub fn copy_shell(shell: &Shell) -> (copy: Shell)
    ensures
        copy@ == shell@,
{
    match shell {
        Shell::System => Shell::System,
        Shell::Program(program) => Shell::Program(program.clone()),
        Shell::WithArguments { program, args, title_override } => Shell::WithArguments {
            program: program.clone(),
            args: copy_strings(args),
            title_override: match title_override {
                Some(title) => Some(title.clone()),
                None => None,
            },
        },
    }
}

impl Project {
    /// The directory of the active entry's worktree, or else of the first worktree
    /// that has one.
    pub open spec fn spec_active_project_directory(&self) -> Option<Seq<char>> {
        match self.active_worktree {
            Some(active) => if active < self.worktrees@.len()
                && self.worktrees@[active as int].root_dir.is_some() {
                spec_option_view(self.worktrees@[active as int].root_dir)
            } else {
                spec_first_root_dir(self.worktrees@, 0)
            },
            None => spec_first_root_dir(self.worktrees@, 0),
        }
    }

    /// The path of the first worktree, where its root is a directory.
    pub open spec fn spec_first_project_directory(&self) -> Option<Seq<char>> {
        if self.worktrees@.len() > 0 && self.worktrees@[0].root_is_dir == Some(true) {
            Some(self.worktrees@[0].abs_path@)
        } else {
            None
        }
    }

    /// The directory of the active entry's worktree, or else of the first worktree
    /// that has one.
    pub fn active_project_directory(&self) -> (directory: Option<String>)
        ensures
            spec_option_view(directory) == self.spec_active_project_directory(),
    {
        match self.active_worktree {
            Some(active) => {
                if active < self.worktrees.len() {
                    match &self.worktrees[active].root_dir {
                        Some(directory) => {
                            return Some(directory.clone());
                        },
                        None => {},
                    }
                }
            },
            None => {},
        }
        let mut i: usize = 0;
        while i < self.worktrees.len()
            invariant
                i <= self.worktrees@.len(),
                self.spec_active_project_directory() == spec_first_root_dir(self.worktrees@, 0),
                spec_first_root_dir(self.worktrees@, i as int) == spec_first_root_dir(
                    self.worktrees@,
                    0,
                ),
            decreases self.worktrees@.len() - i,
        {
            match &self.worktrees[i].root_dir {
                Some(directory) => {
                    return Some(directory.clone());
                },
                None => {},
            }
            i = i + 1;
        }
        None
    }

    /// The path of the first worktree, where its root is a directory.
    pub fn first_project_directory(&self) -> (directory: Option<String>)
        ensures
            spec_option_view(directory) == self.spec_first_project_directory(),
    {
        if self.worktrees.len() == 0 {
            return None;
        }
        match self.worktrees[0].root_is_dir {
            Some(true) => Some(self.worktrees[0].abs_path.clone()),
            _ => None,
        }
    }

    /// The handles of the terminals that run on this machine.
    pub fn local_terminal_handles(&self) -> (handles: &Vec<u64>)
        ensures
            *handles == self.terminals.local_handles,
    {
        &self.terminals.local_handles
    }

    /// What is known of the remote host, for a project on one.
    pub fn ssh_details(&self) -> (details: Option<&SshDetails>)
        ensures
            match details {
                Some(details) => self.ssh_details == Some(*details),
                None => self.ssh_details.is_none(),
            },
    {
        match &self.ssh_details {
            Some(details) => Some(details),
            None => None,
        }
    }

    /// The environment that a terminal starts from.
    pub fn terminal_env(&self, settings: &TerminalSettings, more: &Vec<(String, String)>) -> (env:
        Vec<(String, String)>)
        ensures
            spec_pair_views(env@) == spec_terminal_env(
                self.cli_environment,
                spec_pair_views(settings.env@),
                spec_pair_views(more@),
            ),
    {
        let mut env: Vec<(String, String)> = Vec::new();
        assert(spec_pair_views(env@) =~= Seq::<(Seq<char>, Seq<char>)>::empty());
        match &self.cli_environment {
            Some(cli) => {
                env_extend(&mut env, cli);
            },
            None => {},
        }
        env_extend(&mut env, &settings.env);
        env_extend(&mut env, more);
        env
    }

    /// How a terminal is started in `path`, for `command` or for a shell.
    pub fn spawn_terminal(
        &self,
        env: Vec<(String, String)>,
        command: Option<(&String, &Vec<String>)>,
        path: Option<String>,
        local_shell: Shell,
    ) -> (spawn: Option<TerminalSpawn>)
        ensures
            ({
                let expected = spec_terminal_spawn(
                    self.ssh_details,
                    spec_pair_views(env@),
                    match command {
                        Some((command, args)) => Some((command@, spec_string_views(args@))),
                        None => None,
                    },
                    spec_option_view(path),
                    local_shell@,
                );
                match spawn {
                    Some(spawn) => expected == Some(spawn@),
                    None => expected.is_none(),
                }
            }),
            spawn.is_some() == match self.ssh_details {
                Some(ssh) => spec_can_be_wrapped(
                    ssh.shell@,
                    command.is_some(),
                    spec_option_view(path),
                ),
                None => true,
            },
    {
        match &self.ssh_details {
            Some(ssh) => {
                let mut env = env;
                env_or_insert(&mut env, "TERM", "xterm-256color");
                let path_text: Option<&str> = match &path {
                    Some(path) => Some(path.as_str()),
                    None => None,
                };
                let wrapped = wrap_for_ssh(
                    ssh.shell.as_str(),
                    &ssh.ssh_command,
                    command,
                    path_text,
                    &env,
                );
                match wrapped {
                    Some((program, args)) => {
                        let mut title = ssh.host.clone();
                        title.append(" \u{2014} Terminal");
                        let mut remote_env: Vec<(String, String)> = Vec::new();
                        assert(spec_pair_views(remote_env@) =~= Seq::<
                            (Seq<char>, Seq<char>),
                        >::empty());
                        match &ssh.envs {
                            Some(envs) => {
                                env_extend(&mut remote_env, envs);
                            },
                            None => {},
                        }
                        Some(
                            TerminalSpawn {
                                local_path: None,
                                shell: Shell::WithArguments {
                                    program,
                                    args,
                                    title_override: Some(title),
                                },
                                env: remote_env,
                                is_ssh_terminal: true,
                            },
                        )
                    },
                    None => None,
                }
            },
            None => Some(
                TerminalSpawn { local_path: path, shell: local_shell, env, is_ssh_terminal: false },
            ),
        }
    }

    /// The shell that a task runs in on this machine: its command with its arguments,
    /// or the shell of the system where it has no command.
    pub open spec fn spec_task_shell(spawn_task: SpawnInTerminal) -> ShellView {
        match spawn_task.command {
            Some(program) => ShellView::WithArguments {
                program: program@,
                args: spec_string_views(spawn_task.args@),
                title_override: None,
            },
            None => ShellView::System,
        }
    }

    /// How the terminal for a task is started, given the directory it starts in.
    pub open spec fn spec_terminal_task(
        &self,
        spawn_task: SpawnInTerminal,
        settings: TerminalSettings,
        path: Option<Seq<char>>,
    ) -> Option<TerminalSpawnView> {
        spec_terminal_spawn(
            self.ssh_details,
            spec_terminal_env(
                self.cli_environment,
                spec_pair_views(settings.env@),
                spec_pair_views(spawn_task.env@),
            ),
            match spawn_task.command {
                Some(command) => Some((command@, spec_string_views(spawn_task.args@))),
                None => None,
            },
            path,
            Project::spec_task_shell(spawn_task),
        )
    }

    /// How the terminal for a task is started. The task starts in its own directory, or
    /// in the active directory of the project where it names none. On this machine a
    /// tilde at the start of the task's directory stands for the home directory, which
    /// the system is asked for; on a remote host the directory is taken as it is.
    pub fn create_terminal_task(&self, spawn_task: &SpawnInTerminal, settings: &TerminalSettings) -> (
        spawn: Option<TerminalSpawn>)
        ensures
            ({
                let expanded_here = self.ssh_details.is_none() && spawn_task.cwd.is_some()
                    && spec_starts_with(spawn_task.cwd.unwrap()@, seq!['~']);
                let path = match spawn_task.cwd {
                    Some(cwd) => Some(cwd@),
                    None => self.spec_active_project_directory(),
                };
                if expanded_here {
                    match spawn {
                        Some(spawn) => exists|home: Seq<char>|
                            self.spec_terminal_task(*spawn_task, *settings, Some(home)) == Some(
                                spawn@,
                            ),
                        None => false,
                    }
                } else {
                    match spawn {
                        Some(spawn) => self.spec_terminal_task(*spawn_task, *settings, path)
                            == Some(spawn@),
                        None => self.spec_terminal_task(*spawn_task, *settings, path).is_none(),
                    }
                }
            }),
            spawn.is_some() == match self.ssh_details {
                Some(ssh) => spec_can_be_wrapped(
                    ssh.shell@,
                    spawn_task.command.is_some(),
                    match spawn_task.cwd {
                        Some(cwd) => Some(cwd@),
                        None => self.spec_active_project_directory(),
                    },
                ),
                None => true,
            },
    {
        let path: Option<String> = match &spawn_task.cwd {
            Some(cwd) => {
                if self.ssh_details.is_some() {
                    Some(cwd.clone())
                } else {
                    Some(expand_tilde(cwd.as_str()))
                }
            },
            None => self.active_project_directory(),
        };
        let env = self.terminal_env(settings, &spawn_task.env);
        let shell = match &spawn_task.command {
            Some(program) => Shell::WithArguments {
                program: program.clone(),
                args: copy_strings(&spawn_task.args),
                title_override: None,
            },
            None => Shell::System,
        };
        let command: Option<(&String, &Vec<String>)> = match &spawn_task.command {
            Some(command) => Some((command, &spawn_task.args)),
            None => None,
        };
        let ghost path_view = spec_option_view(path);
        let spawn = self.spawn_terminal(env, command, path, shell);
        proof {
            if self.ssh_details.is_none() && spawn_task.cwd.is_some() && spec_starts_with(
                spawn_task.cwd.unwrap()@,
                seq!['~'],
            ) {
                assert(self.spec_terminal_task(*spawn_task, *settings, Some(path_view.unwrap()))
                    == Some(spawn.unwrap()@));
            }
        }
        spawn
    }

    /// How a terminal with a shell is started in `cwd`: the shell of the settings on
    /// this machine, a login shell on a remote host.
    pub fn create_terminal_shell(&self, cwd: Option<String>, settings: &TerminalSettings) -> (spawn:
        Option<TerminalSpawn>)
        ensures
            ({
                let expected = spec_terminal_spawn(
                    self.ssh_details,
                    spec_terminal_env(
                        self.cli_environment,
                        spec_pair_views(settings.env@),
                        Seq::empty(),
                    ),
                    None,
                    spec_option_view(cwd),
                    settings.shell@,
                );
                match spawn {
                    Some(spawn) => expected == Some(spawn@),
                    None => expected.is_none(),
                }
            }),
            spawn.is_some() == match self.ssh_details {
                Some(ssh) => spec_can_be_wrapped(ssh.shell@, false, spec_option_view(cwd)),
                None => true,
            },
    {
        let none: Vec<(String, String)> = Vec::new();
        assert(spec_pair_views(none@) =~= Seq::<(Seq<char>, Seq<char>)>::empty());
        let env = self.terminal_env(settings, &none);
        self.spawn_terminal(env, None, cwd, copy_shell(&settings.shell))
    }

    /// How a command is run outside a terminal, `program` and `args` being the
    /// invocation of the shell that runs it: wrapped for `ssh` on a remote host, with
    /// the environment of the connection; as it is on this machine, with the
    /// environment of terminals, in the first directory of the project.
    pub fn exec_in_shell(&self, program: String, args: Vec<String>, settings: &TerminalSettings) -> (
        spawn: Option<CommandSpawn>)
        ensures
            ({
                let env = spec_terminal_env(
                    self.cli_environment,
                    spec_pair_views(settings.env@),
                    Seq::empty(),
                );
                let path = self.spec_first_project_directory();
                match self.ssh_details {
                    Some(ssh) => match spec_wrap_for_ssh(
                        ssh.shell@,
                        spec_string_views(ssh.ssh_command.arguments@),
                        Some((program@, spec_string_views(args@))),
                        path,
                        env,
                    ) {
                        Some((wrapped, wrapped_args)) => spawn matches Some(spawn) && spawn.program@
                            == wrapped && spec_string_views(spawn.args@) == wrapped_args
                            && spec_pair_views(spawn.envs@) == spec_optional_pairs(ssh.envs)
                            && spawn.current_dir.is_none(),
                        None => spawn.is_none(),
                    },
                    None => spawn matches Some(spawn) && spawn.program@ == program@
                        && spec_string_views(spawn.args@) == spec_string_views(args@)
                        && spec_pair_views(spawn.envs@) == env && spec_option_view(
                        spawn.current_dir,
                    ) == path,
                }
            }),
            spawn.is_some() == match self.ssh_details {
                Some(ssh) => spec_can_be_wrapped(
                    ssh.shell@,
                    true,
                    self.spec_first_project_directory(),
                ),
                None => true,
            },
    {
        let path = self.first_project_directory();
        let none: Vec<(String, String)> = Vec::new();
        assert(spec_pair_views(none@) =~= Seq::<(Seq<char>, Seq<char>)>::empty());
        let env = self.terminal_env(settings, &none);
        match &self.ssh_details {
            Some(ssh) => {
                let path_text: Option<&str> = match &path {
                    Some(path) => Some(path.as_str()),
                    None => None,
                };
                let wrapped = wrap_for_ssh(
                    ssh.shell.as_str(),
                    &ssh.ssh_command,
                    Some((&program, &args)),
                    path_text,
                    &env,
                );
                match wrapped {
                    Some((wrapped, wrapped_args)) => {
                        let envs: Vec<(String, String)> = match &ssh.envs {
                            Some(envs) => copy_pairs(envs),
                            None => {
                                let empty: Vec<(String, String)> = Vec::new();
                                assert(spec_pair_views(empty@) =~= Seq::<
                                    (Seq<char>, Seq<char>),
                                >::empty());
                                empty
                            },
                        };
                        Some(
                            CommandSpawn {
                                program: wrapped,
                                args: wrapped_args,
                                envs,
                                current_dir: None,
                            },
                        )
                    },
                    None => None,
                }
            },
            None => Some(CommandSpawn { program, args, envs: env, current_dir: path }),
        }
    }
}

/// The directory of the first worktree at or behind place `from` that has one.
pub open spec fn spec_first_root_dir(worktrees: Seq<Worktree>, from: int) -> Option<Seq<char>>
    decreases worktrees.len() - from,
{
    if from < 0 || from >= worktrees.len() {
        None
    } else if worktrees[from].root_dir.is_some() {
        spec_option_view(worktrees[from].root_dir)
    } else {
        spec_first_root_dir(worktrees, from + 1)
    }
}

/// A copy of the pairs.
pub fn copy_pairs(pairs: &Vec<(String, String)>) -> (copy: Vec<(String, String)>)
    ensures
        spec_pair_views(copy@) == spec_pair_views(pairs@),
{
    let mut copy: Vec<(String, String)> = Vec::new();
    let mut i: usize = 0;
    while i < pairs.len()
        invariant
            i <= pairs@.len(),
            spec_pair_views(copy@) == spec_pair_views(pairs@).subrange(0, i as int),
        decreases pairs@.len() - i,
    {
        let ghost before = copy@;
        copy.push((pairs[i].0.clone(), pairs[i].1.clone()));
        assert(spec_pair_views(copy@) =~= spec_pair_views(before).push(
            (pairs@[i as int].0@, pairs@[i as int].1@),
        ));
        i = i + 1;
    }
    assert(spec_pair_views(pairs@).subrange(0, pairs@.len() as int) == spec_pair_views(pairs@));
    copy
}

} // verus!
