//! Runtime options and the command that a launch sends to tmux.

use vstd::prelude::*;

use crate::error::{ConfigError, IntmuxError};
use crate::error::ErrorView;
use crate::quote::{shell_join, shell_joined};
use crate::target::{lemma_split_append_field, lemma_split_without_sep};
use crate::text::{
    chars_eq, chars_of, is_blank, split_chars, split_on, string_from_chars, sub_chars, trimmed, views_of,
};

verus! {

/// The session that launches target when no other is configured.
pub open spec fn default_session_name() -> Seq<char> {
    "intmux"@
}

/// The error that a socket name gets, if any.
pub open spec fn socket_name_error(name: Seq<char>) -> Option<ConfigError> {
    if name.len() == 0 {
        Some(ConfigError::EmptySocketName)
    } else if name.contains('/') {
        Some(ConfigError::SocketNameContainsSeparator)
    } else {
        None
    }
}

/// A validated tmux socket name.
#[derive(Clone, Debug, PartialEq, Eq)]
pub struct SocketName(String);

impl View for SocketName {
    type V = Seq<char>;

    closed spec fn view(&self) -> Seq<char> {
        self.0@
    }
}

/// Whether `c` occurs in `v`.
fn contains_char(v: &[char], c: char) -> (r: bool)
    ensures
        r == v@.contains(c),
{
    for i in 0..v.len()
        invariant
            forall|k: int| 0 <= k < i ==> v@[k] != c,
    {
        if v[i] == c {
            assert(v@[i as int] == c);
            return true;
        }
    }
    false
}

impl SocketName {
    /// Validates a socket name: it must be non-empty and hold no `'/'`.
    pub fn new(socket_name: String) -> (r: Result<SocketName, ConfigError>)
        ensures
            match socket_name_error(socket_name@) {
                Some(e) => r == Err::<SocketName, ConfigError>(e),
                None => r is Ok && r->Ok_0@ == socket_name@,
            },
    {
        let chars = chars_of(socket_name.as_str());
        if chars.len() == 0 {
            return Err(ConfigError::EmptySocketName);
        }
        if contains_char(&chars, '/') {
            return Err(ConfigError::SocketNameContainsSeparator);
        }
        Ok(SocketName(socket_name))
    }

    /// The name.
    pub fn as_str(&self) -> (r: &str)
        ensures
            r@ == self@,
    {
        self.0.as_str()
    }
}

/// A validated tmux session name.
#[derive(Clone, Debug, PartialEq, Eq)]
pub struct SessionName(String);

impl View for SessionName {
    type V = Seq<char>;

    closed spec fn view(&self) -> Seq<char> {
        self.0@
    }
}

impl SessionName {
    /// Validates a session name: it must be non-empty.
    pub fn new(session_name: String) -> (r: Result<SessionName, ConfigError>)
        ensures
            session_name@.len() == 0 ==> r == Err::<SessionName, ConfigError>(
                ConfigError::EmptySessionName,
            ),
            session_name@.len() > 0 ==> r is Ok && r->Ok_0@ == session_name@,
    {
        let chars = chars_of(session_name.as_str());
        if chars.len() == 0 {
            return Err(ConfigError::EmptySessionName);
        }
        Ok(SessionName(session_name))
    }

    /// The name.
    pub fn as_str(&self) -> (r: &str)
        ensures
            r@ == self@,
    {
        self.0.as_str()
    }
}

/// Runtime options used by the library entry points.
#[derive(Clone, Debug, PartialEq, Eq)]
pub struct RunOptions {
    reuse_window: bool,
    socket_name: Option<SocketName>,
    session_name: Option<SessionName>,
}

/// The abstract value of [`RunOptions`].
pub struct RunOptionsView {
    /// Whether a tagged window is reused for the same command and directory.
    pub reuse_window: bool,
    /// The tmux socket (`-L`), when one is chosen.
    pub socket_name: Option<Seq<char>>,
    /// The session that commands are launched into.
    pub session_name: Seq<char>,
}

impl View for RunOptions {
    type V = RunOptionsView;

    closed spec fn view(&self) -> RunOptionsView {
        RunOptionsView {
            reuse_window: self.reuse_window,
            socket_name: match self.socket_name {
                Some(s) => Some(s@),
                None => None,
            },
            session_name: match self.session_name {
                Some(s) => s@,
                None => default_session_name(),
            },
        }
    }
}

impl Default for RunOptions {
    fn default() -> (r: Self)
        ensures
            r@ == RunOptions::defaults(),
    {
        RunOptions { reuse_window: false, socket_name: None, session_name: None }
    }
}

impl RunOptions {
    /// The default options: a new window for every launch, the default socket
    /// and the session `intmux`.
    pub open spec fn defaults() -> RunOptionsView {
        RunOptionsView {
            reuse_window: false,
            socket_name: None,
            session_name: default_session_name(),
        }
    }

    /// Creates a new set of default runtime options.
    pub fn new() -> (r: Self)
        ensures
            r@ == RunOptions::defaults(),
    {
        RunOptions { reuse_window: false, socket_name: None, session_name: None }
    }

    /// Creates options that use a specific tmux socket name; the name must be
    /// non-empty and must not contain `'/'`.
    pub fn with_socket_name(socket_name: String) -> (r: Result<Self, ConfigError>)
        ensures
            match socket_name_error(socket_name@) {
                Some(e) => r == Err::<RunOptions, ConfigError>(e),
                None => r is Ok && r->Ok_0@ == (RunOptionsView {
                    socket_name: Some(socket_name@),
                    ..RunOptions::defaults()
                }),
            },
    {
        let name = SocketName::new(socket_name)?;
        Ok(RunOptions { reuse_window: false, socket_name: Some(name), session_name: None })
    }

    /// Launches into the named session instead of `intmux`; the name must be
    /// non-empty.
    pub fn with_session_name(self, session_name: String) -> (r: Result<Self, ConfigError>)
        ensures
            session_name@.len() == 0 ==> r == Err::<RunOptions, ConfigError>(
                ConfigError::EmptySessionName,
            ),
            session_name@.len() > 0 ==> r is Ok && r->Ok_0@ == (RunOptionsView {
                session_name: session_name@,
                ..self@
            }),
    {
        let name = SessionName::new(session_name)?;
        Ok(RunOptions { session_name: Some(name), ..self })
    }

    /// Enables reuse of a previously tagged tmux window for the same command
    /// and working directory.
    pub fn with_reuse_window(self) -> (r: Self)
        ensures
            r@ == (RunOptionsView { reuse_window: true, ..self@ }),
    {
        RunOptions { reuse_window: true, ..self }
    }

    /// Whether window reuse is enabled.
    pub fn reuse_window(&self) -> (r: bool)
        ensures
            r == self@.reuse_window,
    {
        self.reuse_window
    }

    /// The tmux socket name, when one is set.
    pub fn socket_name(&self) -> (r: Option<&str>)
        ensures
            r is Some <==> self@.socket_name is Some,
            r is Some ==> r->Some_0@ == self@.socket_name->Some_0,
    {
        match &self.socket_name {
            Some(s) => Some(s.as_str()),
            None => None,
        }
    }

    /// The session that commands are launched into.
    pub fn session_name(&self) -> (r: &str)
        ensures
            r@ == self@.session_name,
    {
        match &self.session_name {
            Some(s) => s.as_str(),
            None => "intmux",
        }
    }
}

// ---------------------------------------------------------------------------
// Window names.

/// The last component of a path's `'/'`-separated fields that names a file:
/// empty fields and `.` are skipped, and a final `..` names none
/// (`Path::file_name`).
pub open spec fn last_named_component(parts: Seq<Seq<char>>) -> Option<Seq<char>>
    decreases parts.len(),
{
    if parts.len() == 0 {
        None
    } else if parts.last().len() == 0 || parts.last() == seq!['.'] {
        last_named_component(parts.drop_last())
    } else if parts.last() == seq!['.', '.'] {
        None
    } else {
        Some(parts.last())
    }
}

/// The file name of a path, if it has one.
pub open spec fn path_file_name(path: Seq<char>) -> Option<Seq<char>> {
    last_named_component(split_on(path, '/'))
}

/// The window name for a command: the file name of its executable (or the
/// whole text when it has none), or `cmd` when that is blank.
pub open spec fn window_name_for(command: Seq<char>) -> Seq<char> {
    let raw = match path_file_name(command) {
        Some(name) => name,
        None => command,
    };
    if trimmed(raw).len() == 0 {
        "cmd"@
    } else {
        raw
    }
}

/// The file name of a path, if it has one.
pub fn file_name_chars(path: &[char]) -> (r: Option<Vec<char>>)
    ensures
        match path_file_name(path@) {
            Some(name) => r is Some && r->Some_0@ == name,
            None => r is None,
        },
{
    let parts = split_chars(path, '/');
    let ghost pv = views_of(parts@);
    let mut i = parts.len();
    assert(pv.take(i as int) =~= pv);
    while i > 0
        invariant
            i <= parts@.len(),
            pv == views_of(parts@),
            pv.len() == parts@.len(),
            pv == split_on(path@, '/'),
            last_named_component(pv) == last_named_component(pv.take(i as int)),
        decreases i,
    {
        let part = &parts[i - 1];
        let ghost t = pv.take(i as int);
        assert(t.last() == part@);
        assert(t.drop_last() =~= pv.take(i - 1));
        let dot: [char; 1] = ['.'];
        let dot_dot: [char; 2] = ['.', '.'];
        assert(dot@ =~= seq!['.']);
        assert(dot_dot@ =~= seq!['.', '.']);
        let is_dot = chars_eq(part, &dot);
        let is_dot_dot = chars_eq(part, &dot_dot);
        if part.len() == 0 || is_dot {
            i = i - 1;
        } else if is_dot_dot {
            return None;
        } else {
            let name = sub_chars(part, 0, part.len());
            assert(part@.subrange(0, part@.len() as int) =~= part@);
            return Some(name);
        }
    }
    None
}

/// Derives the tmux window name from the command's executable.
pub fn derive_window_name(command: &str) -> (r: String)
    ensures
        r@ == window_name_for(command@),
{
    let text = chars_of(command);
    let raw = match file_name_chars(&text) {
        Some(name) => name,
        None => text,
    };
    if is_blank(&raw) {
        String::from_str("cmd")
    } else {
        string_from_chars(&raw)
    }
}

// ---------------------------------------------------------------------------
// The command payload.

/// What a launch runs: an argument vector, quoted for the shell, or a raw
/// shell command line.
#[derive(Clone, Debug, PartialEq, Eq)]
pub enum CommandPayload {
    /// An argv-style command; each argument is quoted before it is typed.
    Argv(Vec<String>),
    /// A raw shell command line, typed as it is.
    Shell(String),
}

/// The abstract value of a [`CommandPayload`].
pub enum PayloadView {
    /// See [`CommandPayload::Argv`].
    Argv(Seq<Seq<char>>),
    /// See [`CommandPayload::Shell`].
    Shell(Seq<char>),
}

impl View for CommandPayload {
    type V = PayloadView;

    open spec fn view(&self) -> PayloadView {
        match self {
            CommandPayload::Argv(argv) => PayloadView::Argv(argv@.map_values(|a: String| a@)),
            CommandPayload::Shell(line) => PayloadView::Shell(line@),
        }
    }
}

impl PayloadView {
    /// The line that is typed into the pane's shell.
    pub open spec fn command_line(self) -> Seq<char> {
        match self {
            PayloadView::Argv(argv) => shell_joined(argv),
            PayloadView::Shell(line) => line,
        }
    }
}

/// A validated command together with the directory it runs in.
#[derive(Clone, Debug, PartialEq, Eq)]
pub struct CommandSpec {
    payload: CommandPayload,
    cwd: String,
    window_name: String,
}

/// The abstract value of a [`CommandSpec`].
pub struct CommandSpecView {
    /// What runs.
    pub payload: PayloadView,
    /// The working directory.
    pub cwd: Seq<char>,
    /// The name of a newly created window.
    pub window_name: Seq<char>,
}

impl View for CommandSpec {
    type V = CommandSpecView;

    closed spec fn view(&self) -> CommandSpecView {
        CommandSpecView { payload: self.payload@, cwd: self.cwd@, window_name: self.window_name@ }
    }
}

impl CommandSpec {
    /// Validates an argv-style command: there must be an executable, and it
    /// must not be empty. The window is named after the executable.
    pub fn new(argv: Vec<String>, cwd: String) -> (r: Result<CommandSpec, IntmuxError>)
        ensures
            argv@.len() == 0 ==> r is Err && r->Err_0@ == ErrorView::InvalidCommand(
                "command must contain at least one argument"@,
            ),
            argv@.len() > 0 && argv@[0]@.len() == 0 ==> r is Err && r->Err_0@
                == ErrorView::InvalidCommand("command executable must not be empty"@),
            argv@.len() > 0 && argv@[0]@.len() > 0 ==> r is Ok && r->Ok_0@ == (CommandSpecView {
                payload: PayloadView::Argv(argv@.map_values(|a: String| a@)),
                cwd: cwd@,
                window_name: window_name_for(argv@[0]@),
            }),
    {
        if argv.len() == 0 {
            return Err(IntmuxError::InvalidCommand("command must contain at least one argument"));
        }
        let executable = chars_of(argv[0].as_str());
        if executable.len() == 0 {
            return Err(IntmuxError::InvalidCommand("command executable must not be empty"));
        }
        let window_name = derive_window_name(argv[0].as_str());
        Ok(CommandSpec { payload: CommandPayload::Argv(argv), cwd, window_name })
    }

    /// Validates a raw shell command line: it must not be empty. The window
    /// is named as for an executable of that text.
    pub fn shell(command_line: String, cwd: String) -> (r: Result<CommandSpec, IntmuxError>)
        ensures
            command_line@.len() == 0 ==> r is Err && r->Err_0@ == ErrorView::InvalidCommand(
                "shell command must not be empty"@,
            ),
            command_line@.len() > 0 ==> r is Ok && r->Ok_0@ == (CommandSpecView {
                payload: PayloadView::Shell(command_line@),
                cwd: cwd@,
                window_name: window_name_for(command_line@),
            }),
    {
        let text = chars_of(command_line.as_str());
        if text.len() == 0 {
            return Err(IntmuxError::InvalidCommand("shell command must not be empty"));
        }
        let window_name = derive_window_name(command_line.as_str());
        Ok(CommandSpec { payload: CommandPayload::Shell(command_line), cwd, window_name })
    }

    /// The working directory.
    pub fn cwd(&self) -> (r: &str)
        ensures
            r@ == self@.cwd,
    {
        self.cwd.as_str()
    }

    /// The name of a newly created window.
    pub fn window_name(&self) -> (r: &str)
        ensures
            r@ == self@.window_name,
    {
        self.window_name.as_str()
    }

    /// What runs.
    pub fn payload(&self) -> (r: &CommandPayload)
        ensures
            r@ == self@.payload,
    {
        &self.payload
    }

    /// The line that is typed into the pane's shell.
    pub fn command_line(&self) -> (r: String)
        ensures
            r@ == self@.payload.command_line(),
    {
        match &self.payload {
            CommandPayload::Argv(argv) => shell_join(argv.as_slice()),
            CommandPayload::Shell(line) => line.clone(),
        }
    }
}


// ---------------------------------------------------------------------------
// Laws.

/// Exactly the empty socket name and names holding `/` are refused: every
/// other name is accepted, and the two faults have their own errors.
pub proof fn socket_names_refuse_only_empty_and_separated(name: Seq<char>)
    ensures
        name.len() > 0 && !name.contains('/') ==> socket_name_error(name) is None,
        name.len() == 0 ==> socket_name_error(name) == Some(ConfigError::EmptySocketName),
        name.len() > 0 && name.contains('/') ==> socket_name_error(name) == Some(
            ConfigError::SocketNameContainsSeparator,
        ),
{
}

/// A window is named after its executable's file name: whenever the path has
/// a non-blank file name, that name, exactly, is the window's name; a path
/// without a file name gives its whole text; and a blank name gives `cmd`.
pub proof fn a_window_takes_its_file_name(command: Seq<char>)
    ensures
        path_file_name(command) matches Some(n) ==> (trimmed(n).len() > 0 ==> window_name_for(
            command,
        ) == n),
        path_file_name(command) matches Some(n) ==> (trimmed(n).len() == 0 ==> window_name_for(
            command,
        ) == "cmd"@),
        path_file_name(command) is None ==> (trimmed(command).len() > 0 ==> window_name_for(
            command,
        ) == command),
        path_file_name(command) is None ==> (trimmed(command).len() == 0 ==> window_name_for(
            command,
        ) == "cmd"@),
{
}

/// A command that is a plain file name (non-blank, without `/`, neither `.`
/// nor `..`) names its window itself, and so does that file name at the end
/// of any path.
pub proof fn a_file_name_names_its_window(dir: Seq<char>, name: Seq<char>)
    requires
        !name.contains('/'),
        name != seq!['.'],
        name != seq!['.', '.'],
        trimmed(name).len() > 0,
    ensures
        window_name_for(name) == name,
        window_name_for(dir + seq!['/'] + name) == name,
        window_name_for(dir + seq!['/'] + name + seq!['/']) == name,
{
    lemma_split_without_sep(name, '/');
    assert(seq![name].last() == name);
    assert(name.len() > 0);
    lemma_split_append_field(dir, name, '/');
    assert(split_on(dir, '/').push(name).last() == name);
    let path = dir + seq!['/'] + name;
    lemma_split_append_field(path, Seq::<char>::empty(), '/');
    assert(path + seq!['/'] + Seq::<char>::empty() =~= path + seq!['/']);
    let parts = split_on(path, '/').push(Seq::<char>::empty());
    assert(parts.drop_last() =~= split_on(path, '/'));
}

} // verus!
