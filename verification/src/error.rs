//! The error types of the library.

use vstd::prelude::*;

verus! {

/// Declares `std::io::Error` so that errors can carry it; it is opaque and
/// only passed through, unchanged, from a failed start of `tmux`.
#[verifier::external_type_specification]
#[verifier::external_body]
pub struct ExIoError(std::io::Error);

/// Configuration validation failures for non-CLI library options.
#[non_exhaustive]
#[derive(Clone, Copy, Debug, PartialEq, Eq, Structural)]
pub enum ConfigError {
    /// The tmux socket name was empty.
    EmptySocketName,
    /// The tmux socket name contained a path separator.
    SocketNameContainsSeparator,
    /// The tmux session name was empty.
    EmptySessionName,
}

impl ConfigError {
    /// The message that describes this failure.
    pub fn message(&self) -> (r: &'static str)
        ensures
            r@ == self.message_text(),
    {
        match self {
            ConfigError::EmptySocketName => "tmux socket name cannot be empty",
            ConfigError::SocketNameContainsSeparator => "tmux socket name must not contain '/'",
            ConfigError::EmptySessionName => "tmux session name cannot be empty",
        }
    }

    /// The text of `message`.
    pub open spec fn message_text(&self) -> Seq<char> {
        match self {
            ConfigError::EmptySocketName => "tmux socket name cannot be empty"@,
            ConfigError::SocketNameContainsSeparator => "tmux socket name must not contain '/'"@,
            ConfigError::EmptySessionName => "tmux session name cannot be empty"@,
        }
    }
}

/// All recoverable failures produced by `intmux`.
#[non_exhaustive]
#[derive(Debug)]
pub enum IntmuxError {
    /// CLI argument parsing failed.
    Cli(String),
    /// The current working directory could not be determined.
    CurrentDirectory(std::io::Error),
    /// The command payload was structurally invalid.
    InvalidCommand(&'static str),
    /// `tmux` exited unsuccessfully for the requested action.
    TmuxCommand {
        /// The failed action.
        context: &'static str,
        /// A concise description of tmux's failure.
        details: String,
    },
    /// Starting `tmux` failed before it produced an exit status.
    TmuxIo {
        /// The failed action.
        context: &'static str,
        /// The underlying OS error.
        source: std::io::Error,
    },
    /// `tmux` was not found on `PATH`.
    TmuxNotFound,
    /// `tmux` produced output that did not match the expected machine format.
    UnexpectedTmuxOutput {
        /// The action that produced malformed output.
        context: &'static str,
        /// A concise description of the malformed data.
        details: String,
    },
}

/// The abstract value of an [`IntmuxError`]: its texts as character sequences.
pub enum ErrorView {
    /// See [`IntmuxError::Cli`].
    Cli(Seq<char>),
    /// See [`IntmuxError::CurrentDirectory`].
    CurrentDirectory(std::io::Error),
    /// See [`IntmuxError::InvalidCommand`].
    InvalidCommand(Seq<char>),
    /// See [`IntmuxError::TmuxCommand`].
    TmuxCommand { context: Seq<char>, details: Seq<char> },
    /// See [`IntmuxError::TmuxIo`].
    TmuxIo { context: Seq<char>, source: std::io::Error },
    /// See [`IntmuxError::TmuxNotFound`].
    TmuxNotFound,
    /// See [`IntmuxError::UnexpectedTmuxOutput`].
    UnexpectedTmuxOutput { context: Seq<char>, details: Seq<char> },
}

impl View for IntmuxError {
    type V = ErrorView;

    open spec fn view(&self) -> ErrorView {
        match self {
            IntmuxError::Cli(m) => ErrorView::Cli(m@),
            IntmuxError::CurrentDirectory(e) => ErrorView::CurrentDirectory(*e),
            IntmuxError::InvalidCommand(m) => ErrorView::InvalidCommand(m@),
            IntmuxError::TmuxCommand { context, details } => ErrorView::TmuxCommand {
                context: context@,
                details: details@,
            },
            IntmuxError::TmuxIo { context, source } => ErrorView::TmuxIo {
                context: context@,
                source: *source,
            },
            IntmuxError::TmuxNotFound => ErrorView::TmuxNotFound,
            IntmuxError::UnexpectedTmuxOutput { context, details } => {
                ErrorView::UnexpectedTmuxOutput { context: context@, details: details@ }
            },
        }
    }
}

} // verus!
