//! What one run of `tmux` produced, as the library reads it.

use vstd::prelude::*;

use crate::text::{
    chars_of, decimal_i32, decimal_text, string_from_chars, trim_chars, trim_end_line_break_chars,
    trim_end_line_breaks, trimmed,
};

verus! {

/// The exit status and output of one `tmux` run, its output bytes already
/// decoded as text.
#[derive(Clone, Debug, PartialEq, Eq)]
pub struct ProcessOutput {
    /// The exit code, or `None` when a signal ended the process.
    pub status_code: Option<i32>,
    /// Standard output.
    pub stdout: String,
    /// Standard error.
    pub stderr: String,
}

/// The abstract value of a [`ProcessOutput`].
pub struct OutputView {
    /// The exit code, or `None` when a signal ended the process.
    pub status_code: Option<i32>,
    /// Standard output.
    pub stdout: Seq<char>,
    /// Standard error.
    pub stderr: Seq<char>,
}

impl View for ProcessOutput {
    type V = OutputView;

    open spec fn view(&self) -> OutputView {
        OutputView { status_code: self.status_code, stdout: self.stdout@, stderr: self.stderr@ }
    }
}

impl OutputView {
    /// The run exited with status 0.
    pub open spec fn succeeded(self) -> bool {
        self.status_code == Some(0i32)
    }

    /// Standard output without its trailing line breaks.
    pub open spec fn trimmed_stdout(self) -> Seq<char> {
        trim_end_line_breaks(self.stdout)
    }

    /// A concise description of a failed run: trimmed standard error if it
    /// says anything, else trimmed standard output, else the exit status.
    pub open spec fn failure_details(self) -> Seq<char> {
        if trimmed(self.stderr).len() > 0 {
            trimmed(self.stderr)
        } else if trimmed(self.stdout).len() > 0 {
            trimmed(self.stdout)
        } else {
            match self.status_code {
                Some(code) => "tmux exited with status "@ + decimal_text(code as int),
                None => "tmux terminated by signal"@,
            }
        }
    }
}

impl ProcessOutput {
    /// A run's status and output.
    pub fn new(status_code: Option<i32>, stdout: String, stderr: String) -> (r: ProcessOutput)
        ensures
            r@ == (OutputView { status_code, stdout: stdout@, stderr: stderr@ }),
    {
        ProcessOutput { status_code, stdout, stderr }
    }

    /// Whether the run exited with status 0.
    pub fn is_success(&self) -> (r: bool)
        ensures
            r == self@.succeeded(),
    {
        match self.status_code {
            Some(code) => code == 0,
            None => false,
        }
    }

    /// Standard output without its trailing `'\n'` and `'\r'` characters.
    pub fn trimmed_stdout(&self) -> (r: String)
        ensures
            r@ == self@.trimmed_stdout(),
    {
        let text = chars_of(self.stdout.as_str());
        string_from_chars(&trim_end_line_break_chars(&text))
    }

    /// A concise description of why the run failed.
    pub fn failure_details(&self) -> (r: String)
        ensures
            r@ == self@.failure_details(),
    {
        let stderr = trim_chars(&chars_of(self.stderr.as_str()));
        if stderr.len() > 0 {
            return string_from_chars(&stderr);
        }
        let stdout = trim_chars(&chars_of(self.stdout.as_str()));
        if stdout.len() > 0 {
            return string_from_chars(&stdout);
        }
        match self.status_code {
            Some(code) => {
                let mut details = String::from_str("tmux exited with status ");
                let digits = string_from_chars(&decimal_i32(code));
                details.append(digits.as_str());
                details
            },
            None => String::from_str("tmux terminated by signal"),
        }
    }
}

} // verus!
