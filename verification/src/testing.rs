//! Helpers for testing command-line programs: the result of a run, and the
//! settings of a runner.

use vstd::prelude::*;
use crate::context::{Context, ContextBuilder};
use crate::strmap::StrMap;
use crate::text::{contains_str, join_seq, lines, seq_contains_seq, seq_ends_with, split_lines, str_of, ends_with, cat2, trim, trim_seq, to_lower, lower_of, str_eq};
use crate::error::opt_view;

verus! {

/// What a run of a program gave.
pub struct InvokeResult {
    pub exit_code: i32,
    /// Standard output (with standard error when the runner mixes them).
    pub output: String,
    pub stderr: String,
    /// The message of the error or panic that ended the run.
    pub exception_message: Option<String>,
}

impl InvokeResult {
    pub fn new(exit_code: i32, output: String, stderr: String, exception_message: Option<String>) -> (r: Self)
        ensures
            r.exit_code == exit_code && r.output == output && r.stderr == stderr && r.exception_message
                == exception_message,
    {
        InvokeResult { exit_code, output, stderr, exception_message }
    }

    pub fn is_success(&self) -> (r: bool)
        ensures
            r == (self.exit_code == 0),
    {
        self.exit_code == 0
    }

    pub fn is_failure(&self) -> (r: bool)
        ensures
            r == (self.exit_code != 0),
    {
        self.exit_code != 0
    }

    /// The lines of the output.
    pub fn output_lines(&self) -> (r: Vec<String>)
        ensures
            r.deep_view() == lines(self.output@),
    {
        split_lines(self.output.as_str())
    }

    pub fn output_contains(&self, substring: &str) -> (r: bool)
        ensures
            r == seq_contains_seq(self.output@, substring@),
    {
        contains_str(self.output.as_str(), substring)
    }

    pub fn stderr_contains(&self, substring: &str) -> (r: bool)
        ensures
            r == seq_contains_seq(self.stderr@, substring@),
    {
        contains_str(self.stderr.as_str(), substring)
    }

    /// The output and the error output, the latter once.
    pub fn combined_output(&self) -> (r: String)
        ensures
            r@ == if self.stderr@.len() == 0 || seq_ends_with(self.output@, self.stderr@) {
                self.output@
            } else {
                self.output@ + self.stderr@
            },
    {
        if self.stderr.unicode_len() == 0 || ends_with(self.output.as_str(), self.stderr.as_str()) {
            return self.output.clone();
        }
        cat2(self.output.as_str(), self.stderr.as_str())
    }
}

/// A context named `info_name` with the default settings.
pub fn make_test_context(info_name: &str) -> (r: Context)
    ensures
        r.wf(),
        r.spec_info_name() == Some(info_name@),
        r.spec_parent() is None,
{
    ContextBuilder::new().info_name(info_name).build()
}

/// How a program is run in a test: the environment it sees, whether input is
/// echoed, whether errors go with the output, whether panics are caught, and
/// the encoding of what it writes.
pub struct CliRunner {
    pub env: StrMap<String>,
    pub env_unset: Vec<String>,
    pub echo_stdin: bool,
    pub mix_stderr: bool,
    pub catch_panics: bool,
    pub charset: String,
}

impl CliRunner {
    /// No environment changes, errors mixed into the output, panics caught, UTF-8.
    pub fn new() -> (r: Self)
        ensures
            r.env.wf() && r.env.map() == Map::<Seq<char>, String>::empty(),
            r.env_unset@.len() == 0,
            !r.echo_stdin && r.mix_stderr && r.catch_panics,
            r.charset@ == "utf-8"@,
    {
        CliRunner {
            env: StrMap::new(),
            env_unset: Vec::new(),
            echo_stdin: false,
            mix_stderr: true,
            catch_panics: true,
            charset: str_of("utf-8"),
        }
    }

    /// Set an environment variable for the run.
    pub fn env(self, key: &str, value: &str) -> (r: Self)
        requires
            self.env.wf(),
        ensures
            r.env.wf() && r.env.map() == self.env.map().insert(key@, r.env.map()[key@]),
            r.env.map()[key@]@ == value@,
            r == (CliRunner { env: r.env, ..self }),
    {
        let mut s = self;
        s.env.insert(str_of(key), str_of(value));
        s
    }

    /// Remove an environment variable for the run.
    pub fn env_unset(self, key: &str) -> (r: Self)
        ensures
            r.env_unset.deep_view() == self.env_unset.deep_view().push(key@),
            r == (CliRunner { env_unset: r.env_unset, ..self }),
    {
        let mut s = self;
        let ghost old_u = s.env_unset.deep_view();
        s.env_unset.push(str_of(key));
        assert(s.env_unset.deep_view() =~= old_u.push(key@));
        s
    }

    /// No environment changes.
    pub fn env_clear(self) -> (r: Self)
        ensures
            r.env.wf() && r.env.map() == Map::<Seq<char>, String>::empty(),
            r.env_unset@.len() == 0,
            r == (CliRunner { env: r.env, env_unset: r.env_unset, ..self }),
    {
        let mut s = self;
        s.env = StrMap::new();
        s.env_unset = Vec::new();
        s
    }

    pub fn echo_stdin(self, echo: bool) -> (r: Self)
        ensures
            r == (CliRunner { echo_stdin: echo, ..self }),
    {
        let mut s = self;
        s.echo_stdin = echo;
        s
    }

    pub fn mix_stderr(self, mix: bool) -> (r: Self)
        ensures
            r == (CliRunner { mix_stderr: mix, ..self }),
    {
        let mut s = self;
        s.mix_stderr = mix;
        s
    }

    pub fn catch_panics(self, catch: bool) -> (r: Self)
        ensures
            r == (CliRunner { catch_panics: catch, ..self }),
    {
        let mut s = self;
        s.catch_panics = catch;
        s
    }

    pub fn charset(self, charset: &str) -> (r: Self)
        ensures
            r.charset@ == charset@,
            r == (CliRunner { charset: r.charset, ..self }),
    {
        let mut s = self;
        s.charset = str_of(charset);
        s
    }

    /// What a run gave, from what it wrote (already decoded) and the input it
    /// was handed: the input echoed first when asked, and the errors after the
    /// output when mixed.
    pub fn result_of(&self, exit_code: i32, exception_message: Option<String>, stdout: String, stderr: String, input: &str) -> (r:
        InvokeResult)
        ensures
            r.exit_code == exit_code,
            r.exception_message == exception_message,
            r.stderr == stderr,
            r.output@ == ({
                let out = if self.echo_stdin && input@.len() > 0 {
                    input@ + stdout@
                } else {
                    stdout@
                };
                if self.mix_stderr {
                    out + stderr@
                } else {
                    out
                }
            }),
    {
        let out = if self.echo_stdin && input.unicode_len() > 0 {
            cat2(input, stdout.as_str())
        } else {
            stdout
        };
        let output = if self.mix_stderr {
            cat2(out.as_str(), stderr.as_str())
        } else {
            out
        };
        InvokeResult::new(exit_code, output, stderr, exception_message)
    }
}

/// The text that `bytes` decode to in the encoding named `label`, when the
/// label names one.
pub uninterp spec fn decoded_as(label: Seq<char>, bytes: Seq<u8>) -> Option<Seq<char>>;

/// Decodes bytes with `encoding_rs`: `Encoding::for_label` on the label, then
/// `Encoding::decode` (malformed bytes become replacement characters).
/// Claimed: the result is `decoded_as` of the arguments, and the label
/// `utf-8` names an encoding.
#[verifier::external_body]
fn decode_as(label: &str, bytes: &[u8]) -> (r: Option<String>)
    ensures
        opt_view(r) == decoded_as(label@, bytes@),
        label@ == "utf-8"@ ==> r is Some,
{
    encoding_rs::Encoding::for_label(label.as_bytes()).map(|e| e.decode(bytes).0.into_owned())
}

/// The label a runner's charset stands for: trimmed and in lower case.
pub open spec fn charset_label(charset: Seq<char>) -> Seq<char> {
    lower_of(trim_seq(charset))
}

/// The text of output in a charset: the encoding its label names; `latin-1`
/// and `latin1` name ISO-8859-1; anything else is read as UTF-8.
pub open spec fn decoded_output(charset: Seq<char>, bytes: Seq<u8>) -> Seq<char> {
    let label = charset_label(charset);
    match decoded_as(label, bytes) {
        Some(t) => t,
        None => if (label == "latin-1"@ || label == "latin1"@) && decoded_as("iso-8859-1"@, bytes) is Some {
            decoded_as("iso-8859-1"@, bytes)->0
        } else {
            decoded_as("utf-8"@, bytes)->0
        },
    }
}

impl CliRunner {
    /// Decode what a run wrote, in the runner's charset.
    pub fn decode_output(&self, bytes: &[u8]) -> (r: String)
        ensures
            r@ == decoded_output(self.charset@, bytes@),
    {
        let t = trim(self.charset.as_str());
        let label = to_lower(t.as_str());
        match decode_as(label.as_str(), bytes) {
            Some(text) => text,
            None => {
                proof {
                    reveal_strlit("latin-1");
                    reveal_strlit("latin1");
                }
                if str_eq(label.as_str(), "latin-1") || str_eq(label.as_str(), "latin1") {
                    match decode_as("iso-8859-1", bytes) {
                        Some(text) => {
                            return text;
                        },
                        None => {},
                    }
                }
                proof {
                    reveal_strlit("utf-8");
                }
                match decode_as("utf-8", bytes) {
                    Some(text) => text,
                    None => String::new(),
                }
            },
        }
    }
}

} // verus!
