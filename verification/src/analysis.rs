//! Waiting for `rls` to write its analysis data: what its progress messages mean, and what the
//! wait comes to.

use crate::text::str_eq;
use vstd::prelude::*;

verus! {

/// Where `line` is JSON: the string under `method_key` (where it is a string), whether the value
/// under `params_key` is an object, and in that object the string under `title_key`, the boolean
/// under `done_key` and the string under `message_key` (each where it has that type).
pub uninterp spec fn json_fields(
    line: Seq<char>,
    method_key: Seq<char>,
    params_key: Seq<char>,
    title_key: Seq<char>,
    done_key: Seq<char>,
    message_key: Seq<char>,
) -> Option<(Option<Seq<char>>, bool, Option<Seq<char>>, Option<bool>, Option<Seq<char>>)>;

/// `serde_json::from_str::<Value>(line)`, then the fields looked up in it with `get`, `as_str`,
/// `as_object` and `as_bool`.
#[verifier::external_body]
fn line_fields(line: &str, method_key: &str, params_key: &str, title_key: &str, done_key: &str, message_key: &str) -> (r: Option<(Option<String>, bool, Option<String>, Option<bool>, Option<String>)>)
    ensures
        r.deep_view() == json_fields(line@, method_key@, params_key@, title_key@, done_key@, message_key@),
{
    let value = serde_json::from_str::<serde_json::Value>(line).ok()?;
    let method = value.get(method_key).and_then(|m| m.as_str()).map(String::from);
    let params = value.get(params_key).and_then(|p| p.as_object());
    let field = |k: &str| params.and_then(|p| p.get(k));
    let title = field(title_key).and_then(|t| t.as_str()).map(String::from);
    let done = field(done_key).and_then(|d| d.as_bool());
    let message = field(message_key).and_then(|m| m.as_str()).map(String::from);
    Some((method, params.is_some(), title, done, message))
}

/// The progress fields of a line of `rls` output: its `method`, whether `params` is an object,
/// and the `title`, `done` and `message` of the `params`.
pub open spec fn rls_line_fields(line: Seq<char>) -> Option<
    (Option<Seq<char>>, bool, Option<Seq<char>>, Option<bool>, Option<Seq<char>>),
> {
    json_fields(line, "method"@, "params"@, "title"@, "done"@, "message"@)
}

/// What a line of `rls` output says.
#[derive(Debug, Clone, PartialEq, Eq)]
pub enum RlsLine {
    /// The build is done.
    BuildDone,
    /// The build goes on, with this message.
    Building(String),
    /// Nothing about the build.
    Other,
}

/// What the progress fields of a line say: a `window/progress` notification titled `Building`
/// is done where `done` is true, and otherwise reports its message where it has one.
pub open spec fn line_meaning(
    fields: Option<(Option<Seq<char>>, bool, Option<Seq<char>>, Option<bool>, Option<Seq<char>>)>,
) -> Option<Option<Seq<char>>> {
    match fields {
        Some((Some(method), true, Some(title), done, message)) => if method == "window/progress"@ && title
            == "Building"@ {
            if done == Some(true) {
                Some(None)
            } else {
                match message {
                    Some(m) => Some(Some(m)),
                    None => None,
                }
            }
        } else {
            None
        },
        _ => None,
    }
}

/// Read a line of `rls` output.
pub fn rls_line(line: &str) -> (r: RlsLine)
    ensures
        match line_meaning(rls_line_fields(line@)) {
            Some(None) => r == RlsLine::BuildDone,
            Some(Some(m)) => r matches RlsLine::Building(s) && s@ == m,
            None => r == RlsLine::Other,
        },
{
    match line_fields(line, "method", "params", "title", "done", "message") {
        Some((Some(method), true, Some(title), done, message)) => {
            if str_eq(method.as_str(), "window/progress") && str_eq(title.as_str(), "Building") {
                match done {
                    Some(true) => RlsLine::BuildDone,
                    _ => match message {
                        Some(m) => RlsLine::Building(m),
                        None => RlsLine::Other,
                    },
                }
            } else {
                RlsLine::Other
            }
        },
        _ => RlsLine::Other,
    }
}

/// How the watch of `rls` output stands.
#[derive(Debug, Clone, Copy, PartialEq, Eq, Structural)]
pub enum Progress {
    Started,
    Done,
    Failure,
}

/// What the watcher of `rls` output reports for a line (or a failure to read one), given
/// whether it has reported the start yet: the start, before anything else; then the end, where
/// the build is done. The watch stops after an end or a failure.
pub fn line_progress(started: bool, line: Option<&str>) -> (r: (Vec<Progress>, bool))
    ensures
        line is None ==> r.0@ == seq![Progress::Failure] && r.1,
        line matches Some(l) ==> {
            let done = line_meaning(rls_line_fields(l@)) == Some(None::<Seq<char>>);
            let first: Seq<Progress> = if started {
                Seq::empty()
            } else {
                seq![Progress::Started]
            };
            &&& r.0@ == if done {
                first.push(Progress::Done)
            } else {
                first
            }
            &&& r.1 == done
        },
{
    let mut out: Vec<Progress> = Vec::new();
    let l = match line {
        None => {
            out.push(Progress::Failure);
            proof {
                assert(out@ =~= seq![Progress::Failure]);
            }
            return (out, true);
        },
        Some(l) => l,
    };
    if !started {
        out.push(Progress::Started);
    }
    let done = match rls_line(l) {
        RlsLine::BuildDone => true,
        _ => false,
    };
    if done {
        out.push(Progress::Done);
    }
    proof {
        if started {
            assert(out@ =~= if done { Seq::<Progress>::empty().push(Progress::Done) } else { Seq::<Progress>::empty() });
        } else {
            assert(out@ =~= if done { seq![Progress::Started].push(Progress::Done) } else { seq![Progress::Started] });
        }
    }
    (out, done)
}

/// Why the analysis data could not be made.
#[derive(Debug, Clone, Copy, PartialEq, Eq, Structural)]
pub enum AnalysisError {
    /// `cargo check` failed.
    CargoCheckFailed,
    /// `rls` did not start, or stopped before its build was done.
    RlsFailed,
}

/// What waiting for `rls` comes to, from the first report (if one came in time) and the next:
/// success only where `rls` started and then finished its build.
pub fn analysis_outcome(first: Option<Progress>, next: Option<Progress>) -> (r: Result<(), AnalysisError>)
    ensures
        r is Ok <==> (first == Some(Progress::Started) && next == Some(Progress::Done)),
        r is Err ==> r == Err::<(), AnalysisError>(AnalysisError::RlsFailed),
{
    match (first, next) {
        (Some(Progress::Started), Some(Progress::Done)) => Ok(()),
        _ => Err(AnalysisError::RlsFailed),
    }
}

} // verus!
