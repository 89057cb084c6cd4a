//! What is asked of `hyprctl`, and what its replies mean.
use vstd::prelude::*;

use crate::bytes;
use crate::error;
use crate::error::Error;
use crate::lines;
use crate::process;
use crate::process::{output_details, BoundedOutput};
use crate::text;

verus! {

/// The most that is read of a reply, in bytes.
pub const HYPRCTL_OUTPUT_LIMIT: usize = 1_048_576;

/// How long a query may take, in milliseconds.
pub const HYPRCTL_QUERY_TIMEOUT: u64 = 5_000;

/// How long a change may take, in milliseconds.
pub const HYPRCTL_APPLY_TIMEOUT: u64 = 10_000;

/// A command to be run.
#[derive(Debug, PartialEq, Eq)]
pub struct CommandRequest {
    pub program: String,
    pub arguments: Vec<String>,
    /// What it is for, in words.
    pub operation: String,
    /// How long it may take, in milliseconds.
    pub timeout_ms: u64,
    /// The most that is read of what it prints, in bytes.
    pub output_limit: usize,
}

/// What a [`CommandRequest`] holds.
#[verifier::ext_equal]
pub struct RequestView {
    pub program: Seq<char>,
    pub arguments: Seq<Seq<char>>,
    pub operation: Seq<char>,
    pub timeout_ms: u64,
    pub output_limit: usize,
}

impl View for CommandRequest {
    type V = RequestView;

    open spec fn view(&self) -> RequestView {
        RequestView {
            program: self.program@,
            arguments: text::texts(self.arguments@),
            operation: self.operation@,
            timeout_ms: self.timeout_ms,
            output_limit: self.output_limit,
        }
    }
}

/// Why a command did not run to its end.
#[derive(Debug, PartialEq, Eq)]
pub enum RunFailure {
    NotFound,
    Failed(Error),
}

/// The request that hands `batch` to the compositor.
pub open spec fn batch_request(batch: Seq<char>, operation: Seq<char>) -> RequestView {
    RequestView {
        program: "hyprctl"@,
        arguments: seq!["--batch"@, batch],
        operation,
        timeout_ms: HYPRCTL_APPLY_TIMEOUT,
        output_limit: HYPRCTL_OUTPUT_LIMIT,
    }
}

/// The requests of a client of the compositor.
#[derive(Debug, PartialEq, Eq)]
pub struct HyprctlClient;

impl HyprctlClient {
    /// Asks for every monitor.
    pub fn monitors_all(&self) -> (result: CommandRequest)
        ensures
            result@ == (RequestView {
                program: "hyprctl"@,
                arguments: seq!["-j"@, "monitors"@, "all"@],
                operation: "Hyprland monitor query"@,
                timeout_ms: HYPRCTL_QUERY_TIMEOUT,
                output_limit: HYPRCTL_OUTPUT_LIMIT,
            }),
    {
        let mut arguments: Vec<String> = Vec::new();
        arguments.push("-j".to_owned());
        arguments.push("monitors".to_owned());
        arguments.push("all".to_owned());
        assert(text::texts(arguments@) =~= seq!["-j"@, "monitors"@, "all"@]);
        CommandRequest {
            program: "hyprctl".to_owned(),
            arguments,
            operation: "Hyprland monitor query".to_owned(),
            timeout_ms: HYPRCTL_QUERY_TIMEOUT,
            output_limit: HYPRCTL_OUTPUT_LIMIT,
        }
    }

    /// Asks for `batch` to be applied.
    pub fn apply_monitor_batch(&self, batch: &str) -> (result: CommandRequest)
        ensures
            result@ == batch_request(batch@, "Hyprland monitor apply"@),
    {
        self.run_monitor_batch(batch, "Hyprland monitor apply")
    }

    /// Asks for `batch` to be applied on the way back.
    pub fn rollback_monitor_batch(&self, batch: &str) -> (result: CommandRequest)
        ensures
            result@ == batch_request(batch@, "Hyprland monitor rollback"@),
    {
        self.run_monitor_batch(batch, "Hyprland monitor rollback")
    }

    fn run_monitor_batch(&self, batch: &str, operation: &str) -> (result: CommandRequest)
        ensures
            result@ == batch_request(batch@, operation@),
    {
        let mut arguments: Vec<String> = Vec::new();
        arguments.push("--batch".to_owned());
        arguments.push(batch.to_owned());
        assert(text::texts(arguments@) =~= seq!["--batch"@, batch@]);
        CommandRequest {
            program: "hyprctl".to_owned(),
            arguments,
            operation: operation.to_owned(),
            timeout_ms: HYPRCTL_APPLY_TIMEOUT,
            output_limit: HYPRCTL_OUTPUT_LIMIT,
        }
    }
}

/// What is said where there is no `hyprctl`.
pub open spec fn not_found_text() -> Seq<char> {
    "hyprctl was not found in PATH; install Hyprland or run inside a Hyprland environment"@
}

/// The first `n` of `lines`, trimmed, without those that are empty or say that
/// all is well.
pub open spec fn unexpected(lines: Seq<Seq<char>>, n: int) -> Seq<Seq<char>>
    decreases n,
{
    if n <= 0 {
        seq![]
    } else {
        let before = unexpected(lines, n - 1);
        let line = text::trimmed(lines[n - 1]);
        if line.len() == 0 || line == "ok"@ {
            before
        } else {
            before.push(line)
        }
    }
}

/// The lines that are not expected of a batch that went well.
pub open spec fn complaints(stderr: Seq<char>, stdout: Seq<char>) -> Seq<Seq<char>> {
    let lines = lines::lines_of(text::sanitized(stderr, true)) + lines::lines_of(
        text::sanitized(stdout, true),
    );
    unexpected(lines, lines.len() as int)
}

/// Why a batch that ended well was refused all the same.
pub open spec fn complaint(stderr: Seq<char>, stdout: Seq<char>) -> Option<Seq<char>> {
    let said = complaints(stderr, stdout);
    if said.len() == 0 {
        None
    } else {
        Some(
            "failed to apply Hyprland monitor rules with `hyprctl --batch`: "@ + text::joined(
                said,
                "\n"@,
            ),
        )
    }
}

fn collect_unexpected(lines: &Vec<String>, said: Vec<String>) -> (result: Vec<String>)
    ensures
        text::texts(result@) == text::texts(said@) + unexpected(
            text::texts(lines@),
            lines@.len() as int,
        ),
{
    let ghost all = text::texts(lines@);
    let ghost first = text::texts(said@);
    let mut result: Vec<String> = said;
    assert(text::texts(result@) =~= first + unexpected(all, 0));
    let mut i: usize = 0;
    while i < lines.len()
        invariant
            i <= lines@.len(),
            all == text::texts(lines@),
            text::texts(result@) == first + unexpected(all, i as int),
        decreases lines@.len() - i,
    {
        assert(all[i as int] == lines@[i as int]@);
        let line: &str = text::trim(lines[i].as_str());
        if line.unicode_len() > 0 && !text::same(line, "ok") {
            let ghost before = text::texts(result@);
            result.push(line.to_owned());
            assert(text::texts(result@) =~= before.push(line@));
            assert(text::texts(result@) =~= first + unexpected(all, i + 1));
        }
        i += 1;
    }
    result
}

proof fn lemma_unexpected_joins(a: Seq<Seq<char>>, b: Seq<Seq<char>>, n: int)
    requires
        0 <= n <= b.len(),
    ensures
        unexpected(a + b, a.len() + n) == unexpected(a, a.len() as int) + unexpected(b, n),
    decreases n,
{
    if n > 0 {
        lemma_unexpected_joins(a, b, n - 1);
        assert((a + b)[a.len() + n - 1] == b[n - 1]);
        assert(unexpected(a + b, a.len() + n) =~= unexpected(a, a.len() as int) + unexpected(b, n));
    } else {
        lemma_unexpected_front(a, b, a.len() as int);
        assert(unexpected(a, a.len() as int) + seq![] =~= unexpected(a, a.len() as int));
    }
}

proof fn lemma_unexpected_front(a: Seq<Seq<char>>, b: Seq<Seq<char>>, n: int)
    requires
        0 <= n <= a.len(),
    ensures
        unexpected(a + b, n) == unexpected(a, n),
    decreases n,
{
    if n > 0 {
        lemma_unexpected_front(a, b, n - 1);
        assert((a + b)[n - 1] == a[n - 1]);
    }
}

/// Whether nothing but blank lines and lines that say `ok` stand in `value`, as
/// it is shown.
pub open spec fn all_is_well(value: Seq<char>) -> bool {
    forall|i: int|
        #![trigger lines::lines_of(text::sanitized(value, true))[i]]
        0 <= i < lines::lines_of(text::sanitized(value, true)).len() ==> {
            let line = text::trimmed(lines::lines_of(text::sanitized(value, true))[i]);
            line.len() == 0 || line == "ok"@
        }
}

proof fn lemma_nothing_unexpected(lines: Seq<Seq<char>>, n: int)
    requires
        0 <= n <= lines.len(),
    ensures
        unexpected(lines, n).len() == 0 <==> forall|i: int|
            #![trigger lines[i]]
            0 <= i < n ==> text::trimmed(lines[i]).len() == 0 || text::trimmed(lines[i]) == "ok"@,
    decreases n,
{
    if n > 0 {
        lemma_nothing_unexpected(lines, n - 1);
        let last = lines[n - 1];
    }
}

/// A batch that ended well is taken to have gone through exactly if `hyprctl`
/// wrote nothing but `ok` and blank lines, to either stream.
pub proof fn law_only_ok_is_accepted(stderr: Seq<char>, stdout: Seq<char>)
    ensures
        complaint(stderr, stdout) is None <==> all_is_well(stderr) && all_is_well(stdout),
{
    let a = lines::lines_of(text::sanitized(stderr, true));
    let b = lines::lines_of(text::sanitized(stdout, true));
    lemma_unexpected_joins(a, b, b.len() as int);
    assert((a + b).len() == a.len() + b.len());
    lemma_nothing_unexpected(a, a.len() as int);
    lemma_nothing_unexpected(b, b.len() as int);
}

/// Whether a batch that ended well did what it should: `hyprctl` says `ok` for
/// every command and nothing else.
pub fn check_batch_output(stderr: &str, stdout: &str) -> (result: Result<(), Error>)
    ensures
        error::refused_as(result, complaint(stderr@, stdout@)),
{
    let first: Vec<String> = lines::lines(text::sanitize_multiline_text(stderr).as_str());
    let second: Vec<String> = lines::lines(text::sanitize_multiline_text(stdout).as_str());
    let ghost a = text::texts(first@);
    let ghost b = text::texts(second@);
    let said: Vec<String> = collect_unexpected(&first, Vec::new());
    let said: Vec<String> = collect_unexpected(&second, said);
    proof {
        lemma_unexpected_joins(a, b, b.len() as int);
        assert(text::texts(said@) =~= complaints(stderr@, stdout@));
    }
    if said.len() == 0 {
        Ok(())
    } else {
        Err(
            Error::new(
                "failed to apply Hyprland monitor rules with `hyprctl --batch`: ".to_owned().concat(
                    text::join(&said, "\n").as_str(),
                ),
            ),
        )
    }
}

/// Why a batch that ended badly was refused.
pub open spec fn batch_failure(details: Seq<char>) -> Seq<char> {
    "failed to apply Hyprland monitor rules with `hyprctl --batch`: "@ + (if details.len() == 0 {
        "hyprctl exited with a failure status"@
    } else {
        details
    })
}

/// What is told of an output.
pub open spec fn told(output: BoundedOutput) -> Seq<char> {
    process::details_text(
        bytes::lossy_text(output.stderr@),
        bytes::lossy_text(output.stdout@),
        output.stderr_truncated || output.stdout_truncated,
    )
}

/// Why the batch of `operation` was refused, going by its reply.
pub open spec fn batch_error(operation: Seq<char>, reply: Result<BoundedOutput, RunFailure>) -> Option<
    Seq<char>,
> {
    match reply {
        Err(RunFailure::NotFound) => Some(not_found_text()),
        Err(RunFailure::Failed(error)) => Some(error::within("failed to run "@ + operation, error@)),
        Ok(output) => if !output.succeeded {
            Some(batch_failure(told(output)))
        } else {
            complaint(bytes::lossy_text(output.stderr@), bytes::lossy_text(output.stdout@))
        },
    }
}

/// The broadest part of why the batch of `operation` was refused.
pub open spec fn batch_head(operation: Seq<char>, reply: Result<BoundedOutput, RunFailure>) -> Seq<
    char,
> {
    match reply {
        Err(RunFailure::Failed(_)) => "failed to run "@ + operation,
        _ => batch_error(operation, reply)->0,
    }
}

/// What the reply to the batch of `operation` means.
pub fn batch_reply(operation: &str, reply: Result<BoundedOutput, RunFailure>) -> (result: Result<
    (),
    Error,
>)
    ensures
        error::refused_under(result, batch_head(operation@, reply), batch_error(operation@, reply)),
{
    match reply {
        Err(RunFailure::NotFound) => Err(
            Error::new(
                "hyprctl was not found in PATH; install Hyprland or run inside a Hyprland environment".to_owned(),
            ),
        ),
        Err(RunFailure::Failed(error)) => Err(
            error.context("failed to run ".to_owned().concat(operation).as_str()),
        ),
        Ok(output) => if !output.succeeded {
            let details: String = output_details(&output);
            let said: &str = if details.as_str().unicode_len() == 0 {
                "hyprctl exited with a failure status"
            } else {
                details.as_str()
            };
            Err(
                Error::new(
                    "failed to apply Hyprland monitor rules with `hyprctl --batch`: ".to_owned().concat(
                        said,
                    ),
                ),
            )
        } else {
            let stderr: String = bytes::decode_lossy(&output.stderr);
            let stdout: String = bytes::decode_lossy(&output.stdout);
            check_batch_output(stderr.as_str(), stdout.as_str())
        },
    }
}

/// Why a query that ended badly was refused.
pub open spec fn query_failure(details: Seq<char>, status: Seq<char>) -> Seq<char> {
    "failed to query Hyprland monitors with `hyprctl -j monitors all`: "@ + (if details.len() == 0 {
        "hyprctl exited with "@ + status
    } else {
        details
    })
}

/// Why a query was refused, going by its reply.
pub open spec fn query_error(reply: Result<BoundedOutput, RunFailure>) -> Option<Seq<char>> {
    match reply {
        Err(RunFailure::NotFound) => Some(not_found_text()),
        Err(RunFailure::Failed(error)) => Some(
            error::within("failed to run hyprctl monitor query"@, error@),
        ),
        Ok(output) => if !output.succeeded {
            Some(query_failure(told(output), output.status@))
        } else {
            None
        },
    }
}

/// The broadest part of why a query was refused.
pub open spec fn query_head(reply: Result<BoundedOutput, RunFailure>) -> Seq<char> {
    match reply {
        Err(RunFailure::Failed(_)) => "failed to run hyprctl monitor query"@,
        _ => query_error(reply)->0,
    }
}

/// What the reply to a query means: the bytes that describe the monitors.
pub fn query_reply(reply: Result<BoundedOutput, RunFailure>) -> (result: Result<Vec<u8>, Error>)
    ensures
        error::refused_under(result, query_head(reply), query_error(reply)),
        result matches Ok(described) ==> (reply matches Ok(output) && described@ == output.stdout@),
{
    match reply {
        Err(RunFailure::NotFound) => Err(
            Error::new(
                "hyprctl was not found in PATH; install Hyprland or run inside a Hyprland environment".to_owned(),
            ),
        ),
        Err(RunFailure::Failed(error)) => Err(
            error.context("failed to run hyprctl monitor query"),
        ),
        Ok(output) => if !output.succeeded {
            let details: String = output_details(&output);
            let said: String = if details.as_str().unicode_len() == 0 {
                "hyprctl exited with ".to_owned().concat(output.status.as_str())
            } else {
                details
            };
            Err(
                Error::new(
                    "failed to query Hyprland monitors with `hyprctl -j monitors all`: ".to_owned().concat(
                        said.as_str(),
                    ),
                ),
            )
        } else {
            Ok(output.stdout)
        },
    }
}

} // verus!
