//! How long commands run, and what they print.
use vstd::prelude::*;

use crate::bytes;
use crate::error::Error;
use crate::text;

verus! {

// ---------------------------------------------------------------------------
// Running
// ---------------------------------------------------------------------------
/// What is to be done with a command that was started.
#[derive(Debug, Clone, Copy, PartialEq, Eq, Structural)]
pub enum RunStep {
    /// It has ended, and everything that it wrote was read.
    Finish,
    /// It took too long: it is ended, with all that it started.
    GiveUp,
    /// It is looked at again in a moment.
    Wait,
}

/// What is to be done with a command after `elapsed` of `deadline` nanoseconds.
/// One that has ended is still waited for while something that it started holds
/// one of its streams open.
pub fn run_step(
    ended: bool,
    stdout_closed: bool,
    stderr_closed: bool,
    elapsed: u128,
    deadline: u128,
) -> (result: RunStep)
    ensures
        result == (if ended && stdout_closed && stderr_closed {
            RunStep::Finish
        } else if elapsed >= deadline {
            RunStep::GiveUp
        } else {
            RunStep::Wait
        }),
{
    if ended && stdout_closed && stderr_closed {
        RunStep::Finish
    } else if elapsed >= deadline {
        RunStep::GiveUp
    } else {
        RunStep::Wait
    }
}

/// What is said of a command that took too long.
pub fn deadline_error(operation: &str, deadline: &str, command: &str) -> (result: Error)
    ensures
        result.head() == result@,
        result@ == operation@ + " exceeded its "@ + deadline@
            + " deadline; process group was terminated and reaped; command: "@ + command@,
{
    Error::new(
        operation.to_owned().concat(" exceeded its ").concat(deadline).concat(
            " deadline; process group was terminated and reaped; command: ",
        ).concat(command),
    )
}

// ---------------------------------------------------------------------------
// Capturing
// ---------------------------------------------------------------------------
/// The beginning of a stream, up to a limit.
#[derive(Debug, PartialEq, Eq)]
pub struct Capture {
    retained: Vec<u8>,
    maximum_bytes: usize,
    truncated: bool,
}

/// What a [`Capture`] holds.
#[verifier::ext_equal]
pub struct CaptureView {
    pub retained: Seq<u8>,
    pub maximum_bytes: nat,
    pub truncated: bool,
}

impl View for Capture {
    type V = CaptureView;

    closed spec fn view(&self) -> CaptureView {
        CaptureView {
            retained: self.retained@,
            maximum_bytes: self.maximum_bytes as nat,
            truncated: self.truncated,
        }
    }
}

/// A capture of nothing yet.
pub open spec fn nothing_captured(maximum_bytes: nat) -> CaptureView {
    CaptureView { retained: seq![], maximum_bytes, truncated: false }
}

/// `capture` with a chunk more.
pub open spec fn with_chunk(capture: CaptureView, chunk: Seq<u8>) -> CaptureView {
    let room = if capture.retained.len() < capture.maximum_bytes {
        capture.maximum_bytes - capture.retained.len()
    } else {
        0
    };
    CaptureView {
        retained: capture.retained + (if chunk.len() <= room {
            chunk
        } else {
            chunk.take(room)
        }),
        maximum_bytes: capture.maximum_bytes,
        truncated: capture.truncated || chunk.len() > room,
    }
}

/// What is captured of a stream that comes in `chunks`.
pub open spec fn captured(maximum_bytes: nat, chunks: Seq<Seq<u8>>) -> CaptureView
    decreases chunks.len(),
{
    if chunks.len() == 0 {
        nothing_captured(maximum_bytes)
    } else {
        with_chunk(captured(maximum_bytes, chunks.drop_last()), chunks.last())
    }
}

/// The stream that comes in `chunks`.
pub open spec fn stream(chunks: Seq<Seq<u8>>) -> Seq<u8>
    decreases chunks.len(),
{
    if chunks.len() == 0 {
        seq![]
    } else {
        stream(chunks.drop_last()) + chunks.last()
    }
}

impl Capture {
    /// A capture of at most `maximum_bytes`.
    pub fn new(maximum_bytes: usize) -> (result: Self)
        ensures
            result@ == nothing_captured(maximum_bytes as nat),
    {
        Capture { retained: Vec::new(), maximum_bytes, truncated: false }
    }

    /// Takes in a chunk.
    pub fn push(&mut self, chunk: &[u8])
        ensures
            final(self)@ == with_chunk(old(self)@, chunk@),
    {
        let size: usize = self.retained.len();
        let room: usize = if size < self.maximum_bytes {
            self.maximum_bytes - size
        } else {
            0
        };
        let count: usize = if chunk.len() <= room {
            chunk.len()
        } else {
            room
        };
        let ghost before = self.retained@;
        let mut i: usize = 0;
        while i < count
            invariant
                i <= count <= chunk@.len(),
                self.retained@ == before + chunk@.take(i as int),
                self.maximum_bytes == old(self).maximum_bytes,
                self.truncated == old(self).truncated,
            decreases count - i,
        {
            self.retained.push(chunk[i]);
            assert(before + chunk@.take(i + 1) =~= (before + chunk@.take(i as int)).push(
                chunk@[i as int],
            ));
            i += 1;
        }
        assert(chunk@.take(chunk@.len() as int) =~= chunk@);
        if chunk.len() > room {
            self.truncated = true;
        }
    }

    /// What was kept, and whether anything was not.
    pub fn finish(self) -> (result: (Vec<u8>, bool))
        ensures
            result.0@ == self@.retained,
            result.1 == self@.truncated,
    {
        (self.retained, self.truncated)
    }
}

/// However a stream is cut into chunks, what is captured is its beginning, all
/// of it where it fits, and the capture says whether anything was dropped.
pub proof fn law_capture_keeps_the_beginning(maximum_bytes: nat, chunks: Seq<Seq<u8>>)
    ensures
        captured(maximum_bytes, chunks).retained == (if stream(chunks).len() <= maximum_bytes {
            stream(chunks)
        } else {
            stream(chunks).take(maximum_bytes as int)
        }),
        captured(maximum_bytes, chunks).truncated == (stream(chunks).len() > maximum_bytes),
        captured(maximum_bytes, chunks).maximum_bytes == maximum_bytes,
    decreases chunks.len(),
{
    if chunks.len() > 0 {
        law_capture_keeps_the_beginning(maximum_bytes, chunks.drop_last());
        let before = stream(chunks.drop_last());
        let all = stream(chunks);
        if before.len() > maximum_bytes {
            assert(all.take(maximum_bytes as int) =~= before.take(maximum_bytes as int));
            assert(captured(maximum_bytes, chunks).retained =~= all.take(maximum_bytes as int));
        } else if all.len() > maximum_bytes {
            assert(captured(maximum_bytes, chunks).retained =~= all.take(maximum_bytes as int));
        }
    }
}

// ---------------------------------------------------------------------------
// Output
// ---------------------------------------------------------------------------
/// What a command that has ended printed.
#[derive(Debug, PartialEq, Eq)]
pub struct BoundedOutput {
    /// It ended well.
    pub succeeded: bool,
    /// How it ended, in words.
    pub status: String,
    pub stdout: Vec<u8>,
    pub stderr: Vec<u8>,
    pub stdout_truncated: bool,
    pub stderr_truncated: bool,
}

/// What is told of two streams.
pub open spec fn details_text(stderr: Seq<char>, stdout: Seq<char>, truncated: bool) -> Seq<char> {
    let first = text::trimmed(text::sanitized(stderr, true));
    let second = text::trimmed(text::sanitized(stdout, true));
    let told = if first.len() == 0 {
        second
    } else if second.len() == 0 {
        first
    } else {
        first + "\n"@ + second
    };
    if !truncated {
        told
    } else if told.len() == 0 {
        "[command output truncated]"@
    } else {
        told + "\n"@ + "[command output truncated]"@
    }
}

/// What is told of two streams: what was printed about errors, then the rest,
/// and whether it is all.
pub fn stream_details(stderr: &str, stdout: &str, truncated: bool) -> (result: String)
    ensures
        result@ == details_text(stderr@, stdout@, truncated),
{
    let shown_first: String = text::sanitize_multiline_text(stderr);
    let shown_second: String = text::sanitize_multiline_text(stdout);
    let first: &str = text::trim(shown_first.as_str());
    let second: &str = text::trim(shown_second.as_str());
    let told: String = if first.unicode_len() == 0 {
        second.to_owned()
    } else if second.unicode_len() == 0 {
        first.to_owned()
    } else {
        first.to_owned().concat("\n").concat(second)
    };
    if !truncated {
        told
    } else if told.as_str().unicode_len() == 0 {
        "[command output truncated]".to_owned()
    } else {
        told.concat("\n").concat("[command output truncated]")
    }
}

/// What is told of the output of a command.
pub fn output_details(output: &BoundedOutput) -> (result: String)
    ensures
        result@ == details_text(
            bytes::lossy_text(output.stderr@),
            bytes::lossy_text(output.stdout@),
            output.stderr_truncated || output.stdout_truncated,
        ),
{
    let stderr: String = bytes::decode_lossy(&output.stderr);
    let stdout: String = bytes::decode_lossy(&output.stdout);
    stream_details(
        stderr.as_str(),
        stdout.as_str(),
        output.stderr_truncated || output.stdout_truncated,
    )
}

} // verus!
