//! Events of the compositor and the sockets on which they come.
use vstd::prelude::*;

use crate::bytes;
use crate::error;
use crate::error::Error;
use crate::lines;
use crate::number;
use crate::path;
use crate::sort;
use crate::sort::Ranked;
use crate::text;

verus! {

/// The longest event, in bytes.
pub const MAX_SOCKET_FRAME_BYTES: usize = 65_536;

// ---------------------------------------------------------------------------
// Events
// ---------------------------------------------------------------------------
/// A monitor came or went.
#[derive(Debug, Clone, Copy, PartialEq, Eq, Structural)]
pub enum MonitorSocketEvent {
    Added,
    Removed,
    AddedV2,
    RemovedV2,
}

impl MonitorSocketEvent {
    /// The name that the compositor gives the event.
    pub open spec fn name(self) -> Seq<char> {
        match self {
            MonitorSocketEvent::Added => "monitoradded"@,
            MonitorSocketEvent::Removed => "monitorremoved"@,
            MonitorSocketEvent::AddedV2 => "monitoraddedv2"@,
            MonitorSocketEvent::RemovedV2 => "monitorremovedv2"@,
        }
    }

    /// The name that the compositor gives the event.
    pub fn as_str(self) -> (result: &'static str)
        ensures
            result@ == self.name(),
    {
        match self {
            MonitorSocketEvent::Added => "monitoradded",
            MonitorSocketEvent::Removed => "monitorremoved",
            MonitorSocketEvent::AddedV2 => "monitoraddedv2",
            MonitorSocketEvent::RemovedV2 => "monitorremovedv2",
        }
    }
}

/// `line` without the line ends behind it.
pub open spec fn without_line_ends(line: Seq<char>) -> Seq<char>
    decreases line.len(),
{
    if line.len() > 0 && (line.last() == '\r' || line.last() == '\n') {
        without_line_ends(line.drop_last())
    } else {
        line
    }
}

/// `line` split around the first `>>` in it.
pub open spec fn split_at_mark(line: Seq<char>) -> Option<(Seq<char>, Seq<char>)>
    decreases line.len(),
{
    if line.len() < 2 {
        None
    } else if line[0] == '>' && line[1] == '>' {
        Some((seq![], line.skip(2)))
    } else {
        match split_at_mark(line.drop_first()) {
            Some((name, payload)) => Some((seq![line[0]] + name, payload)),
            None => None,
        }
    }
}

/// `payload` begins with a number and a name that is not blank.
pub open spec fn numbered_payload(payload: Seq<char>) -> bool {
    let fields = lines::parts(payload, ',');
    &&& number::bounded_integer(text::trimmed(fields[0]), i64::MIN as int, i64::MAX as int) is Some
    &&& fields.len() > 1
    &&& text::trimmed(fields[1]).len() > 0
}

/// The event with the name `name` and the payload `payload`.
pub open spec fn event_named(name: Seq<char>, payload: Seq<char>) -> Option<MonitorSocketEvent> {
    if text::trimmed(payload).len() == 0 {
        None
    } else if name == "monitoradded"@ {
        Some(MonitorSocketEvent::Added)
    } else if name == "monitorremoved"@ {
        Some(MonitorSocketEvent::Removed)
    } else if name == "monitoraddedv2"@ && numbered_payload(payload) {
        Some(MonitorSocketEvent::AddedV2)
    } else if name == "monitorremovedv2"@ && numbered_payload(payload) {
        Some(MonitorSocketEvent::RemovedV2)
    } else {
        None
    }
}

/// The monitor event that `line` tells of.
pub open spec fn event_of(line: Seq<char>) -> Option<MonitorSocketEvent> {
    match split_at_mark(without_line_ends(line)) {
        None => None,
        Some((name, payload)) => event_named(name, payload),
    }
}

fn strip_line_ends(line: &str) -> (result: &str)
    ensures
        result@ == without_line_ends(line@),
{
    let chars: Vec<char> = text::chars_of(line);
    let mut end: usize = chars.len();
    assert(line@.take(end as int) =~= line@);
    while end > 0 && (chars[end - 1] == '\r' || chars[end - 1] == '\n')
        invariant
            end <= chars@.len(),
            chars@ == line@,
            without_line_ends(line@.take(end as int)) == without_line_ends(line@),
        decreases end,
    {
        assert(line@.take(end as int).drop_last() =~= line@.take(end - 1));
        assert(line@.take(end as int).last() == line@[end - 1]);
        end -= 1;
    }
    assert(end > 0 ==> line@.take(end as int).last() == line@[end - 1]);
    assert(line@.subrange(0, end as int) == line@.take(end as int));
    line.substring_char(0, end)
}

proof fn lemma_mark_at(line: Seq<char>, i: int)
    requires
        0 <= i <= line.len() - 2,
        line[i] == '>' && line[i + 1] == '>',
        forall|j: int| 0 <= j < i ==> !(#[trigger] line[j] == '>' && line[j + 1] == '>'),
    ensures
        split_at_mark(line) == Some((line.take(i), line.skip(i + 2))),
    decreases i,
{
    if i == 0 {
        assert(line.take(0) =~= seq![]);
    } else {
        assert(!(line[0] == '>' && line[1] == '>'));
        let rest = line.drop_first();
        assert forall|j: int| 0 <= j < i - 1 implies !(#[trigger] rest[j] == '>' && rest[j + 1]
            == '>') by {
            assert(rest[j] == line[j + 1]);
            assert(rest[j + 1] == line[j + 1 + 1]);
        }
        lemma_mark_at(rest, i - 1);
        assert(seq![line[0]] + rest.take(i - 1) =~= line.take(i));
        assert(rest.skip(i + 1) =~= line.skip(i + 2));
    }
}

proof fn lemma_no_mark(line: Seq<char>)
    requires
        forall|j: int| 0 <= j < line.len() - 1 ==> !(#[trigger] line[j] == '>' && line[j + 1] == '>'),
    ensures
        split_at_mark(line) is None,
    decreases line.len(),
{
    if line.len() >= 2 {
        assert(!(line[0] == '>' && line[1] == '>'));
        let rest = line.drop_first();
        assert forall|j: int| 0 <= j < rest.len() - 1 implies !(#[trigger] rest[j] == '>' && rest[j
            + 1] == '>') by {
            assert(rest[j] == line[j + 1]);
            assert(rest[j + 1] == line[j + 1 + 1]);
        }
        lemma_no_mark(rest);
    }
}

fn split_mark<'a>(line: &'a str) -> (result: Option<(&'a str, &'a str)>)
    ensures
        match (split_at_mark(line@), result) {
            (Some((name, payload)), Some((left, right))) => left@ == name && right@ == payload,
            (None, None) => true,
            _ => false,
        },
{
    let chars: Vec<char> = text::chars_of(line);
    let mut i: usize = 0;
    while i < chars.len() && chars.len() - i >= 2
        invariant
            i <= chars@.len(),
            chars@ == line@,
            forall|j: int|
                0 <= j < i && j < line@.len() - 1 ==> !(#[trigger] line@[j] == '>' && line@[j + 1]
                    == '>'),
        decreases chars@.len() - i,
    {
        if chars[i] == '>' && chars[i + 1] == '>' {
            proof {
                lemma_mark_at(line@, i as int);
                assert(line@.take(i as int) == line@.subrange(0, i as int));
                assert(line@.skip(i + 2) == line@.subrange(i + 2, line@.len() as int));
            }
            return Some((line.substring_char(0, i), line.substring_char(i + 2, chars.len())));
        }
        i += 1;
    }
    proof {
        lemma_no_mark(line@);
    }
    None
}

fn valid_v2_monitor_payload(payload: &str) -> (result: bool)
    ensures
        result == numbered_payload(payload@),
{
    let fields: Vec<String> = lines::split(payload, ',');
    let ghost views = text::texts(fields@);
    assert(views[0] == fields@[0]@);
    match number::parse_integer(text::trim(fields[0].as_str()), i64::MIN, i64::MAX) {
        None => {
            return false;
        },
        Some(_) => {},
    }
    if fields.len() < 2 {
        return false;
    }
    assert(views[1] == fields@[1]@);
    text::trim(fields[1].as_str()).unicode_len() > 0
}

/// The monitor event that `line` tells of.
pub fn parse_monitor_event(line: &str) -> (result: Option<MonitorSocketEvent>)
    ensures
        result == event_of(line@),
{
    match split_mark(strip_line_ends(line)) {
        None => None,
        Some((name, payload)) => {
            if text::trim(payload).unicode_len() == 0 {
                None
            } else if text::same(name, "monitoradded") {
                Some(MonitorSocketEvent::Added)
            } else if text::same(name, "monitorremoved") {
                Some(MonitorSocketEvent::Removed)
            } else if text::same(name, "monitoraddedv2") && valid_v2_monitor_payload(payload) {
                Some(MonitorSocketEvent::AddedV2)
            } else if text::same(name, "monitorremovedv2") && valid_v2_monitor_payload(payload) {
                Some(MonitorSocketEvent::RemovedV2)
            } else {
                None
            }
        },
    }
}

// ---------------------------------------------------------------------------
// Frames
// ---------------------------------------------------------------------------
/// The position of the first line feed in `buffer`.
pub open spec fn first_line_feed(buffer: Seq<u8>) -> Option<int>
    decreases buffer.len(),
{
    if buffer.len() == 0 {
        None
    } else if buffer[0] == 0x0a {
        Some(0)
    } else {
        match first_line_feed(buffer.drop_first()) {
            Some(i) => Some(i + 1),
            None => None,
        }
    }
}

/// [`first_line_feed`] is the least position that holds a line feed.
pub proof fn lemma_first_line_feed(buffer: Seq<u8>)
    ensures
        match first_line_feed(buffer) {
            Some(i) => 0 <= i < buffer.len() && buffer[i] == 0x0a && forall|j: int|
                0 <= j < i ==> #[trigger] buffer[j] != 0x0a,
            None => forall|j: int| 0 <= j < buffer.len() ==> #[trigger] buffer[j] != 0x0a,
        },
    decreases buffer.len(),
{
    if buffer.len() > 0 && buffer[0] != 0x0a {
        let rest = buffer.drop_first();
        lemma_first_line_feed(rest);
        assert forall|j: int| 1 <= j < buffer.len() implies #[trigger] buffer[j] == rest[j - 1] by {}
        assert forall|j: int|
            0 <= j < buffer.len() && (first_line_feed(rest) matches Some(i) ==> j < i
                + 1) implies #[trigger] buffer[j] != 0x0a by {
            if j > 0 {
                assert(rest[j - 1] != 0x0a);
            }
        }
    }
}

/// What is said of an event that is too long.
pub open spec fn frame_too_long() -> Seq<char> {
    "Hyprland socket2 frame exceeded 65536 bytes"@
}

/// What is left of `buffer`, and the frame that was in front of it.
pub open spec fn frame_taken(buffer: Seq<u8>) -> (Seq<u8>, Result<Option<Seq<char>>, Seq<char>>) {
    match first_line_feed(buffer) {
        None => (buffer, Ok(None)),
        Some(i) => {
            let rest = buffer.skip(i + 1);
            let frame = buffer.take(i + 1);
            if i >= MAX_SOCKET_FRAME_BYTES {
                (rest, Err(frame_too_long()))
            } else if vstd::utf8::valid_utf8(frame) {
                (rest, Ok(Some(vstd::utf8::decode_utf8(frame))))
            } else {
                (rest, Err("Hyprland socket2 frame was not valid UTF-8"@))
            }
        },
    }
}

/// What is left of `buffer`, and the first monitor event in it. Other frames
/// are passed over; one that cannot be read ends the search.
pub open spec fn event_taken(buffer: Seq<u8>) -> (Seq<u8>, Result<
    Option<MonitorSocketEvent>,
    Seq<char>,
>)
    decreases buffer.len(),
    when true
    via event_taken_ends
{
    match frame_taken(buffer) {
        (rest, Err(reason)) => (rest, Err(reason)),
        (rest, Ok(None)) => (rest, Ok(None)),
        (rest, Ok(Some(frame))) => match event_of(frame) {
            Some(event) => (rest, Ok(Some(event))),
            None => event_taken(rest),
        },
    }
}

#[via_fn]
proof fn event_taken_ends(buffer: Seq<u8>) {
    lemma_first_line_feed(buffer);
}

/// What has been read of the event stream and not been taken.
#[derive(Debug, PartialEq, Eq)]
pub struct FrameBuffer {
    buffer: Vec<u8>,
}

impl View for FrameBuffer {
    type V = Seq<u8>;

    closed spec fn view(&self) -> Seq<u8> {
        self.buffer@
    }
}

/// `buffer` with a chunk more: one that grows too long without an end is
/// dropped.
pub open spec fn chunk_added(buffer: Seq<u8>, chunk: Seq<u8>) -> (Seq<u8>, Option<Seq<char>>) {
    let longer = buffer + chunk;
    if longer.len() > MAX_SOCKET_FRAME_BYTES && first_line_feed(longer) is None {
        (seq![], Some(frame_too_long()))
    } else {
        (longer, None)
    }
}

impl FrameBuffer {
    /// Nothing read yet.
    pub fn new() -> (result: Self)
        ensures
            result@ == Seq::<u8>::empty(),
    {
        FrameBuffer { buffer: Vec::new() }
    }

    fn line_feed(&self) -> (result: Option<usize>)
        ensures
            match (first_line_feed(self@), result) {
                (Some(i), Some(found)) => i == found,
                (None, None) => true,
                _ => false,
            },
    {
        proof {
            lemma_first_line_feed(self@);
        }
        let mut i: usize = 0;
        while i < self.buffer.len()
            invariant
                i <= self.buffer@.len(),
                forall|j: int| 0 <= j < i ==> #[trigger] self@[j] != 0x0a,
            decreases self.buffer@.len() - i,
        {
            if self.buffer[i] == 0x0a {
                proof {
                    lemma_first_line_feed(self@);
                }
                return Some(i);
            }
            i += 1;
        }
        proof {
            lemma_first_line_feed(self@);
        }
        None
    }

    /// Takes in what was read, where nothing means that the other side is gone.
    pub fn receive(&mut self, chunk: &[u8]) -> (result: Result<(), Error>)
        ensures
            chunk@.len() == 0 ==> final(self)@ == old(self)@ && error::refused_as(
                result,
                Some("Hyprland socket2 closed"@),
            ),
            chunk@.len() > 0 ==> final(self)@ == chunk_added(old(self)@, chunk@).0
                && error::refused_as(result, chunk_added(old(self)@, chunk@).1),
    {
        if chunk.len() == 0 {
            return Err(Error::new("Hyprland socket2 closed".to_owned()));
        }
        self.push(chunk)
    }

    /// Takes in what was read.
    pub fn push(&mut self, chunk: &[u8]) -> (result: Result<(), Error>)
        ensures
            final(self)@ == chunk_added(old(self)@, chunk@).0,
            error::refused_as(result, chunk_added(old(self)@, chunk@).1),
    {
        let mut i: usize = 0;
        assert(chunk@.take(0) =~= seq![]);
        while i < chunk.len()
            invariant
                i <= chunk@.len(),
                self.buffer@ == old(self)@ + chunk@.take(i as int),
            decreases chunk@.len() - i,
        {
            self.buffer.push(chunk[i]);
            assert(old(self)@ + chunk@.take(i + 1) =~= (old(self)@ + chunk@.take(i as int)).push(
                chunk@[i as int],
            ));
            i += 1;
        }
        assert(chunk@.take(chunk@.len() as int) =~= chunk@);
        if self.buffer.len() > MAX_SOCKET_FRAME_BYTES && self.line_feed().is_none() {
            self.buffer = Vec::new();
            assert(self@ =~= seq![]);
            return Err(Error::new("Hyprland socket2 frame exceeded 65536 bytes".to_owned()));
        }
        Ok(())
    }

    /// Takes the first frame, if it is whole.
    pub fn take_frame(&mut self) -> (result: Result<Option<String>, Error>)
        ensures
            final(self)@ == frame_taken(old(self)@).0,
            match (frame_taken(old(self)@).1, result) {
                (Err(reason), Err(error)) => error@ == reason,
                (Ok(None), Ok(None)) => true,
                (Ok(Some(frame)), Ok(Some(taken))) => taken@ == frame,
                _ => false,
            },
            error::plainly(result),
    {
        proof {
            lemma_first_line_feed(self@);
        }
        match self.line_feed() {
            None => Ok(None),
            Some(end) => {
                let ghost before = self.buffer@;
                let size: usize = self.buffer.len();
                assert(end < size);
                let mut frame: Vec<u8> = self.buffer.split_off(end + 1);
                core::mem::swap(&mut self.buffer, &mut frame);
                assert(frame@ =~= before.take(end + 1));
                assert(self.buffer@ =~= before.skip(end + 1));
                if end >= MAX_SOCKET_FRAME_BYTES {
                    return Err(
                        Error::new("Hyprland socket2 frame exceeded 65536 bytes".to_owned()),
                    );
                }
                match bytes::decode(frame) {
                    Some(frame) => Ok(Some(frame)),
                    None => Err(
                        Error::new("Hyprland socket2 frame was not valid UTF-8".to_owned()),
                    ),
                }
            },
        }
    }

    /// Takes frames up to the first monitor event.
    pub fn next_event(&mut self) -> (result: Result<Option<MonitorSocketEvent>, Error>)
        ensures
            final(self)@ == event_taken(old(self)@).0,
            match (event_taken(old(self)@).1, result) {
                (Err(reason), Err(error)) => error@ == reason,
                (Ok(found), Ok(event)) => event == found,
                _ => false,
            },
            error::plainly(result),
    {
        loop
            invariant
                event_taken(self@) == event_taken(old(self)@),
            decreases self@.len(),
        {
            proof {
                lemma_first_line_feed(self@);
            }
            match self.take_frame() {
                Err(error) => {
                    return Err(error);
                },
                Ok(None) => {
                    return Ok(None);
                },
                Ok(Some(frame)) => match parse_monitor_event(frame.as_str()) {
                    Some(event) => {
                        return Ok(Some(event));
                    },
                    None => {},
                },
            }
        }
    }
}

// ---------------------------------------------------------------------------
// Sockets
// ---------------------------------------------------------------------------
/// The event socket of the instance `signature`.
pub open spec fn socket_in(runtime_dir: Seq<char>, signature: Seq<char>) -> Seq<char> {
    path::below(path::below(path::below(runtime_dir, "hypr"@), signature), ".socket2.sock"@)
}

/// The event socket of the instance `signature`.
pub fn socket2_path(runtime_dir: &str, signature: &str) -> (result: String)
    ensures
        result@ == socket_in(runtime_dir@, signature@),
{
    path::join(
        path::join(path::join(runtime_dir, "hypr").as_str(), signature).as_str(),
        ".socket2.sock",
    )
}

/// Why there is no runtime directory.
pub open spec fn runtime_dir_error(runtime_dir: Option<Seq<char>>) -> Option<Seq<char>> {
    match runtime_dir {
        None => Some("XDG_RUNTIME_DIR is not set; cannot locate Hyprland socket2"@),
        Some(dir) => if dir.len() == 0 {
            Some("XDG_RUNTIME_DIR is empty; cannot locate Hyprland socket2"@)
        } else {
            None
        },
    }
}

/// The runtime directory, going by the environment.
pub fn runtime_dir_from(value: Option<String>) -> (result: Result<String, Error>)
    ensures
        error::refused_as(
            result,
            runtime_dir_error(
                match value {
                    Some(dir) => Some(dir@),
                    None => None,
                },
            ),
        ),
        result matches Ok(dir) ==> value matches Some(given) && given@ == dir@,
{
    match value {
        None => Err(
            Error::new("XDG_RUNTIME_DIR is not set; cannot locate Hyprland socket2".to_owned()),
        ),
        Some(dir) => if dir.as_str().unicode_len() == 0 {
            Err(Error::new("XDG_RUNTIME_DIR is empty; cannot locate Hyprland socket2".to_owned()))
        } else {
            Ok(dir)
        },
    }
}

/// `parts` are a name and nothing that leads elsewhere: a path that has one
/// component, which is a name.
pub open spec fn one_name(parts: Seq<Seq<char>>) -> bool {
    &&& parts[0].len() > 0
    &&& parts[0] != "."@
    &&& parts[0] != ".."@
    &&& forall|i: int| 1 <= i < parts.len() ==> #[trigger] parts[i].len() == 0 || parts[i] == "."@
}

/// Why `signature` names no instance.
pub open spec fn signature_error(signature: Seq<char>) -> Option<Seq<char>> {
    if one_name(lines::parts(signature, '/')) {
        None
    } else {
        Some("HYPRLAND_INSTANCE_SIGNATURE must be exactly one normal path component"@)
    }
}

fn is_one_name(parts: &Vec<String>) -> (result: bool)
    requires
        parts@.len() >= 1,
    ensures
        result == one_name(text::texts(parts@)),
{
    let ghost views = text::texts(parts@);
    assert(views[0] == parts@[0]@);
    let first: &str = parts[0].as_str();
    if first.unicode_len() == 0 || text::same(first, ".") || text::same(first, "..") {
        return false;
    }
    let mut i: usize = 1;
    while i < parts.len()
        invariant
            1 <= i <= parts@.len(),
            views == text::texts(parts@),
            forall|j: int| 1 <= j < i ==> #[trigger] views[j].len() == 0 || views[j] == "."@,
        decreases parts@.len() - i,
    {
        assert(views[i as int] == parts@[i as int]@);
        let part: &str = parts[i].as_str();
        if part.unicode_len() > 0 && !text::same(part, ".") {
            return false;
        }
        i += 1;
    }
    true
}

/// Whether `signature` names an instance.
pub fn validate_signature(signature: &str) -> (result: Result<(), Error>)
    ensures
        error::refused_as(result, signature_error(signature@)),
{
    let parts: Vec<String> = lines::split(signature, '/');
    if is_one_name(&parts) {
        Ok(())
    } else {
        Err(
            Error::new(
                "HYPRLAND_INSTANCE_SIGNATURE must be exactly one normal path component".to_owned(),
            ),
        )
    }
}

/// What is known of a file without following links.
#[derive(Debug, Clone, Copy, PartialEq, Eq, Structural)]
pub struct FileFacts {
    pub symlink: bool,
    pub directory: bool,
    pub socket: bool,
    pub uid: u32,
    pub mode: u32,
}

impl FileFacts {
    /// Others than the owner may write it.
    pub open spec fn writable_by_others(self) -> bool {
        self.mode & 0o022 != 0
    }
}

/// Why the runtime directory is not to be trusted.
pub open spec fn runtime_error(dir: Seq<char>, facts: FileFacts, uid: u32) -> Option<Seq<char>> {
    if facts.symlink || !facts.directory {
        Some("runtime directory "@ + dir + " must be a real directory, not a symlink"@)
    } else if facts.uid != uid {
        Some(
            "runtime directory "@ + dir + " is owned by uid "@ + text::int_text(facts.uid as int)
                + ", expected "@ + text::int_text(uid as int),
        )
    } else if facts.writable_by_others() {
        Some("runtime directory "@ + dir + " must not be group- or world-writable"@)
    } else {
        None
    }
}

/// Whether the runtime directory is to be trusted.
pub fn validate_runtime_ownership(runtime_dir: &str, facts: FileFacts, uid: u32) -> (result: Result<
    (),
    Error,
>)
    ensures
        error::refused_as(result, runtime_error(runtime_dir@, facts, uid)),
{
    if facts.symlink || !facts.directory {
        return Err(
            Error::new(
                "runtime directory ".to_owned().concat(runtime_dir).concat(
                    " must be a real directory, not a symlink",
                ),
            ),
        );
    }
    if facts.uid != uid {
        return Err(
            Error::new(
                "runtime directory ".to_owned().concat(runtime_dir).concat(
                    " is owned by uid ",
                ).concat(text::decimal(facts.uid as i128).as_str()).concat(", expected ").concat(
                    text::decimal(uid as i128).as_str(),
                ),
            ),
        );
    }
    if facts.mode & 0o022 != 0 {
        return Err(
            Error::new(
                "runtime directory ".to_owned().concat(runtime_dir).concat(
                    " must not be group- or world-writable",
                ),
            ),
        );
    }
    Ok(())
}

/// Why the directory `dir` is not to be trusted.
pub open spec fn directory_error(
    dir: Seq<char>,
    label: Seq<char>,
    facts: FileFacts,
    uid: u32,
) -> Option<Seq<char>> {
    if facts.symlink || !facts.directory {
        Some(label + " "@ + dir + " must be a real directory, not a symlink"@)
    } else if facts.uid != uid {
        Some(label + " "@ + dir + " has mismatched ownership"@)
    } else if facts.writable_by_others() {
        Some(label + " "@ + dir + " must not be group- or world-writable"@)
    } else {
        None
    }
}

/// Whether the directory `dir` is to be trusted.
pub fn validate_owned_private_directory(
    dir: &str,
    label: &str,
    facts: FileFacts,
    uid: u32,
) -> (result: Result<(), Error>)
    ensures
        error::refused_as(result, directory_error(dir@, label@, facts, uid)),
{
    if facts.symlink || !facts.directory {
        return Err(
            Error::new(
                label.to_owned().concat(" ").concat(dir).concat(
                    " must be a real directory, not a symlink",
                ),
            ),
        );
    }
    if facts.uid != uid {
        return Err(
            Error::new(
                label.to_owned().concat(" ").concat(dir).concat(" has mismatched ownership"),
            ),
        );
    }
    if facts.mode & 0o022 != 0 {
        return Err(
            Error::new(
                label.to_owned().concat(" ").concat(dir).concat(
                    " must not be group- or world-writable",
                ),
            ),
        );
    }
    Ok(())
}

/// Why the directory of an instance is not to be trusted; one that does not
/// exist does no harm.
pub open spec fn instance_error(dir: Seq<char>, facts: Option<FileFacts>, uid: u32) -> Option<
    Seq<char>,
> {
    match facts {
        None => None,
        Some(facts) => if facts.symlink {
            Some("Hyprland instance directory "@ + dir + " must not be a symlink"@)
        } else if facts.uid != uid {
            Some("Hyprland instance directory "@ + dir + " has mismatched ownership"@)
        } else if !facts.directory {
            Some("Hyprland instance path "@ + dir + " is not a directory"@)
        } else if facts.writable_by_others() {
            Some("Hyprland instance directory "@ + dir + " must not be group- or world-writable"@)
        } else {
            None
        },
    }
}

/// Whether the directory of the instance `signature` is to be trusted.
pub fn validate_signature_directory(
    runtime_dir: &str,
    signature: &str,
    facts: Option<FileFacts>,
    uid: u32,
) -> (result: Result<(), Error>)
    ensures
        error::refused_as(
            result,
            instance_error(
                path::below(path::below(runtime_dir@, "hypr"@), signature@),
                facts,
                uid,
            ),
        ),
{
    let facts: FileFacts = match facts {
        None => {
            return Ok(());
        },
        Some(facts) => facts,
    };
    let dir: String = path::join(path::join(runtime_dir, "hypr").as_str(), signature);
    if facts.symlink {
        Err(
            Error::new(
                "Hyprland instance directory ".to_owned().concat(dir.as_str()).concat(
                    " must not be a symlink",
                ),
            ),
        )
    } else if facts.uid != uid {
        Err(
            Error::new(
                "Hyprland instance directory ".to_owned().concat(dir.as_str()).concat(
                    " has mismatched ownership",
                ),
            ),
        )
    } else if !facts.directory {
        Err(
            Error::new(
                "Hyprland instance path ".to_owned().concat(dir.as_str()).concat(
                    " is not a directory",
                ),
            ),
        )
    } else if facts.mode & 0o022 != 0 {
        Err(
            Error::new(
                "Hyprland instance directory ".to_owned().concat(dir.as_str()).concat(
                    " must not be group- or world-writable",
                ),
            ),
        )
    } else {
        Ok(())
    }
}

/// Why the socket `socket` is not to be trusted.
pub open spec fn socket_error(socket: Seq<char>, facts: FileFacts, uid: u32) -> Option<Seq<char>> {
    if facts.symlink || !facts.socket {
        Some("Hyprland socket2 "@ + socket + " must be a real Unix socket, not a symlink"@)
    } else if facts.uid != uid {
        Some("Hyprland socket2 "@ + socket + " has mismatched ownership"@)
    } else if facts.writable_by_others() {
        Some("Hyprland socket2 "@ + socket + " must not be group- or world-writable"@)
    } else {
        None
    }
}

/// Whether the socket `socket` is to be trusted.
pub fn validate_socket_inode(socket: &str, facts: FileFacts, uid: u32) -> (result: Result<
    (),
    Error,
>)
    ensures
        error::refused_as(result, socket_error(socket@, facts, uid)),
{
    if facts.symlink || !facts.socket {
        return Err(
            Error::new(
                "Hyprland socket2 ".to_owned().concat(socket).concat(
                    " must be a real Unix socket, not a symlink",
                ),
            ),
        );
    }
    if facts.uid != uid {
        return Err(
            Error::new(
                "Hyprland socket2 ".to_owned().concat(socket).concat(" has mismatched ownership"),
            ),
        );
    }
    if facts.mode & 0o022 != 0 {
        return Err(
            Error::new(
                "Hyprland socket2 ".to_owned().concat(socket).concat(
                    " must not be group- or world-writable",
                ),
            ),
        );
    }
    Ok(())
}

/// Whether the one who listens on `socket` is the user.
pub fn validate_peer(socket: &str, peer: u32, uid: u32) -> (result: Result<(), Error>)
    ensures
        error::refused_as(
            result,
            if peer == uid {
                None
            } else {
                Some(
                    "Hyprland socket2 peer at "@ + socket@ + " is uid "@ + text::int_text(
                        peer as int,
                    ) + ", expected "@ + text::int_text(uid as int),
                )
            },
        ),
{
    if peer == uid {
        Ok(())
    } else {
        Err(
            Error::new(
                "Hyprland socket2 peer at ".to_owned().concat(socket).concat(" is uid ").concat(
                    text::decimal(peer as i128).as_str(),
                ).concat(", expected ").concat(text::decimal(uid as i128).as_str()),
            ),
        )
    }
}

// ---------------------------------------------------------------------------
// Instances
// ---------------------------------------------------------------------------
/// An entry of the directory of instances.
#[derive(Debug, PartialEq, Eq)]
pub struct InstanceEntry {
    pub name: String,
    pub facts: FileFacts,
    /// Its event socket can be connected to.
    pub live: bool,
}

/// What an [`InstanceEntry`] holds.
#[verifier::ext_equal]
pub struct EntryView {
    pub name: Seq<char>,
    pub facts: FileFacts,
    pub live: bool,
}

impl View for InstanceEntry {
    type V = EntryView;

    open spec fn view(&self) -> EntryView {
        EntryView { name: self.name@, facts: self.facts, live: self.live }
    }
}

/// What entries hold.
pub open spec fn entry_views(entries: Seq<InstanceEntry>) -> Seq<EntryView> {
    entries.map_values(|entry: InstanceEntry| entry@)
}

/// `entry` is an instance of the user that listens.
pub open spec fn is_candidate(entry: EntryView, uid: u32) -> bool {
    &&& !entry.facts.symlink
    &&& entry.facts.directory
    &&& entry.facts.uid == uid
    &&& !entry.facts.writable_by_others()
    &&& entry.live
}

/// The names of those of the first `n` entries that are instances of the user
/// that listen.
pub open spec fn candidates(entries: Seq<EntryView>, uid: u32, n: int) -> Seq<Seq<char>>
    decreases n,
{
    if n <= 0 {
        seq![]
    } else if is_candidate(entries[n - 1], uid) {
        candidates(entries, uid, n - 1).push(entries[n - 1].name)
    } else {
        candidates(entries, uid, n - 1)
    }
}

impl Ranked for String {
    open spec fn ahead(a: Seq<char>, b: Seq<char>) -> bool {
        text::precedes(a, b)
    }

    fn is_ahead(&self, other: &Self) -> (result: bool) {
        text::comes_before(self.as_str(), other.as_str())
    }
}

/// The only instance of the user that listens, or why there is no such one.
pub open spec fn discovered(runtime_dir: Seq<char>, found: Seq<Seq<char>>) -> Result<
    Seq<char>,
    Seq<char>,
> {
    if found.len() == 0 {
        Err(
            "HYPRLAND_INSTANCE_SIGNATURE is not set and no socket2 socket was found in "@
                + path::below(runtime_dir, "hypr"@),
        )
    } else if found.len() == 1 {
        Ok(found[0])
    } else {
        Err(
            "HYPRLAND_INSTANCE_SIGNATURE is not set and multiple socket2 sockets were found: "@
                + text::joined(
                sort::sorted::<String>(found).map_values(
                    |name: Seq<char>| socket_in(runtime_dir, name),
                ),
                ", "@,
            ),
        )
    }
}

/// The only instance of the user that listens among `entries`.
pub open spec fn discovered_among(
    runtime_dir: Seq<char>,
    entries: Seq<EntryView>,
    uid: u32,
) -> Result<Seq<char>, Seq<char>> {
    discovered(runtime_dir, candidates(entries, uid, entries.len() as int))
}

fn collect_candidates(entries: &Vec<InstanceEntry>, uid: u32) -> (result: Vec<String>)
    ensures
        text::texts(result@) == candidates(entry_views(entries@), uid, entries@.len() as int),
{
    let ghost all = entry_views(entries@);
    let mut result: Vec<String> = Vec::new();
    assert(text::texts(result@) =~= seq![]);
    let mut i: usize = 0;
    while i < entries.len()
        invariant
            i <= entries@.len(),
            all == entry_views(entries@),
            text::texts(result@) == candidates(all, uid, i as int),
        decreases entries@.len() - i,
    {
        assert(all[i as int] == entries@[i as int]@);
        let facts: FileFacts = entries[i].facts;
        if !facts.symlink && facts.directory && facts.uid == uid && facts.mode & 0o022 == 0
            && entries[i].live {
            let ghost before = text::texts(result@);
            result.push(entries[i].name.clone());
            assert(text::texts(result@) =~= before.push(all[i as int].name));
        }
        i += 1;
    }
    result
}

fn socket_paths(runtime_dir: &str, names: &Vec<String>) -> (result: Vec<String>)
    ensures
        text::texts(result@) == text::texts(names@).map_values(
            |name: Seq<char>| socket_in(runtime_dir@, name),
        ),
{
    let ghost expected = text::texts(names@).map_values(
        |name: Seq<char>| socket_in(runtime_dir@, name),
    );
    let mut result: Vec<String> = Vec::new();
    let mut i: usize = 0;
    while i < names.len()
        invariant
            i <= names@.len(),
            expected == text::texts(names@).map_values(
                |name: Seq<char>| socket_in(runtime_dir@, name),
            ),
            text::texts(result@) == expected.take(i as int),
        decreases names@.len() - i,
    {
        let ghost before = text::texts(result@);
        assert(text::texts(names@)[i as int] == names@[i as int]@);
        result.push(socket2_path(runtime_dir, names[i].as_str()));
        assert(text::texts(result@) =~= before.push(expected[i as int]));
        assert(text::texts(result@) =~= expected.take(i + 1));
        i += 1;
    }
    assert(expected.take(expected.len() as int) =~= expected);
    result
}

/// The only instance of the user that listens.
pub fn discover_instance(runtime_dir: &str, entries: &Vec<InstanceEntry>, uid: u32) -> (result:
    Result<String, Error>)
    ensures
        error::outcome(result) == discovered_among(runtime_dir@, entry_views(entries@), uid),
        error::plainly(result),
{
    let mut found: Vec<String> = collect_candidates(entries, uid);
    let ghost views = text::texts(found@);
    if found.len() == 0 {
        return Err(
            Error::new(
                "HYPRLAND_INSTANCE_SIGNATURE is not set and no socket2 socket was found in ".to_owned().concat(
                    path::join(runtime_dir, "hypr").as_str(),
                ),
            ),
        );
    }
    if found.len() == 1 {
        assert(views[0] == found@[0]@);
        return Ok(found.remove(0));
    }
    assert(sort::held(found@) =~= views);
    let sorted: Vec<String> = sort::sort(found);
    assert(text::texts(sorted@) =~= sort::held(sorted@));
    let sockets: Vec<String> = socket_paths(runtime_dir, &sorted);
    Err(
        Error::new(
            "HYPRLAND_INSTANCE_SIGNATURE is not set and multiple socket2 sockets were found: ".to_owned().concat(
                text::join(&sockets, ", ").as_str(),
            ),
        ),
    )
}

/// The event socket of the only instance of the user that listens.
pub fn discover_socket2_path_with(
    runtime_dir: &str,
    entries: &Vec<InstanceEntry>,
    uid: u32,
) -> (result: Result<String, Error>)
    ensures
        error::outcome(result) == (match discovered_among(
            runtime_dir@,
            entry_views(entries@),
            uid,
        ) {
            Ok(name) => Ok(socket_in(runtime_dir@, name)),
            Err(reason) => Err(reason),
        }),
        error::plainly(result),
{
    match discover_instance(runtime_dir, entries, uid) {
        Ok(name) => Ok(socket2_path(runtime_dir, name.as_str())),
        Err(error) => Err(error),
    }
}

/// The instance that the environment names.
#[derive(Debug, PartialEq, Eq)]
pub struct ConfiguredInstance {
    pub signature: String,
    /// What is known of its directory, where it exists.
    pub directory: Option<FileFacts>,
    /// Its event socket can be connected to.
    pub live: bool,
}

/// What is said where the instance that the environment names does not listen.
pub open spec fn replacement_context(runtime_dir: Seq<char>, signature: Seq<char>) -> Seq<char> {
    "configured Hyprland socket2 "@ + socket_in(runtime_dir, signature)
        + " is unavailable and no unique live replacement could be discovered"@
}

/// Why the instance that the environment names is not to be trusted.
pub open spec fn configured_error(
    runtime_dir: Seq<char>,
    configured: ConfiguredInstance,
    uid: u32,
) -> Option<Seq<char>> {
    match signature_error(configured.signature@) {
        Some(reason) => Some(reason),
        None => instance_error(
            path::below(path::below(runtime_dir, "hypr"@), configured.signature@),
            configured.directory,
            uid,
        ),
    }
}

/// The event socket to connect to: that of the instance that the environment
/// names, or else the only one that listens.
pub open spec fn resolved(
    runtime_dir: Seq<char>,
    configured: Option<ConfiguredInstance>,
    entries: Seq<EntryView>,
    uid: u32,
) -> Result<Seq<char>, Seq<char>> {
    let other = discovered_among(runtime_dir, entries, uid);
    match configured {
        Some(configured) if configured.signature@.len() > 0 => match configured_error(
            runtime_dir,
            configured,
            uid,
        ) {
            Some(reason) => Err(reason),
            None => if configured.live {
                Ok(socket_in(runtime_dir, configured.signature@))
            } else {
                match other {
                    Ok(name) => Ok(socket_in(runtime_dir, name)),
                    Err(reason) => Err(
                        error::within(
                            replacement_context(runtime_dir, configured.signature@),
                            reason,
                        ),
                    ),
                }
            },
        },
        _ => match other {
            Ok(name) => Ok(socket_in(runtime_dir, name)),
            Err(reason) => Err(reason),
        },
    }
}

/// The broadest part of why there is no event socket to connect to.
pub open spec fn resolved_head(
    runtime_dir: Seq<char>,
    configured: Option<ConfiguredInstance>,
    entries: Seq<EntryView>,
    uid: u32,
) -> Seq<char> {
    match configured {
        Some(configured) if configured.signature@.len() > 0 && configured_error(
            runtime_dir,
            configured,
            uid,
        ) is None => replacement_context(runtime_dir, configured.signature@),
        _ => resolved(runtime_dir, configured, entries, uid)->Err_0,
    }
}

fn validate_configured(runtime_dir: &str, configured: &ConfiguredInstance, uid: u32) -> (result:
    Result<(), Error>)
    ensures
        error::refused_as(result, configured_error(runtime_dir@, *configured, uid)),
{
    match validate_signature(configured.signature.as_str()) {
        Err(error) => Err(error),
        Ok(()) => validate_signature_directory(
            runtime_dir,
            configured.signature.as_str(),
            configured.directory,
            uid,
        ),
    }
}

/// The event socket to connect to.
pub fn resolve_socket2_path_with(
    runtime_dir: &str,
    configured: &Option<ConfiguredInstance>,
    entries: &Vec<InstanceEntry>,
    uid: u32,
) -> (result: Result<String, Error>)
    ensures
        error::outcome(result) == resolved(runtime_dir@, *configured, entry_views(entries@), uid),
        result matches Err(error) ==> error.head() == resolved_head(
            runtime_dir@,
            *configured,
            entry_views(entries@),
            uid,
        ),
{
    match configured {
        Some(configured) => if configured.signature.as_str().unicode_len() > 0 {
            match validate_configured(runtime_dir, configured, uid) {
                Err(error) => {
                    return Err(error);
                },
                Ok(()) => {},
            }
            let socket: String = socket2_path(runtime_dir, configured.signature.as_str());
            if configured.live {
                return Ok(socket);
            }
            return match discover_socket2_path_with(runtime_dir, entries, uid) {
                Ok(other) => Ok(other),
                Err(error) => Err(
                    error.context(
                        "configured Hyprland socket2 ".to_owned().concat(socket.as_str()).concat(
                            " is unavailable and no unique live replacement could be discovered",
                        ).as_str(),
                    ),
                ),
            };
        },
        None => {},
    }
    discover_socket2_path_with(runtime_dir, entries, uid)
}

/// The instance whose compositor is spoken to. One that does not listen gives
/// way to the only one that does, and is kept where there is no such one.
pub open spec fn instance_to_use(
    runtime_dir: Seq<char>,
    configured: Option<ConfiguredInstance>,
    entries: Seq<EntryView>,
    uid: u32,
) -> Result<Seq<char>, Seq<char>> {
    let other = discovered_among(runtime_dir, entries, uid);
    match configured {
        Some(configured) if configured.signature@.len() > 0 => match configured_error(
            runtime_dir,
            configured,
            uid,
        ) {
            Some(reason) => Err(reason),
            None => if configured.live {
                Ok(configured.signature@)
            } else {
                match other {
                    Ok(name) => Ok(name),
                    Err(_) => Ok(configured.signature@),
                }
            },
        },
        _ => other,
    }
}

/// The instance whose compositor is spoken to.
pub fn hyprctl_instance_signature(
    runtime_dir: &str,
    configured: &Option<ConfiguredInstance>,
    entries: &Vec<InstanceEntry>,
    uid: u32,
) -> (result: Result<String, Error>)
    ensures
        error::outcome(result) == instance_to_use(
            runtime_dir@,
            *configured,
            entry_views(entries@),
            uid,
        ),
        error::plainly(result),
{
    match configured {
        Some(configured) => if configured.signature.as_str().unicode_len() > 0 {
            match validate_configured(runtime_dir, configured, uid) {
                Err(error) => {
                    return Err(error);
                },
                Ok(()) => {},
            }
            if configured.live {
                return Ok(configured.signature.clone());
            }
            return match discover_instance(runtime_dir, entries, uid) {
                Ok(other) => Ok(other),
                Err(_) => Ok(configured.signature.clone()),
            };
        },
        None => {},
    }
    discover_instance(runtime_dir, entries, uid)
}

/// An event that the compositor tells of by name is understood, whatever line
/// end follows it.
pub proof fn law_named_events_are_understood(event: MonitorSocketEvent, payload: Seq<char>)
    requires
        text::trimmed(payload).len() > 0,
        event is AddedV2 || event is RemovedV2 ==> numbered_payload(payload),
        payload.last() != '\r' && payload.last() != '\n',
    ensures
        event_of(event.name() + ">>"@ + payload) == Some(event),
        event_of(event.name() + ">>"@ + payload + "\n"@) == Some(event),
        event_of(event.name() + ">>"@ + payload + "\r\n"@) == Some(event),
{
    reveal_strlit("monitoradded");
    reveal_strlit("monitorremoved");
    reveal_strlit("monitoraddedv2");
    reveal_strlit("monitorremovedv2");
    reveal_strlit(">>");
    reveal_strlit("\n");
    reveal_strlit("\r\n");
    let name = event.name();
    let line = name + ">>"@ + payload;
    assert(payload.len() > 0) by {
        if payload.len() == 0 {
            text::lemma_is_trimmed(payload);
            assert(text::trimmed(payload) =~= payload);
        }
    }
    assert(line.last() == payload.last());
    assert(without_line_ends(line) == line);
    let ended = line + "\n"@;
    assert(ended.drop_last() =~= line);
    assert(without_line_ends(ended) == line);
    let returned = line + "\r\n"@;
    assert(returned.drop_last().drop_last() =~= line);
    assert(returned.drop_last().last() == '\r');
    assert(without_line_ends(returned.drop_last()) == line);
    assert(without_line_ends(returned) == line);
    let n = name.len() as int;
    assert(line[n] == '>' && line[n + 1] == '>');
    assert forall|j: int| 0 <= j < n implies !(#[trigger] line[j] == '>' && line[j + 1] == '>') by {
        assert(line[j] == name[j]);
        assert(name[j] != '>');
    }
    lemma_mark_at(line, n);
    assert(line.take(n) =~= name);
    assert(line.skip(n + 2) =~= payload);
    assert("monitoradded"@.len() == 12 && "monitorremoved"@.len() == 14 && "monitoraddedv2"@.len()
        == 14 && "monitorremovedv2"@.len() == 16);
    assert("monitorremoved"@[7] == 'r' && "monitoraddedv2"@[7] == 'a');
}

} // verus!
