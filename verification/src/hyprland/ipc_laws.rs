//! Which socket is connected to, and what is heard on it.
use vstd::prelude::*;

use crate::hyprland::ipc;
use crate::hyprland::ipc::{ConfiguredInstance, EntryView, FileFacts, MonitorSocketEvent};
use crate::lines;
use crate::text;

verus! {

// ---------------------------------------------------------------------------
// Events
// ---------------------------------------------------------------------------
/// `s` is made of line ends.
pub open spec fn all_line_ends(s: Seq<char>) -> bool {
    forall|i: int| 0 <= i < s.len() ==> #[trigger] s[i] == '\r' || s[i] == '\n'
}

proof fn lemma_line_ends(line: Seq<char>)
    ensures
        ({
            let kept = ipc::without_line_ends(line);
            &&& kept.len() <= line.len()
            &&& line == kept + line.skip(kept.len() as int)
            &&& all_line_ends(line.skip(kept.len() as int))
        }),
    decreases line.len(),
{
    let kept = ipc::without_line_ends(line);
    if line.len() > 0 && (line.last() == '\r' || line.last() == '\n') {
        let front = line.drop_last();
        lemma_line_ends(front);
        let tail = line.skip(kept.len() as int);
        assert(tail =~= front.skip(kept.len() as int).push(line.last()));
        assert forall|i: int| 0 <= i < tail.len() implies #[trigger] tail[i] == '\r' || tail[i]
            == '\n' by {
            if i < tail.len() - 1 {
                assert(tail[i] == front.skip(kept.len() as int)[i]);
            }
        }
        let inner = front.skip(kept.len() as int);
        assert(line =~= front.push(line.last()));
        assert((kept + inner).push(line.last()) =~= kept + inner.push(line.last()));
    } else {
        assert(line.skip(line.len() as int) =~= seq![]);
        assert(line =~= kept + line.skip(kept.len() as int));
    }
}

proof fn lemma_split_at_mark(line: Seq<char>)
    ensures
        ipc::split_at_mark(line) matches Some((name, payload)) ==> line == name + seq!['>', '>']
            + payload,
    decreases line.len(),
{
    if line.len() >= 2 {
        if line[0] == '>' && line[1] == '>' {
            assert(line =~= Seq::<char>::empty() + seq!['>', '>'] + line.skip(2));
        } else {
            let rest = line.drop_first();
            lemma_split_at_mark(rest);
            if let Some((name, payload)) = ipc::split_at_mark(rest) {
                assert(line =~= seq![line[0]] + rest);
                assert(seq![line[0]] + (name + seq!['>', '>'] + payload) =~= seq![line[0]] + name
                    + seq!['>', '>'] + payload);
            }
        }
    }
}

/// A line as the compositor writes it.
pub open spec fn event_line(name: Seq<char>, payload: Seq<char>, tail: Seq<char>) -> Seq<char> {
    name + seq!['>', '>'] + payload + tail
}

/// A line tells of an event only where it begins with the name of that event and two
/// marks, something that is not blank follows, and at most line ends come after that.
/// Lines of other names tell of nothing.
pub proof fn law_events_stand_on_their_line(line: Seq<char>, event: MonitorSocketEvent)
    requires
        ipc::event_of(line) == Some(event),
    ensures
        exists|payload: Seq<char>, tail: Seq<char>|
            line == #[trigger] event_line(event.name(), payload, tail) && text::trimmed(
                payload,
            ).len() > 0 && all_line_ends(tail),
{
    lemma_line_ends(line);
    let kept = ipc::without_line_ends(line);
    lemma_split_at_mark(kept);
    let (name, payload) = ipc::split_at_mark(kept)->0;
    let tail = line.skip(kept.len() as int);
    assert(name == event.name());
    assert(line == event_line(event.name(), payload, tail));
}

/// The four events have the names that the compositor gives them.
pub proof fn law_events_have_their_names(event: MonitorSocketEvent)
    ensures
        event is Added ==> event.name() == "monitoradded"@,
        event is Removed ==> event.name() == "monitorremoved"@,
        event is AddedV2 ==> event.name() == "monitoraddedv2"@,
        event is RemovedV2 ==> event.name() == "monitorremovedv2"@,
{
}

// ---------------------------------------------------------------------------
// Frames
// ---------------------------------------------------------------------------
/// A frame is what stands up to the first line feed, with it. It comes off the front of
/// what was read, and what follows stays; without a line feed nothing comes off. A frame
/// of more than 65536 bytes, and one that is no text, is refused and comes off too.
pub proof fn law_frames_end_with_a_line(buffer: Seq<u8>, i: int)
    requires
        0 <= i < buffer.len() ==> buffer[i] == 0x0a && forall|j: int|
            0 <= j < i ==> #[trigger] buffer[j] != 0x0a,
        !(0 <= i < buffer.len()) ==> forall|j: int|
            0 <= j < buffer.len() ==> #[trigger] buffer[j] != 0x0a,
    ensures
        ({
            let (rest, taken) = ipc::frame_taken(buffer);
            if 0 <= i < buffer.len() {
                let frame = buffer.subrange(0, i + 1);
                &&& rest == buffer.subrange(i + 1, buffer.len() as int)
                &&& i < 65_536 && vstd::utf8::valid_utf8(frame) ==> taken == Ok::<_, Seq<char>>(
                    Some(vstd::utf8::decode_utf8(frame)),
                )
                &&& i >= 65_536 || !vstd::utf8::valid_utf8(frame) ==> taken is Err
            } else {
                rest == buffer && taken == Ok::<_, Seq<char>>(
                    None::<Seq<char>>,
                )
            }
        }),
{
    ipc::lemma_first_line_feed(buffer);
    match ipc::first_line_feed(buffer) {
        Some(k) => {
            if 0 <= i < buffer.len() {
                assert(i == k) by {
                    if i < k {
                        assert(buffer[i] != 0x0a);
                    } else if k < i {
                        assert(buffer[k] != 0x0a);
                    }
                }
                assert(buffer.skip(i + 1) =~= buffer.subrange(i + 1, buffer.len() as int));
                assert(buffer.take(i + 1) =~= buffer.subrange(0, i + 1));
            } else {
                assert(buffer[k] != 0x0a);
            }
        },
        None => {
            if 0 <= i < buffer.len() {
                assert(buffer[i] != 0x0a);
            }
        },
    }
}

/// What is read is kept behind what was read before, unless that makes more than 65536
/// bytes without a line feed: then all of it is dropped and refused.
pub proof fn law_endless_frames_are_dropped(buffer: Seq<u8>, chunk: Seq<u8>)
    ensures
        ({
            let (kept, refused) = ipc::chunk_added(buffer, chunk);
            let whole = buffer + chunk;
            let endless = whole.len() > 65_536 && forall|j: int|
                0 <= j < whole.len() ==> #[trigger] whole[j] != 0x0a;
            &&& endless ==> kept.len() == 0 && refused is Some
            &&& !endless ==> kept == whole && refused is None
        }),
{
    ipc::lemma_first_line_feed(buffer + chunk);
}

// ---------------------------------------------------------------------------
// Trust
// ---------------------------------------------------------------------------
/// The file is a directory of the user that nobody else may write, and no link.
pub open spec fn own_directory(facts: FileFacts, uid: u32) -> bool {
    &&& !facts.symlink
    &&& facts.directory
    &&& facts.uid == uid
    &&& facts.mode & 0o022 == 0
}

/// A directory is trusted exactly where it is one of the user that nobody else may write,
/// and no link; the directory of an instance also where it does not exist; and a socket
/// where it is one of the user that nobody else may write, and no link.
pub proof fn law_only_own_places_are_trusted(
    place: Seq<char>,
    label: Seq<char>,
    facts: FileFacts,
    found: Option<FileFacts>,
    uid: u32,
)
    ensures
        ipc::runtime_error(place, facts, uid) is None <==> own_directory(facts, uid),
        ipc::directory_error(place, label, facts, uid) is None <==> own_directory(facts, uid),
        ipc::instance_error(place, found, uid) is None <==> (found matches Some(facts)
            ==> own_directory(facts, uid)),
        ipc::socket_error(place, facts, uid) is None <==> !facts.symlink && facts.socket
            && facts.uid == uid && facts.mode & 0o022 == 0,
{
}

/// `entry` is an instance of the user, in a directory that nobody else may write, that
/// listens.
pub open spec fn listens(entry: EntryView, uid: u32) -> bool {
    own_directory(entry.facts, uid) && entry.live
}

proof fn lemma_candidates(entries: Seq<EntryView>, uid: u32, n: int)
    requires
        0 <= n <= entries.len(),
    ensures
        ({
            let found = ipc::candidates(entries, uid, n);
            &&& found.len() == 0 <==> forall|i: int|
                0 <= i < n ==> !listens(#[trigger] entries[i], uid)
            &&& found.len() == 1 ==> exists|k: int|
                0 <= k < n && listens(#[trigger] entries[k], uid) && entries[k].name == found[0]
                    && forall|i: int|
                    0 <= i < n && i != k ==> !listens(#[trigger] entries[i], uid)
        }),
    decreases n,
{
    if n > 0 {
        lemma_candidates(entries, uid, n - 1);
        let before = ipc::candidates(entries, uid, n - 1);
        let found = ipc::candidates(entries, uid, n);
        if ipc::is_candidate(entries[n - 1], uid) {
            assert(listens(entries[n - 1], uid));
            if found.len() == 1 {
                assert(before.len() == 0);
                assert(entries[n - 1].name == found[0]);
            }
        } else {
            assert(!listens(entries[n - 1], uid));
            if found.len() == 1 {
                let k = choose|k: int|
                    0 <= k < n - 1 && listens(#[trigger] entries[k], uid) && entries[k].name
                        == found[0] && forall|i: int|
                        0 <= i < n - 1 && i != k ==> !listens(#[trigger] entries[i], uid);
                assert(listens(entries[k], uid));
            }
        }
    }
}

proof fn lemma_single_candidate(entries: Seq<EntryView>, uid: u32, n: int, k: int)
    requires
        0 <= k < n <= entries.len(),
        listens(entries[k], uid),
        forall|i: int| 0 <= i < n && i != k ==> !listens(#[trigger] entries[i], uid),
    ensures
        ipc::candidates(entries, uid, n) == seq![entries[k].name],
    decreases n,
{
    if k == n - 1 {
        lemma_candidates(entries, uid, n - 1);
        assert(ipc::candidates(entries, uid, n) =~= seq![entries[k].name]);
    } else {
        assert(!listens(entries[n - 1], uid));
        lemma_single_candidate(entries, uid, n - 1, k);
    }
}

/// An instance is found exactly where it is the only one of the user that listens.
pub proof fn law_only_instance_is_found(
    runtime_dir: Seq<char>,
    entries: Seq<EntryView>,
    uid: u32,
    name: Seq<char>,
)
    ensures
        ipc::discovered_among(runtime_dir, entries, uid) == Ok::<_, Seq<char>>(name)
            <==> exists|k: int|
            0 <= k < entries.len() && listens(#[trigger] entries[k], uid) && entries[k].name
                == name && forall|i: int|
                0 <= i < entries.len() && i != k ==> !listens(#[trigger] entries[i], uid),
{
    lemma_candidates(entries, uid, entries.len() as int);
    if exists|k: int|
        0 <= k < entries.len() && listens(#[trigger] entries[k], uid) && entries[k].name == name
            && forall|i: int|
            0 <= i < entries.len() && i != k ==> !listens(#[trigger] entries[i], uid) {
        let k = choose|k: int|
            0 <= k < entries.len() && listens(#[trigger] entries[k], uid) && entries[k].name
                == name && forall|i: int|
                0 <= i < entries.len() && i != k ==> !listens(#[trigger] entries[i], uid);
        lemma_single_candidate(entries, uid, entries.len() as int, k);
    }
}

/// The socket that is connected to is that of the instance that was configured, where it
/// listens and its directory is the user's own or does not exist; where it does not
/// listen, or none was configured, that of the only instance that does.
pub proof fn law_configured_instance_comes_first(
    runtime_dir: Seq<char>,
    configured: Option<ConfiguredInstance>,
    entries: Seq<EntryView>,
    uid: u32,
    socket: Seq<char>,
)
    requires
        ipc::resolved(runtime_dir, configured, entries, uid) == Ok::<_, Seq<char>>(socket),
    ensures
        configured matches Some(instance) ==> instance.signature@.len() > 0 ==> {
            &&& instance.directory matches Some(facts) ==> own_directory(facts, uid)
            &&& ipc::signature_error(instance.signature@) is None
            &&& instance.live ==> socket == ipc::socket_in(runtime_dir, instance.signature@)
        },
        configured is None || configured->0.signature@.len() == 0 || !configured->0.live
            ==> exists|k: int|
            0 <= k < entries.len() && listens(#[trigger] entries[k], uid) && socket
                == ipc::socket_in(runtime_dir, entries[k].name) && forall|i: int|
                0 <= i < entries.len() && i != k ==> !listens(#[trigger] entries[i], uid),
{
    if configured is None || configured->0.signature@.len() == 0 || !configured->0.live {
        let name = ipc::discovered_among(runtime_dir, entries, uid)->Ok_0;
        law_only_instance_is_found(runtime_dir, entries, uid, name);
        let k = choose|k: int|
            0 <= k < entries.len() && listens(#[trigger] entries[k], uid) && entries[k].name
                == name && forall|i: int|
                0 <= i < entries.len() && i != k ==> !listens(#[trigger] entries[i], uid);
        assert(listens(entries[k], uid));
    }
}

/// The socket of an instance stands in the directory of the instance, below that of the
/// compositor in the runtime directory.
pub proof fn law_sockets_stand_below_the_runtime_directory(
    runtime_dir: Seq<char>,
    signature: Seq<char>,
)
    requires
        runtime_dir.len() > 0,
        runtime_dir.last() != '/',
        signature.len() > 0,
        signature[0] != '/',
        signature.last() != '/',
    ensures
        ipc::socket_in(runtime_dir, signature) == runtime_dir + "/hypr/"@ + signature
            + "/.socket2.sock"@,
{
    reveal_strlit("hypr");
    reveal_strlit("/");
    reveal_strlit("/hypr/");
    reveal_strlit(".socket2.sock");
    reveal_strlit("/.socket2.sock");
    let a = runtime_dir + "/"@ + "hypr"@;
    assert(a.last() == 'r');
    let b = a + "/"@ + signature;
    assert(b.last() == signature.last());
    assert(ipc::socket_in(runtime_dir, signature) == b + "/"@ + ".socket2.sock"@);
    assert(b + "/"@ + ".socket2.sock"@ =~= runtime_dir + "/hypr/"@ + signature
        + "/.socket2.sock"@);
}

/// A signature without a slash is accepted exactly where it is not empty and leads neither
/// nowhere nor up; one that begins at the root is refused.
pub proof fn law_signatures_are_names(signature: Seq<char>)
    ensures
        !signature.contains('/') ==> (ipc::signature_error(signature) is None <==> signature.len()
            > 0 && signature != "."@ && signature != ".."@),
        signature.len() > 0 && signature[0] == '/' ==> ipc::signature_error(signature) is Some,
{
    let parts = lines::parts(signature, '/');
    if !signature.contains('/') {
        let alone = seq![signature];
        assert(text::joined(alone, seq!['/']) == signature);
        lines::law_joined_parts_come_apart(alone, '/');
        assert(parts == alone);
    }
    if signature.len() > 0 && signature[0] == '/' {
        lines::law_parts_rejoin(signature, '/');
        if parts[0].len() > 0 {
            lemma_joined_begins(parts, '/');
            assert(!parts[0].contains('/'));
            assert(parts[0].contains(parts[0][0]));
        }
    }
}

proof fn lemma_joined_begins(parts: Seq<Seq<char>>, c: char)
    requires
        parts.len() > 0,
        parts[0].len() > 0,
    ensures
        text::joined(parts, seq![c]).len() > 0,
        text::joined(parts, seq![c])[0] == parts[0][0],
    decreases parts.len(),
{
    if parts.len() > 1 {
        lemma_joined_begins(parts.drop_last(), c);
    }
}

} // verus!
