//! Which places and replies are accepted.
use vstd::prelude::*;

use crate::atomic;
use crate::atomic::{StepView, Target};
use crate::bytes;
use crate::cli;
use crate::error::Error;
use crate::hyprland::hyprctl;
use crate::hyprland::hyprctl::RunFailure;
use crate::hyprland::ipc;
use crate::hyprland::ipc::FileFacts;
use crate::lines;
use crate::path;
use crate::process;
use crate::process::BoundedOutput;
use crate::profile::apply;
use crate::profile::persist;
use crate::profile::persist::{LockDirAttempt, LockPlaceView};
use crate::profile::plan::ApplyPlan;
use crate::service_laws;
use crate::text;
use crate::tui::input;

verus! {

// ---------------------------------------------------------------------------
// Files
// ---------------------------------------------------------------------------
/// A directory is used only where it is one itself, belongs to the user, and nobody else
/// may write in it.
pub proof fn law_private_directories_are_the_users_own(
    dir: Seq<char>,
    facts: FileFacts,
    uid: u32,
)
    ensures
        atomic::private_error(dir, facts, uid) is None <==> facts.directory && !facts.symlink
            && facts.uid == uid && facts.mode & 0o020 == 0 && facts.mode & 0o002 == 0,
{
    let mode = facts.mode;
    assert(mode & 0o022 != 0 <==> mode & 0o020 != 0 || mode & 0o002 != 0) by (bit_vector);
}

proof fn lemma_components(parts: Seq<Seq<char>>, n: int, k: int)
    requires
        0 <= n <= parts.len(),
        0 <= k < atomic::components(parts, n).len(),
    ensures
        parts.contains(atomic::components(parts, n)[k]),
        atomic::components(parts, n)[k].len() > 0,
    decreases n,
{
    if n > 0 {
        let before = atomic::components(parts, n - 1);
        if k < before.len() {
            lemma_components(parts, n - 1, k);
        } else {
            assert(parts[n - 1] == atomic::components(parts, n)[k]);
        }
    }
}

/// `place` is one that goes up, or stays.
pub open spec fn leads_back(place: Seq<char>) -> bool {
    text::ends(place, seq!['/', '.', '.']) || text::ends(place, seq!['/', '.'])
}

proof fn lemma_path_of(components: Seq<Seq<char>>, n: int)
    requires
        0 <= n <= components.len(),
        forall|k: int|
            0 <= k < components.len() ==> (#[trigger] components[k]).len() > 0
                && !components[k].contains('/'),
    ensures
        atomic::path_of(true, components, n).len() > 0,
        n > 0 && atomic::is_name(components[n - 1]) ==> !leads_back(
            atomic::path_of(true, components, n),
        ),
    decreases n,
{
    reveal_strlit("/");
    reveal_strlit(".");
    reveal_strlit("..");
    assert("/"@ =~= seq!['/']);
    if n > 0 {
        lemma_path_of(components, n - 1);
        let before = atomic::path_of(true, components, n - 1);
        let last = components[n - 1];
        assert(!last.contains(last[0]) || last[0] != '/');
        assert(last.contains(last[0]));
        service_laws::law_parts_stand_below(before, last);
        let base = if before.last() == '/' {
            before
        } else {
            before + seq!['/']
        };
        let place = atomic::path_of(true, components, n);
        assert(place == base + last);
        assert(base.last() == '/');
        if atomic::is_name(last) && leads_back(place) {
            let size = place.len() as int;
            let width = last.len() as int;
            assert forall|k: int| 0 <= k < width implies #[trigger] last[k] != '/' by {
                assert(last.contains(last[k]));
            }
            assert forall|k: int| 0 <= k < width implies #[trigger] last[k] == place[size - width
                + k] by {}
            assert(place[size - width - 1] == '/');
            if text::ends(place, seq!['/', '.', '.']) {
                let tail = place.skip(size - 3);
                assert(tail[0] == '/' && tail[1] == '.' && tail[2] == '.');
                assert(place[size - 3] == '/' && place[size - 2] == '.' && place[size - 1] == '.');
                if width >= 3 {
                    assert(last[width - 3] == '/');
                } else if width == 2 {
                    assert(last =~= ".."@);
                } else {
                    assert(place[size - 2] == '/');
                }
            } else {
                let tail = place.skip(size - 2);
                assert(tail[0] == '/' && tail[1] == '.');
                assert(place[size - 2] == '/' && place[size - 1] == '.');
                if width >= 2 {
                    assert(last[width - 2] == '/');
                } else {
                    assert(last =~= "."@);
                }
            }
        }
    }
}

proof fn lemma_named(components: Seq<Seq<char>>, n: int, k: int)
    requires
        0 <= n <= components.len(),
        forall|k: int|
            0 <= k < components.len() ==> (#[trigger] components[k]).len() > 0
                && !components[k].contains('/'),
        0 <= k < atomic::named(true, components, n).len(),
    ensures
        atomic::named(true, components, n)[k] matches StepView::Present(place) && !leads_back(
            place,
        ),
    decreases n,
{
    if n > 0 {
        let before = atomic::named(true, components, n - 1);
        if k < before.len() {
            lemma_named(components, n - 1, k);
        } else {
            lemma_path_of(components, n);
        }
    }
}

/// For a directory below the root, directories are made sure of from the front, none of
/// them by a path that leads up or stays, and last the directory itself, which is made
/// private.
pub proof fn law_directories_are_made_from_the_front(dir: Seq<char>, k: int)
    requires
        dir.len() > 0,
        dir[0] == '/',
    ensures
        ({
            let steps = atomic::private_steps(dir);
            &&& steps.len() > 0
            &&& steps.last() == StepView::Private(dir)
            &&& 0 <= k < steps.len() - 1 ==> (steps[k] matches StepView::Present(place)
                && !leads_back(place))
        }),
{
    let parts = lines::parts(dir, '/');
    let components = atomic::components(parts, parts.len() as int);
    lines::law_parts_rejoin(dir, '/');
    assert forall|c: int| 0 <= c < components.len() implies (#[trigger] components[c]).len() > 0
        && !components[c].contains('/') by {
        lemma_components(parts, parts.len() as int, c);
        let p = choose|p: int| 0 <= p < parts.len() && parts[p] == components[c];
        assert(!parts[p].contains('/'));
    }
    let named = atomic::named(true, components, components.len() as int);
    if 0 <= k < named.len() {
        lemma_named(components, components.len() as int, k);
    }
}

/// A private file may be read and written by the user alone, whether it is new or takes
/// the place of another, and a private directory may be used by the user alone.
pub proof fn law_private_files_are_for_the_user_alone(
    place: &str,
    target: Target,
    result: Result<u32, Error>,
)
    requires
        call_ensures(
            atomic::replacement_mode,
            (place, target, atomic::PRIVATE_FILE_MODE),
            result,
        ),
    ensures
        result is Ok <==> !(target is Other),
        result matches Ok(mode) ==> mode & 0o177 == 0,
        result matches Ok(mode) ==> target is Missing ==> mode & 0o600 == 0o600,
        atomic::PRIVATE_DIR_MODE & 0o077 == 0,
        atomic::PRIVATE_DIR_MODE & 0o700 == 0o700,
{
    let private = atomic::PRIVATE_FILE_MODE;
    assert(0o600u32 & 0o177 == 0) by (bit_vector);
    assert(0o600u32 & 0o600 == 0o600) by (bit_vector);
    assert(0o700u32 & 0o077 == 0) by (bit_vector);
    assert(0o700u32 & 0o700 == 0o700) by (bit_vector);
    if let Target::File { mode: present } = target {
        assert((present & 0o777 & 0o600) & 0o177 == 0) by (bit_vector);
    }
}

/// A file is used only where it is a regular one and, if that is asked for, belongs to the
/// user.
pub proof fn law_used_files_are_regular(
    place: Seq<char>,
    label: Seq<char>,
    regular: bool,
    owner: u32,
    require_owner: bool,
    uid: u32,
)
    ensures
        atomic::file_error(place, label, regular, owner, require_owner, uid) is None <==> regular
            && (require_owner ==> owner == uid),
{
}

/// The lock stands in the runtime directory; where nothing can be written there it stands
/// in a directory for temporary files that bears the number of the user; and where the
/// directory is refused, so is the lock.
pub proof fn law_lock_stands_in_the_runtime_directory(
    runtime_dir: Seq<char>,
    temp_dir: Seq<char>,
    user: int,
    attempt: LockDirAttempt,
)
    requires
        runtime_dir.len() > 0,
        runtime_dir.last() != '/',
        temp_dir.len() > 0,
        temp_dir.last() != '/',
    ensures
        ({
            let place = persist::lock_place(runtime_dir, temp_dir, user, attempt);
            &&& attempt is Made ==> (place matches Ok(LockPlaceView::Ready { file }) && file
                == runtime_dir + "/hyprdisjust/apply.lock"@)
            &&& attempt is Unavailable ==> (place matches Ok(LockPlaceView::Fallback {
                directory,
                file,
            }) && directory == temp_dir + "/hyprdisjust-"@ + text::int_text(user) && file
                == directory + "/apply.lock"@)
            &&& attempt is Refused <==> place is Err
        }),
{
    reveal_strlit("hyprdisjust");
    reveal_strlit("hyprdisjust-");
    reveal_strlit("apply.lock");
    reveal_strlit("/apply.lock");
    reveal_strlit("/hyprdisjust-");
    reveal_strlit("/hyprdisjust/apply.lock");
    let ready = path::below(runtime_dir, "hyprdisjust"@);
    let own = "hyprdisjust-"@ + text::int_text(user);
    assert(own[0] == 'h');
    service_laws::law_parts_stand_below(runtime_dir, "hyprdisjust"@);
    assert(ready.last() == 't');
    service_laws::law_parts_stand_below(ready, "apply.lock"@);
    assert(ready + seq!['/'] + "apply.lock"@ =~= runtime_dir + "/hyprdisjust/apply.lock"@);
    service_laws::law_parts_stand_below(temp_dir, own);
    let fallback = path::below(temp_dir, own);
    assert(fallback =~= temp_dir + "/hyprdisjust-"@ + text::int_text(user));
    crate::number::law_written_integers_read_back(user);
    assert(text::int_text(user).len() > 0);
    let n = text::int_text(user).len() - 1;
    assert(fallback.last() == text::int_text(user)[n]);
    assert(text::digit(text::int_text(user)[n]) || text::int_text(user)[n] == '-');
    service_laws::law_parts_stand_below(fallback, "apply.lock"@);
    assert(fallback + seq!['/'] + "apply.lock"@ =~= fallback + "/apply.lock"@);
}

/// A place where something is to be made has to be a directory itself.
pub proof fn law_present_directories_are_real(
    dir: &str,
    facts: FileFacts,
    result: Result<(), Error>,
)
    requires
        call_ensures(atomic::validate_present_directory, (dir, facts), result),
    ensures
        result is Ok <==> facts.directory && !facts.symlink,
{
}

/// A file is read only where it is no larger than allowed, by what is known of it before
/// and by what was read; what was read is what is kept.
pub proof fn law_large_files_are_not_read(
    place: &str,
    label: &str,
    size: u64,
    contents: Vec<u8>,
    most: u64,
    known: Result<(), Error>,
    read: Result<Vec<u8>, Error>,
)
    requires
        call_ensures(atomic::validate_size, (place, label, size, most), known),
        call_ensures(atomic::validate_contents, (place, label, contents, most), read),
    ensures
        known is Ok <==> size <= most,
        read is Ok <==> contents@.len() <= most,
        read matches Ok(kept) ==> kept@ == contents@,
{
}

/// The saved profiles take up at most four mebibytes.
pub proof fn law_large_stores_are_not_saved(size: u64, result: Result<(), Error>)
    requires
        call_ensures(persist::accept_saved_size, (size,), result),
    ensures
        result is Ok <==> size <= 4_194_304,
{
}

/// Only what the user runs themself is listened to.
pub proof fn law_only_own_peers_are_heard(
    socket: &str,
    peer: u32,
    uid: u32,
    result: Result<(), Error>,
)
    requires
        call_ensures(ipc::validate_peer, (socket, peer, uid), result),
    ensures
        result is Ok <==> peer == uid,
{
}

/// The user can be asked only where both what is typed and what is shown is a terminal's.
pub proof fn law_questions_need_a_terminal(stdin: bool, stdout: bool, result: Result<(), Error>)
    requires
        call_ensures(apply::check_terminal, (stdin, stdout), result),
    ensures
        result is Ok <==> stdin && stdout,
{
}

/// Only the word yes, with blanks around it or without, agrees to a deletion.
pub proof fn law_only_the_word_yes_agrees(answer: &str, result: bool)
    requires
        call_ensures(cli::agrees, (answer,), result),
    ensures
        result <==> text::trimmed(answer@) == seq!['y', 'e', 's'],
{
    reveal_strlit("yes");
    assert("yes"@ =~= seq!['y', 'e', 's']);
}

/// A plan is carried out only where it is for the profile that was looked at, with the
/// same commands for the same monitors on the same connectors, and the same warnings.
pub proof fn law_only_reviewed_plans_are_carried_out(
    plan: &ApplyPlan,
    approved: &ApplyPlan,
    result: Result<(), Error>,
    i: int,
)
    requires
        call_ensures(input::review_plan, (plan, approved), result),
        result is Ok,
    ensures
        plan@.profile_name == approved@.profile_name,
        plan@.batch == approved@.batch,
        plan@.warnings == approved@.warnings,
        plan@.mappings.len() == approved@.mappings.len(),
        0 <= i < plan@.mappings.len() ==> {
            &&& plan@.mappings[i].monitor_id == approved@.mappings[i].monitor_id
            &&& plan@.mappings[i].output_name == approved@.mappings[i].output_name
            &&& plan@.mappings[i].rule == approved@.mappings[i].rule
        },
{
}

// ---------------------------------------------------------------------------
// Replies
// ---------------------------------------------------------------------------
/// A batch went well only where the compositor's program was there, ended well, and said
/// on neither stream anything but that all is well.
pub proof fn law_batches_went_well_without_complaints(
    operation: Seq<char>,
    reply: Result<BoundedOutput, RunFailure>,
)
    ensures
        hyprctl::batch_error(operation, reply) is None <==> (reply matches Ok(output)
            && output.succeeded && hyprctl::all_is_well(bytes::lossy_text(output.stderr@))
            && hyprctl::all_is_well(bytes::lossy_text(output.stdout@))),
{
    if let Ok(output) = reply {
        hyprctl::law_only_ok_is_accepted(
            bytes::lossy_text(output.stderr@),
            bytes::lossy_text(output.stdout@),
        );
    }
}

/// A query went well exactly where the compositor's program was there and ended well.
pub proof fn law_queries_went_well_where_they_ended_well(reply: Result<BoundedOutput, RunFailure>)
    ensures
        hyprctl::query_error(reply) is None <==> (reply matches Ok(output) && output.succeeded),
{
}

/// What is told of two streams begins with what stands on the one for errors, and says
/// where something was left out.
pub proof fn law_errors_are_told_first(stderr: Seq<char>, stdout: Seq<char>, truncated: bool)
    ensures
        ({
            let told = process::details_text(stderr, stdout, truncated);
            let first = text::trimmed(text::sanitized(stderr, true));
            let second = text::trimmed(text::sanitized(stdout, true));
            &&& text::begins(told, first)
            &&& first.len() == 0 ==> text::begins(told, second)
            &&& !truncated ==> text::ends(told, second)
            &&& truncated ==> text::ends(told, "[command output truncated]"@)
        }),
{
    let told = process::details_text(stderr, stdout, truncated);
    let first = text::trimmed(text::sanitized(stderr, true));
    let second = text::trimmed(text::sanitized(stdout, true));
    let note = "[command output truncated]"@;
    assert(told.take(first.len() as int) =~= first);
    assert(first.len() == 0 ==> told.take(second.len() as int) =~= second);
    assert(!truncated ==> told.skip(told.len() - second.len()) =~= second);
    assert(truncated ==> told.skip(told.len() - note.len()) =~= note);
}

} // verus!
