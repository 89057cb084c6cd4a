//! The user service that runs the daemon.
use vstd::prelude::*;

use crate::error;
use crate::error::Error;
use crate::lines;
use crate::path;
use crate::text;

verus! {

/// How long the service manager may take, in milliseconds.
pub const SYSTEMCTL_TIMEOUT: u64 = 15_000;

/// The most that is read of its replies, in bytes.
pub const SYSTEMCTL_OUTPUT_LIMIT: usize = 262_144;

/// How the service is installed.
#[derive(Debug, Clone, Copy, PartialEq, Eq, Structural)]
pub struct SystemdInstallOptions {
    pub enable: bool,
    pub start: bool,
    pub dry_run: bool,
    pub unattended: bool,
}

/// What was installed.
#[derive(Debug, PartialEq, Eq)]
pub struct SystemdInstallResult {
    pub service_path: String,
    pub service_contents: String,
    pub wrote_file: bool,
    pub enabled: bool,
    pub started: bool,
}

// ---------------------------------------------------------------------------
// Places
// ---------------------------------------------------------------------------
/// The directory of user services: the one that is set, or the one below the
/// directory of settings.
pub open spec fn user_dir(chosen: Option<Seq<char>>, config_dir: Option<Seq<char>>) -> Result<
    Seq<char>,
    Seq<char>,
> {
    match chosen {
        Some(dir) => if dir.len() == 0 {
            Err("HYPRDISJUST_SYSTEMD_USER_DIR must not be empty"@)
        } else {
            Ok(dir)
        },
        None => match config_dir {
            None => Err("could not determine the user config directory"@),
            Some(dir) => Ok(path::below(path::below(dir, "systemd"@), "user"@)),
        },
    }
}

/// What an optional text holds.
pub open spec fn given(value: Option<String>) -> Option<Seq<char>> {
    match value {
        Some(value) => Some(value@),
        None => None,
    }
}

/// The directory of user services.
pub fn systemd_user_dir(chosen: Option<String>, config_dir: Option<String>) -> (result: Result<
    String,
    Error,
>)
    ensures
        error::outcome(result) == user_dir(given(chosen), given(config_dir)),
        error::plainly(result),
{
    match chosen {
        Some(dir) => if dir.as_str().unicode_len() == 0 {
            Err(Error::new("HYPRDISJUST_SYSTEMD_USER_DIR must not be empty".to_owned()))
        } else {
            Ok(dir)
        },
        None => match config_dir {
            None => Err(Error::new("could not determine the user config directory".to_owned())),
            Some(dir) => Ok(path::join(path::join(dir.as_str(), "systemd").as_str(), "user")),
        },
    }
}

/// The file of the service.
pub fn user_service_path(chosen: Option<String>, config_dir: Option<String>) -> (result: Result<
    String,
    Error,
>)
    ensures
        error::outcome(result) == (match user_dir(given(chosen), given(config_dir)) {
            Ok(dir) => Ok(path::below(dir, "hyprdisjust.service"@)),
            Err(reason) => Err(reason),
        }),
        error::plainly(result),
{
    match systemd_user_dir(chosen, config_dir) {
        Ok(dir) => Ok(path::join(dir.as_str(), "hyprdisjust.service")),
        Err(error) => Err(error),
    }
}

// ---------------------------------------------------------------------------
// The unit
// ---------------------------------------------------------------------------
/// `c` has a meaning to the service manager that cannot be taken from it.
pub open spec fn is_special(c: char) -> bool {
    c == '%' || c == '$' || c == '"' || c == '\\'
}

/// `c` may stand in a command without quotes.
pub open spec fn is_plain(c: char) -> bool {
    ||| 'a' <= c <= 'z'
    ||| 'A' <= c <= 'Z'
    ||| text::digit(c)
    ||| c == '/'
    ||| c == '.'
    ||| c == '_'
    ||| c == '+'
    ||| c == '-'
}

/// Some character of `s` is special.
pub open spec fn has_special(s: Seq<char>) -> bool {
    exists|i: int| 0 <= i < s.len() && is_special(#[trigger] s[i])
}

/// Every character of `s` is plain.
pub open spec fn all_plain(s: Seq<char>) -> bool {
    forall|i: int| 0 <= i < s.len() ==> is_plain(#[trigger] s[i])
}

/// Why `exe` cannot be run by the service.
pub open spec fn exe_error(exe: Seq<char>) -> Option<Seq<char>> {
    if text::has_control(exe) {
        Some("systemd executable path must not contain control characters"@)
    } else if has_special(exe) {
        Some(
            "systemd executable path contains unsupported `%`, `$`, quote, or backslash characters"@,
        )
    } else {
        None
    }
}

/// `exe` as it stands in a unit.
pub open spec fn quoted(exe: Seq<char>) -> Seq<char> {
    if all_plain(exe) {
        exe
    } else {
        "\""@ + exe + "\""@
    }
}

/// The unit that runs `exe`.
pub open spec fn service_text(exe: Seq<char>, unattended: bool) -> Seq<char> {
    "[Unit]\nDescription=HyprDisJust monitor profile daemon\nAfter=graphical-session.target\n\n[Service]\nExecStart="@
        + quoted(exe) + " daemon"@ + (if unattended {
        " --unattended"@
    } else {
        ""@
    }) + "\nRestart=on-failure\n\n[Install]\nWantedBy=default.target\n"@
}

fn contains_special(s: &str) -> (result: bool)
    ensures
        result == has_special(s@),
{
    let chars: Vec<char> = text::chars_of(s);
    let mut i: usize = 0;
    while i < chars.len()
        invariant
            i <= chars@.len(),
            chars@ == s@,
            forall|j: int| 0 <= j < i ==> !is_special(#[trigger] s@[j]),
        decreases chars@.len() - i,
    {
        let c: char = chars[i];
        if c == '%' || c == '$' || c == '"' || c == '\\' {
            assert(is_special(s@[i as int]));
            return true;
        }
        i += 1;
    }
    false
}

fn is_all_plain(s: &str) -> (result: bool)
    ensures
        result == all_plain(s@),
{
    let chars: Vec<char> = text::chars_of(s);
    let mut i: usize = 0;
    while i < chars.len()
        invariant
            i <= chars@.len(),
            chars@ == s@,
            forall|j: int| 0 <= j < i ==> is_plain(#[trigger] s@[j]),
        decreases chars@.len() - i,
    {
        let c: char = chars[i];
        if !(('a' <= c && c <= 'z') || ('A' <= c && c <= 'Z') || ('0' <= c && c <= '9') || c == '/'
            || c == '.' || c == '_' || c == '+' || c == '-') {
            assert(!is_plain(s@[i as int]));
            return false;
        }
        i += 1;
    }
    true
}

fn quote_systemd_arg(exe: &str) -> (result: Result<String, Error>)
    ensures
        error::refused_as(result, exe_error(exe@)),
        result matches Ok(word) ==> word@ == quoted(exe@),
{
    if text::contains_control(exe) {
        return Err(
            Error::new("systemd executable path must not contain control characters".to_owned()),
        );
    }
    if contains_special(exe) {
        return Err(
            Error::new(
                "systemd executable path contains unsupported `%`, `$`, quote, or backslash characters".to_owned(),
            ),
        );
    }
    if is_all_plain(exe) {
        return Ok(exe.to_owned());
    }
    Ok("\"".to_owned().concat(exe).concat("\""))
}

/// The unit that runs `exe`.
pub fn render_user_service(exe: &str, unattended: bool) -> (result: Result<String, Error>)
    ensures
        error::refused_as(result, exe_error(exe@)),
        result matches Ok(contents) ==> contents@ == service_text(exe@, unattended),
{
    let word: String = match quote_systemd_arg(exe) {
        Ok(word) => word,
        Err(error) => {
            return Err(error);
        },
    };
    let argument: &str = if unattended {
        " --unattended"
    } else {
        ""
    };
    Ok(
        "[Unit]\nDescription=HyprDisJust monitor profile daemon\nAfter=graphical-session.target\n\n[Service]\nExecStart=".to_owned().concat(
            word.as_str(),
        ).concat(" daemon").concat(argument).concat(
            "\nRestart=on-failure\n\n[Install]\nWantedBy=default.target\n",
        ),
    )
}

/// One of the lines of `contents` begins with `required`.
pub open spec fn has_line(contents: Seq<char>, required: Seq<char>) -> bool {
    exists|i: int|
        0 <= i < lines::lines_of(contents).len() && text::begins(
            #[trigger] lines::lines_of(contents)[i],
            required,
        )
}

/// Why `contents` are no unit.
pub open spec fn unit_error(contents: Seq<char>) -> Option<Seq<char>> {
    if contents.contains('\0') || contents.contains('\r') {
        Some("generated systemd unit contains unsupported control characters"@)
    } else if !has_line(contents, "[Unit]"@) {
        Some("generated systemd unit is missing `[Unit]`"@)
    } else if !has_line(contents, "[Service]"@) {
        Some("generated systemd unit is missing `[Service]`"@)
    } else if !has_line(contents, "ExecStart="@) {
        Some("generated systemd unit is missing `ExecStart=`"@)
    } else if !has_line(contents, "[Install]"@) {
        Some("generated systemd unit is missing `[Install]`"@)
    } else {
        None
    }
}

fn contains_line(all: &Vec<String>, required: &str) -> (result: bool)
    ensures
        result == exists|i: int|
            0 <= i < text::texts(all@).len() && text::begins(
                #[trigger] text::texts(all@)[i],
                required@,
            ),
{
    let ghost views = text::texts(all@);
    let mut i: usize = 0;
    while i < all.len()
        invariant
            i <= all@.len(),
            views == text::texts(all@),
            forall|j: int| 0 <= j < i ==> !text::begins(#[trigger] views[j], required@),
        decreases all@.len() - i,
    {
        assert(views[i as int] == all@[i as int]@);
        if text::starts_with(all[i].as_str(), required) {
            assert(text::begins(views[i as int], required@));
            return true;
        }
        i += 1;
    }
    false
}

/// Whether `contents` are a unit.
pub fn verify_service_contents(contents: &str) -> (result: Result<(), Error>)
    ensures
        error::refused_as(result, unit_error(contents@)),
{
    if text::contains_char(contents, '\0') || text::contains_char(contents, '\r') {
        return Err(
            Error::new("generated systemd unit contains unsupported control characters".to_owned()),
        );
    }
    let all: Vec<String> = lines::lines(contents);
    if !contains_line(&all, "[Unit]") {
        return Err(Error::new("generated systemd unit is missing `[Unit]`".to_owned()));
    }
    if !contains_line(&all, "[Service]") {
        return Err(Error::new("generated systemd unit is missing `[Service]`".to_owned()));
    }
    if !contains_line(&all, "ExecStart=") {
        return Err(Error::new("generated systemd unit is missing `ExecStart=`".to_owned()));
    }
    if !contains_line(&all, "[Install]") {
        return Err(Error::new("generated systemd unit is missing `[Install]`".to_owned()));
    }
    Ok(())
}

// ---------------------------------------------------------------------------
// Installing
// ---------------------------------------------------------------------------
/// What is asked of the service manager, each a list of arguments: that it
/// looks again, that it enables the service, that it starts it.
pub open spec fn manager_calls(options: SystemdInstallOptions) -> Seq<Seq<Seq<char>>> {
    if options.dry_run {
        seq![]
    } else {
        seq![seq!["daemon-reload"@]] + (if options.enable {
            seq![seq!["enable"@, "hyprdisjust.service"@]]
        } else {
            seq![]
        }) + (if options.start {
            seq![seq!["start"@, "hyprdisjust.service"@]]
        } else {
            seq![]
        })
    }
}

/// What lists of arguments hold.
pub open spec fn call_views(calls: Seq<Vec<String>>) -> Seq<Seq<Seq<char>>> {
    calls.map_values(|call: Vec<String>| text::texts(call@))
}

/// What is asked of the service manager.
pub fn systemctl_calls(options: SystemdInstallOptions) -> (result: Vec<Vec<String>>)
    ensures
        call_views(result@) == manager_calls(options),
{
    let mut calls: Vec<Vec<String>> = Vec::new();
    if !options.dry_run {
        let mut reload: Vec<String> = Vec::new();
        reload.push("daemon-reload".to_owned());
        assert(text::texts(reload@) =~= seq!["daemon-reload"@]);
        calls.push(reload);
        assert(call_views(calls@) =~= seq![seq!["daemon-reload"@]]);
        if options.enable {
            let ghost before = call_views(calls@);
            let mut enable: Vec<String> = Vec::new();
            enable.push("enable".to_owned());
            enable.push("hyprdisjust.service".to_owned());
            assert(text::texts(enable@) =~= seq!["enable"@, "hyprdisjust.service"@]);
            calls.push(enable);
            assert(call_views(calls@) =~= before.push(seq!["enable"@, "hyprdisjust.service"@]));
        }
        if options.start {
            let ghost before = call_views(calls@);
            let mut start: Vec<String> = Vec::new();
            start.push("start".to_owned());
            start.push("hyprdisjust.service".to_owned());
            assert(text::texts(start@) =~= seq!["start"@, "hyprdisjust.service"@]);
            calls.push(start);
            assert(call_views(calls@) =~= before.push(seq!["start"@, "hyprdisjust.service"@]));
        }
    }
    assert(call_views(calls@) =~= manager_calls(options));
    calls
}

/// What the service manager refuses, in words.
pub fn systemctl_failure(arguments: &Vec<String>, status: &str, details: &str) -> (result: Error)
    ensures
        result.head() == result@,
        result@ == "`systemctl --user "@ + text::joined(text::texts(arguments@), " "@)
            + "` failed with status "@ + status@ + (if details@.len() == 0 {
            ""@
        } else {
            ": "@
        }) + details@,
{
    let separator: &str = if details.unicode_len() == 0 {
        ""
    } else {
        ": "
    };
    Error::new(
        "`systemctl --user ".to_owned().concat(text::join(arguments, " ").as_str()).concat(
            "` failed with status ",
        ).concat(status).concat(separator).concat(details),
    )
}

/// What will have been installed once everything that was asked for is done.
pub fn install_result(
    service_path: String,
    service_contents: String,
    options: SystemdInstallOptions,
) -> (result: SystemdInstallResult)
    ensures
        result.service_path@ == service_path@,
        result.service_contents@ == service_contents@,
        result.wrote_file == !options.dry_run,
        result.enabled == (options.enable && !options.dry_run),
        result.started == (options.start && !options.dry_run),
{
    SystemdInstallResult {
        service_path,
        service_contents,
        wrote_file: !options.dry_run,
        enabled: options.enable && !options.dry_run,
        started: options.start && !options.dry_run,
    }
}

/// A unit that runs an admitted executable is accepted as a unit.
pub proof fn law_rendered_units_are_accepted(exe: Seq<char>, unattended: bool)
    requires
        exe_error(exe) is None,
    ensures
        unit_error(service_text(exe, unattended)) is None,
{
    let head =
        "[Unit]\nDescription=HyprDisJust monitor profile daemon\nAfter=graphical-session.target\n\n[Service]\nExecStart="@;
    let tail = "\nRestart=on-failure\n\n[Install]\nWantedBy=default.target\n"@;
    let option = if unattended {
        " --unattended"@
    } else {
        ""@
    };
    reveal_strlit(
        "[Unit]\nDescription=HyprDisJust monitor profile daemon\nAfter=graphical-session.target\n\n[Service]\nExecStart=",
    );
    reveal_strlit("\nRestart=on-failure\n\n[Install]\nWantedBy=default.target\n");
    reveal_strlit(" --unattended");
    reveal_strlit("");
    reveal_strlit(" daemon");
    reveal_strlit("\"");
    reveal_strlit("[Unit]");
    reveal_strlit("[Service]");
    reveal_strlit("ExecStart=");
    reveal_strlit("[Install]");
    let command = quoted(exe) + " daemon"@ + option;
    let unit = service_text(exe, unattended);
    assert(unit =~= head + command + tail);
    assert forall|i: int| 0 <= i < unit.len() implies unit[i] != '\0' && unit[i] != '\r' by {
        if i < head.len() {
            assert(unit[i] == head[i]);
        } else if i < head.len() + command.len() {
            let j = i - head.len();
            assert(unit[i] == command[j]);
            if j < quoted(exe).len() {
                assert(command[j] == quoted(exe)[j]);
                let k = if all_plain(exe) {
                    j
                } else {
                    j - 1
                };
                if 0 <= k < exe.len() {
                    assert(quoted(exe)[j] == exe[k]);
                    assert(!text::control(exe[k]));
                }
            }
        } else {
            assert(unit[i] == tail[i - head.len() - command.len()]);
        }
    }
    assert(unit.subrange(0, 6) =~= "[Unit]"@);
    lines::law_line_begins(unit, 0, "[Unit]"@);
    let service = head.len() - 20;
    assert(unit[service - 1] == head[service - 1]);
    assert(unit.subrange(service, service + 9) =~= "[Service]"@);
    lines::law_line_begins(unit, service, "[Service]"@);
    let start = head.len() - 10;
    assert(unit[start - 1] == head[start - 1]);
    assert(unit.subrange(start, start + 10) =~= "ExecStart="@);
    lines::law_line_begins(unit, start, "ExecStart="@);
    let install = (head.len() + command.len() + 21) as int;
    assert(unit[install - 1] == tail[20]);
    assert(unit.subrange(install, install + 9) =~= "[Install]"@);
    lines::law_line_begins(unit, install, "[Install]"@);
}

} // verus!
