//! What the service runs, and which settings there are.
use vstd::prelude::*;

use crate::cli;
use crate::cli::ApplyTarget;
use crate::config;
use crate::config::{AppConfig, ConfigView};
use crate::error::Error;
use crate::hyprland::hyprctl;
use crate::hyprland::hyprctl::{CommandRequest, HyprctlClient};
use crate::path;
use crate::profile::validation;
use crate::systemd;
use crate::systemd::{SystemdInstallOptions, SystemdInstallResult};
use crate::text;

verus! {

// ---------------------------------------------------------------------------
// The service
// ---------------------------------------------------------------------------
/// A service runs the daemon of the program it was made for, without confirmation exactly
/// where that was asked for, and is started again when it fails.
pub proof fn law_services_run_the_daemon(exe: Seq<char>, unattended: bool)
    ensures
        text::holds(
            systemd::service_text(exe, unattended),
            "\nExecStart="@ + systemd::quoted(exe) + (if unattended {
                " daemon --unattended\n"@
            } else {
                " daemon\n"@
            }),
        ),
        text::holds(systemd::service_text(exe, unattended), "\nRestart=on-failure\n"@),
        text::holds(systemd::service_text(exe, unattended), "\nWantedBy=default.target\n"@),
{
    let head =
        "[Unit]\nDescription=HyprDisJust monitor profile daemon\nAfter=graphical-session.target\n\n[Service]"@;
    let run = "\nExecStart="@ + systemd::quoted(exe) + (if unattended {
        " daemon --unattended\n"@
    } else {
        " daemon\n"@
    });
    let restart = "Restart=on-failure\n"@;
    let install = "\n[Install]"@;
    let wanted = "\nWantedBy=default.target\n"@;
    lemma_service_words();
    let s = systemd::service_text(exe, unattended);
    let command = systemd::quoted(exe);
    if unattended {
        assert(s =~= head + ("\nExecStart="@ + command + " daemon --unattended\n"@) + (restart
            + install + wanted));
    } else {
        assert(s =~= head + ("\nExecStart="@ + command + " daemon\n"@) + (restart + install
            + wanted));
    }
    lemma_holds(head, run, restart + install + wanted);
    let at = (head + run).len() - 1;
    reveal_strlit("\nRestart=on-failure\n");
    reveal_strlit("Restart=on-failure\n");
    reveal_strlit(" daemon --unattended\n");
    reveal_strlit(" daemon\n");
    assert(run.last() == '\n');
    let before = (head + run).drop_last();
    assert(head + run + (restart + install + wanted) =~= before + "\nRestart=on-failure\n"@ + (
    install + wanted)) by {
        assert("\nRestart=on-failure\n"@ =~= seq!['\n'] + restart);
        assert(head + run =~= before + seq!['\n']);
    }
    lemma_holds(before, "\nRestart=on-failure\n"@, install + wanted);
    assert(head + run + (restart + install + wanted) =~= (head + run + restart + install) + wanted
        + Seq::<char>::empty());
    lemma_holds(head + run + restart + install, wanted, Seq::<char>::empty());
}

pub(crate) proof fn lemma_holds(before: Seq<char>, part: Seq<char>, after: Seq<char>)
    ensures
        text::holds(before + part + after, part),
{
    let s = before + part + after;
    let at = before.len() as int;
    assert(s.subrange(at, at + part.len()) =~= part);
}

proof fn lemma_service_words()
    ensures
        "[Unit]\nDescription=HyprDisJust monitor profile daemon\nAfter=graphical-session.target\n\n[Service]\nExecStart="@
            == "[Unit]\nDescription=HyprDisJust monitor profile daemon\nAfter=graphical-session.target\n\n[Service]"@
            + "\nExecStart="@,
        " daemon"@ + " --unattended"@ + "\n"@ == " daemon --unattended\n"@,
        " daemon"@ + ""@ + "\n"@ == " daemon\n"@,
        "\nRestart=on-failure\n\n[Install]\nWantedBy=default.target\n"@ == "\n"@
            + "Restart=on-failure\n"@ + "\n[Install]"@ + "\nWantedBy=default.target\n"@,
{
    reveal_strlit("[Unit]\nDescription=HyprDisJust monitor profile daemon\nAfter=graphical-session.target\n\n[Service]\nExecStart=");
    reveal_strlit("[Unit]\nDescription=HyprDisJust monitor profile daemon\nAfter=graphical-session.target\n\n[Service]");
    reveal_strlit("\nExecStart=");
    reveal_strlit(" daemon");
    reveal_strlit(" --unattended");
    reveal_strlit("\n");
    reveal_strlit("");
    reveal_strlit(" daemon --unattended\n");
    reveal_strlit(" daemon\n");
    reveal_strlit("\nRestart=on-failure\n\n[Install]\nWantedBy=default.target\n");
    reveal_strlit("Restart=on-failure\n");
    reveal_strlit("\n[Install]");
    reveal_strlit("\nWantedBy=default.target\n");
    assert("[Unit]\nDescription=HyprDisJust monitor profile daemon\nAfter=graphical-session.target\n\n[Service]\nExecStart="@
        =~= "[Unit]\nDescription=HyprDisJust monitor profile daemon\nAfter=graphical-session.target\n\n[Service]"@
        + "\nExecStart="@);
    assert(" daemon"@ + " --unattended"@ + "\n"@ =~= " daemon --unattended\n"@);
    assert(" daemon"@ + ""@ + "\n"@ =~= " daemon\n"@);
    assert("\nRestart=on-failure\n\n[Install]\nWantedBy=default.target\n"@ =~= "\n"@
        + "Restart=on-failure\n"@ + "\n[Install]"@ + "\nWantedBy=default.target\n"@);
}

/// The service stands in the directory that was chosen for services, else below the
/// directory for settings; an empty choice is refused, and so is having neither.
pub proof fn law_services_stand_where_chosen(
    chosen: Option<Seq<char>>,
    config_dir: Option<Seq<char>>,
)
    requires
        config_dir matches Some(dir) ==> dir.len() > 0 && dir.last() != '/',
    ensures
        systemd::user_dir(chosen, config_dir) is Ok <==> (chosen matches Some(dir) && dir.len() > 0)
            || (chosen is None && config_dir is Some),
        chosen matches Some(dir) ==> (systemd::user_dir(chosen, config_dir) matches Ok(taken)
            ==> taken == dir),
        chosen is None ==> (config_dir matches Some(dir) ==> systemd::user_dir(chosen, config_dir)
            == Ok::<Seq<char>, Seq<char>>(dir + "/systemd/user"@)),
{
    if let Some(dir) = config_dir {
        reveal_strlit("systemd");
        reveal_strlit("user");
        reveal_strlit("/systemd/user");
        law_parts_stand_below(dir, "systemd"@);
        let below = path::below(dir, "systemd"@);
        assert(below.last() == 'd');
        law_parts_stand_below(below, "user"@);
        assert(below + seq!['/'] + "user"@ =~= dir + "/systemd/user"@);
    }
}

/// A program whose path is made of letters, digits and a few signs stands in the service
/// as it is, any other between quotes; one that holds what the service manager would
/// act on, or a control character, is refused.
pub proof fn law_programs_are_quoted_where_needed(exe: Seq<char>)
    ensures
        systemd::exe_error(exe) is None <==> forall|i: int|
            0 <= i < exe.len() ==> {
                let c = #[trigger] exe[i];
                &&& c != '%' && c != '$' && c != '"' && c != '\\'
                &&& c as u32 >= 0x20 && !(0x7f <= c as u32 <= 0x9f)
            },
        systemd::quoted(exe) == exe || systemd::quoted(exe) == seq!['"'] + exe + seq!['"'],
        exe.contains(' ') ==> systemd::quoted(exe) == seq!['"'] + exe + seq!['"'],
{
    reveal_strlit("\"");
    assert("\""@ =~= seq!['"']);
    if systemd::exe_error(exe) is None {
        assert forall|i: int| 0 <= i < exe.len() implies {
            let c = #[trigger] exe[i];
            &&& c != '%' && c != '$' && c != '"' && c != '\\'
            &&& c as u32 >= 0x20 && !(0x7f <= c as u32 <= 0x9f)
        } by {
            assert(!systemd::is_special(exe[i]));
            assert(!text::control(exe[i]));
        }
    } else if text::has_control(exe) {
        let i = choose|i: int| 0 <= i < exe.len() && text::control(#[trigger] exe[i]);
        assert(exe[i] as u32 <= 0x1f || 0x7f <= exe[i] as u32 <= 0x9f);
    } else {
        let i = choose|i: int| 0 <= i < exe.len() && systemd::is_special(#[trigger] exe[i]);
        assert(exe[i] == '%' || exe[i] == '$' || exe[i] == '"' || exe[i] == '\\');
    }
    if exe.contains(' ') {
        let i = choose|i: int| 0 <= i < exe.len() && exe[i] == ' ';
        assert(!systemd::is_plain(exe[i]));
    }
}

/// The service manager looks again before it enables and starts the service, enables and
/// starts it only where that was asked for, and is left alone in a rehearsal.
pub proof fn law_manager_does_what_was_asked(options: SystemdInstallOptions)
    ensures
        ({
            let calls = systemd::manager_calls(options);
            &&& options.dry_run <==> calls.len() == 0
            &&& !options.dry_run ==> calls[0] == seq!["daemon-reload"@]
            &&& !options.dry_run ==> calls.len() == 1 + (if options.enable {
                1int
            } else {
                0int
            }) + (if options.start {
                1int
            } else {
                0int
            })
            &&& !options.dry_run && options.enable ==> calls[1] == seq![
                "enable"@,
                "hyprdisjust.service"@,
            ]
            &&& !options.dry_run && options.start ==> calls.last() == seq![
                "start"@,
                "hyprdisjust.service"@,
            ]
        }),
{
}

/// What is said to have been written, enabled and started was asked for, and not in a
/// rehearsal.
pub proof fn law_installations_are_told_as_they_were(
    service_path: String,
    service_contents: String,
    options: SystemdInstallOptions,
    result: SystemdInstallResult,
)
    requires
        call_ensures(
            systemd::install_result,
            (service_path, service_contents, options),
            result,
        ),
    ensures
        result.wrote_file <==> !options.dry_run,
        result.enabled <==> options.enable && !options.dry_run,
        result.started <==> options.start && !options.dry_run,
{
}

// ---------------------------------------------------------------------------
// Settings
// ---------------------------------------------------------------------------
/// Settings are accepted exactly where an output is nudged by one to ten thousand pixels,
/// it must stay quiet for at most a minute, and the fallback, if there is one, has a
/// proper name.
pub proof fn law_accepted_settings(settings: ConfigView)
    ensures
        config::config_error(settings) is None <==> {
            &&& 1 <= settings.tui_move_step <= 10_000
            &&& settings.debounce_ms <= 60_000
            &&& settings.fallback_profile matches Some(name) ==> validation::name_error(name)
                is None
        },
{
}

/// Where no settings are given, an event is followed by nine tenths of a second of quiet,
/// nothing is applied at the start, an output is nudged by twenty pixels, and there is no
/// fallback. Such settings are accepted.
pub proof fn law_settings_by_default(settings: AppConfig)
    requires
        call_ensures(<AppConfig as Default>::default, (), settings),
    ensures
        settings.debounce_ms == 900,
        !settings.apply_on_start,
        settings.tui_move_step == 20,
        settings.fallback_profile is None,
        config::config_error(settings@) is None,
{
}

/// The settings and the saved profiles stand in the directory for settings.
pub proof fn law_files_stand_in_the_directory(dir: Seq<char>)
    requires
        dir.len() > 0,
        dir.last() != '/',
    ensures
        config::paths_in(dir).config_dir == dir,
        config::paths_in(dir).config_file == dir + "/config.toml"@,
        config::paths_in(dir).profile_store == dir + "/profiles.toml"@,
{
    reveal_strlit("/");
    reveal_strlit("config.toml");
    reveal_strlit("/config.toml");
    reveal_strlit("profiles.toml");
    reveal_strlit("/profiles.toml");
    assert(dir + "/"@ + "config.toml"@ =~= dir + "/config.toml"@);
    assert(dir + "/"@ + "profiles.toml"@ =~= dir + "/profiles.toml"@);
}

/// A part stands below a directory behind one slash, and a part that begins at the root
/// stands for itself.
pub proof fn law_parts_stand_below(base: Seq<char>, part: Seq<char>)
    requires
        part.len() > 0,
    ensures
        part[0] == '/' ==> path::below(base, part) == part,
        part[0] != '/' && base.len() > 0 && base.last() != '/' ==> path::below(base, part) == base
            + seq!['/'] + part,
        part[0] != '/' && base.len() > 0 && base.last() == '/' ==> path::below(base, part) == base
            + part,
{
    reveal_strlit("/");
    assert("/"@ =~= seq!['/']);
}

// ---------------------------------------------------------------------------
// Requests
// ---------------------------------------------------------------------------
/// A batch is handed to the compositor's own program as one argument, and may take ten
/// seconds.
pub proof fn law_batches_are_handed_over_whole(batch: Seq<char>, operation: Seq<char>)
    ensures
        ({
            let request = hyprctl::batch_request(batch, operation);
            &&& request.program == "hyprctl"@
            &&& request.arguments.len() == 2
            &&& request.arguments[0] == "--batch"@
            &&& request.arguments[1] == batch
            &&& request.timeout_ms == 10_000
        }),
{
}

/// A query asks for every monitor, the dark ones too, in a form that can be read, and may
/// take five seconds.
pub proof fn law_queries_ask_for_every_monitor(client: HyprctlClient, request: CommandRequest)
    requires
        call_ensures(HyprctlClient::monitors_all, (&client,), request),
    ensures
        request@.program == "hyprctl"@,
        request@.arguments.len() == 3,
        request@.arguments[0] == "-j"@,
        request@.arguments[1] == "monitors"@,
        request@.arguments[2] == "all"@,
        request@.timeout_ms == 5_000,
{
}

/// Either a profile is named or one is chosen: neither both nor none.
pub proof fn law_targets_are_named_or_chosen(
    name: Option<String>,
    auto: bool,
    result: Result<ApplyTarget, Error>,
)
    requires
        call_ensures(cli::apply_target, (name, auto), result),
    ensures
        result is Ok <==> (name is Some) != auto,
        result matches Ok(ApplyTarget::Named(kept)) ==> (name matches Some(given) && given@
            == kept@),
        result matches Ok(target) ==> auto ==> target is Automatic,
{
}

/// A profile is deleted without asking only where that was said; it is not deleted where
/// nobody can be asked and it was not.
pub proof fn law_deleting_needs_a_yes(name: Seq<char>, yes: bool, interactive: bool)
    ensures
        cli::delete_error(name, yes, interactive) is None <==> validation::name_error(name) is None
            && (yes || interactive),
{
}

} // verus!
