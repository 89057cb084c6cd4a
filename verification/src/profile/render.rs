//! Profiles as the commands that set them.
use vstd::prelude::*;

use crate::error;
use crate::error::Error;
use crate::hyprland::monitor;
use crate::hyprland::monitor::{MonitorState, MonitorView};
use crate::number;
use crate::profile::matching;
use crate::profile::matching::{MonitorMatchMode, ResolvedMonitorMatch, ResolvedView};
use crate::profile::store;
use crate::profile::store::{
    Profile, ProfileMonitor, ProfileMonitorView, ProfileOutput, ProfileOutputView, ProfileView,
};
use crate::text;

verus! {

/// The commands that set a profile, and which monitor each is for.
#[derive(Debug, PartialEq, Eq)]
pub struct RenderedMonitorRules {
    pub mappings: Vec<RuleMapping>,
    pub rules: Vec<String>,
    pub batch: String,
}

/// The command for one monitor.
#[derive(Debug, PartialEq, Eq)]
pub struct RuleMapping {
    pub monitor_id: String,
    pub output_name: String,
    pub rule: String,
}

/// What a [`RuleMapping`] holds.
#[verifier::ext_equal]
pub struct RuleView {
    pub monitor_id: Seq<char>,
    pub output_name: Seq<char>,
    pub rule: Seq<char>,
}

/// What [`RenderedMonitorRules`] hold.
#[verifier::ext_equal]
pub struct RenderedView {
    pub mappings: Seq<RuleView>,
    pub rules: Seq<Seq<char>>,
    pub batch: Seq<char>,
}

impl View for RuleMapping {
    type V = RuleView;

    open spec fn view(&self) -> RuleView {
        RuleView {
            monitor_id: self.monitor_id@,
            output_name: self.output_name@,
            rule: self.rule@,
        }
    }
}

/// What mappings hold.
pub open spec fn mapping_views(mappings: Seq<RuleMapping>) -> Seq<RuleView> {
    mappings.map_values(|mapping: RuleMapping| mapping@)
}

impl View for RenderedMonitorRules {
    type V = RenderedView;

    open spec fn view(&self) -> RenderedView {
        RenderedView {
            mappings: mapping_views(self.mappings@),
            rules: text::texts(self.rules@),
            batch: self.batch@,
        }
    }
}

impl Clone for RuleMapping {
    fn clone(&self) -> (result: Self)
        ensures
            result@ == self@,
    {
        RuleMapping {
            monitor_id: self.monitor_id.clone(),
            output_name: self.output_name.clone(),
            rule: self.rule.clone(),
        }
    }
}

impl Clone for RenderedMonitorRules {
    fn clone(&self) -> (result: Self)
        ensures
            result@ == self@,
    {
        let mut mappings: Vec<RuleMapping> = Vec::new();
        let mut i: usize = 0;
        while i < self.mappings.len()
            invariant
                i <= self.mappings@.len(),
                mapping_views(mappings@) == self@.mappings.take(i as int),
            decreases self.mappings@.len() - i,
        {
            let ghost before = mappings@;
            mappings.push(self.mappings[i].clone());
            assert(mapping_views(mappings@) =~= mapping_views(before).push(
                self.mappings@[i as int]@,
            ));
            assert(mapping_views(mappings@) =~= self@.mappings.take(i + 1));
            i += 1;
        }
        assert(self@.mappings.take(self@.mappings.len() as int) =~= self@.mappings);
        RenderedMonitorRules {
            mappings,
            rules: text::copied(&self.rules),
            batch: self.batch.clone(),
        }
    }
}

// ---------------------------------------------------------------------------
// Rules
// ---------------------------------------------------------------------------
/// `s` holds a character that separates commands.
pub open spec fn has_separator(s: Seq<char>) -> bool {
    s.contains(';') || s.contains('\n') || s.contains('\r')
}

/// Why `value` cannot be part of a command.
pub open spec fn component_error(value: Seq<char>, label: Seq<char>) -> Option<Seq<char>> {
    if has_separator(value) {
        Some(label + " must not contain command separators"@)
    } else {
        None
    }
}

/// `c` as it stands in a Lua string.
pub open spec fn escaped_char(c: char) -> Seq<char> {
    if c == '\\' || c == '"' {
        seq!['\\', c]
    } else {
        seq![c]
    }
}

/// `s` as it stands in a Lua string.
pub open spec fn escaped(s: Seq<char>) -> Seq<char>
    decreases s.len(),
{
    if s.len() == 0 {
        seq![]
    } else {
        escaped(s.drop_last()) + escaped_char(s.last())
    }
}

/// The command that switches an output off.
pub open spec fn disabled_rule(output_name: Seq<char>) -> Seq<char> {
    "hl.monitor({ output = \""@ + escaped(output_name) + "\", disabled = true })"@
}

/// The command that sets an output.
pub open spec fn enabled_rule(output_name: Seq<char>, output: ProfileOutputView) -> Seq<char> {
    "hl.monitor({ output = \""@ + escaped(output_name) + "\", disabled = false, mode = \""@
        + escaped(output.mode) + "\", position = \""@ + text::int_text(output.x as int) + "x"@
        + text::int_text(output.y as int) + "\", scale = "@ + number::decimal_text(output.scale)
        + ", transform = "@ + text::int_text(output.transform as int) + " })"@
}

/// The command for `output` on the connector `output_name`.
pub open spec fn rule_text(output_name: Seq<char>, output: ProfileOutputView) -> Seq<char> {
    if output.enabled {
        enabled_rule(output_name, output)
    } else {
        disabled_rule(output_name)
    }
}

/// Why there is no command for `output` on `output_name`.
pub open spec fn rule_error(output_name: Seq<char>, output: ProfileOutputView) -> Option<
    Seq<char>,
> {
    if component_error(output_name, "output name"@) is Some {
        component_error(output_name, "output name"@)
    } else if output.enabled {
        component_error(output.mode, "monitor mode"@)
    } else {
        None
    }
}

fn validate_batch_component(value: &str, label: &str) -> (result: Result<(), Error>)
    ensures
        error::refused_as(result, component_error(value@, label@)),
{
    if text::contains_char(value, ';') || text::contains_char(value, '\n')
        || text::contains_char(value, '\r') {
        Err(Error::new(label.to_owned().concat(" must not contain command separators")))
    } else {
        Ok(())
    }
}

fn escape_lua_string(value: &str) -> (result: String)
    ensures
        result@ == escaped(value@),
{
    let chars: Vec<char> = text::chars_of(value);
    let mut result = String::new();
    let mut i: usize = 0;
    while i < chars.len()
        invariant
            i <= chars@.len(),
            chars@ == value@,
            result@ == escaped(value@.take(i as int)),
        decreases chars@.len() - i,
    {
        let c: char = chars[i];
        let ghost before = result@;
        assert(value@.take(i + 1).drop_last() =~= value@.take(i as int));
        assert(value@.take(i + 1).last() == c);
        if c == '\\' || c == '"' {
            result.push('\\');
            result.push(c);
            assert(result@ =~= before + seq!['\\', c]);
        } else {
            result.push(c);
            assert(result@ =~= before + seq![c]);
        }
        i += 1;
    }
    assert(value@.take(value@.len() as int) =~= value@);
    result
}

fn render_disabled_monitor_rule(output_name: &str) -> (result: Result<String, Error>)
    ensures
        error::refused_as(result, component_error(output_name@, "output name"@)),
        result is Ok ==> result->Ok_0@ == disabled_rule(output_name@),
{
    match validate_batch_component(output_name, "output name") {
        Err(error) => Err(error),
        Ok(()) => Ok(
            "hl.monitor({ output = \"".to_owned().concat(
                escape_lua_string(output_name).as_str(),
            ).concat("\", disabled = true })"),
        ),
    }
}

fn render_monitor_rule(output_name: &str, output: &ProfileOutput) -> (result: Result<
    String,
    Error,
>)
    ensures
        error::refused_as(result, rule_error(output_name@, output@)),
        result is Ok ==> result->Ok_0@ == rule_text(output_name@, output@),
{
    if !output.enabled {
        return render_disabled_monitor_rule(output_name);
    }
    match validate_batch_component(output_name, "output name") {
        Err(error) => {
            return Err(error);
        },
        Ok(()) => {},
    }
    match validate_batch_component(output.mode.as_str(), "monitor mode") {
        Err(error) => {
            return Err(error);
        },
        Ok(()) => {},
    }
    Ok(
        "hl.monitor({ output = \"".to_owned().concat(
            escape_lua_string(output_name).as_str(),
        ).concat("\", disabled = false, mode = \"").concat(
            escape_lua_string(output.mode.as_str()).as_str(),
        ).concat("\", position = \"").concat(text::decimal(output.x as i128).as_str()).concat(
            "x",
        ).concat(text::decimal(output.y as i128).as_str()).concat("\", scale = ").concat(
            output.scale.text().as_str(),
        ).concat(", transform = ").concat(
            text::decimal(output.transform as i128).as_str(),
        ).concat(" })"),
    )
}

// ---------------------------------------------------------------------------
// Batches
// ---------------------------------------------------------------------------
/// Why `rule` is no command for a monitor.
pub open spec fn call_error(rule: Seq<char>) -> Option<Seq<char>> {
    if component_error(rule, "monitor Lua call"@) is Some {
        component_error(rule, "monitor Lua call"@)
    } else if !text::begins(rule, "hl.monitor({ "@) || !text::ends(rule, " })"@) {
        Some("monitor Lua call `"@ + rule + "` must be an hl.monitor table call"@)
    } else {
        None
    }
}

/// Why one of the first `n` rules is no command for a monitor.
pub open spec fn calls_error(rules: Seq<Seq<char>>, n: int) -> Option<Seq<char>>
    decreases n,
{
    if n <= 0 {
        None
    } else if calls_error(rules, n - 1) is Some {
        calls_error(rules, n - 1)
    } else {
        call_error(rules[n - 1])
    }
}

/// Why `rules` make no batch.
pub open spec fn batch_error(rules: Seq<Seq<char>>) -> Option<Seq<char>> {
    if rules.len() == 0 {
        Some("cannot render an empty Hyprland monitor batch"@)
    } else {
        calls_error(rules, rules.len() as int)
    }
}

/// The batch of `rules`.
pub open spec fn batch_text(rules: Seq<Seq<char>>) -> Seq<char> {
    text::joined(rules.map_values(|rule: Seq<char>| "eval "@ + rule), " ; "@)
}

/// Why `rules` make no file.
pub open spec fn lua_error(rules: Seq<Seq<char>>) -> Option<Seq<char>> {
    if rules.len() == 0 {
        Some("cannot render an empty Hyprland monitor Lua config"@)
    } else {
        calls_error(rules, rules.len() as int)
    }
}

fn validate_lua_monitor_call(rule: &str) -> (result: Result<(), Error>)
    ensures
        error::refused_as(result, call_error(rule@)),
{
    match validate_batch_component(rule, "monitor Lua call") {
        Err(error) => {
            return Err(error);
        },
        Ok(()) => {},
    }
    if !text::starts_with(rule, "hl.monitor({ ") || !text::ends_with(rule, " })") {
        return Err(
            Error::new(
                "monitor Lua call `".to_owned().concat(rule).concat(
                    "` must be an hl.monitor table call",
                ),
            ),
        );
    }
    Ok(())
}

proof fn lemma_calls_error_grows(rules: Seq<Seq<char>>, i: int, n: int)
    requires
        0 <= i <= n,
        calls_error(rules, i) is Some,
    ensures
        calls_error(rules, n) == calls_error(rules, i),
    decreases n,
{
    if i < n {
        lemma_calls_error_grows(rules, i, n - 1);
    }
}

fn validate_calls(rules: &Vec<String>) -> (result: Result<(), Error>)
    ensures
        error::refused_as(result, calls_error(text::texts(rules@), rules@.len() as int)),
{
    let ghost all = text::texts(rules@);
    let mut i: usize = 0;
    while i < rules.len()
        invariant
            i <= rules@.len(),
            all == text::texts(rules@),
            calls_error(all, i as int) is None,
        decreases rules@.len() - i,
    {
        assert(all[i as int] == rules@[i as int]@);
        match validate_lua_monitor_call(rules[i].as_str()) {
            Err(error) => {
                proof {
                    lemma_calls_error_grows(all, i + 1, all.len() as int);
                }
                return Err(error);
            },
            Ok(()) => {},
        }
        i += 1;
    }
    Ok(())
}

/// The rules as one batch for the compositor.
pub fn render_hyprctl_batch(rules: &Vec<String>) -> (result: Result<String, Error>)
    ensures
        error::refused_as(result, batch_error(text::texts(rules@))),
        result is Ok ==> result->Ok_0@ == batch_text(text::texts(rules@)),
{
    if rules.len() == 0 {
        return Err(Error::new("cannot render an empty Hyprland monitor batch".to_owned()));
    }
    match validate_calls(rules) {
        Err(error) => {
            return Err(error);
        },
        Ok(()) => {},
    }
    let ghost commands_of = text::texts(rules@).map_values(|rule: Seq<char>| "eval "@ + rule);
    let mut commands: Vec<String> = Vec::new();
    let mut i: usize = 0;
    while i < rules.len()
        invariant
            i <= rules@.len(),
            commands_of == text::texts(rules@).map_values(|rule: Seq<char>| "eval "@ + rule),
            text::texts(commands@) == commands_of.take(i as int),
        decreases rules@.len() - i,
    {
        let ghost before = commands@;
        commands.push("eval ".to_owned().concat(rules[i].as_str()));
        assert(commands_of[i as int] == "eval "@ + rules@[i as int]@);
        assert(text::texts(commands@) =~= text::texts(before).push(commands_of[i as int]));
        assert(text::texts(commands@) =~= commands_of.take(i + 1));
        i += 1;
    }
    assert(commands_of.take(commands_of.len() as int) =~= commands_of);
    Ok(text::join(&commands, " ; "))
}

/// The rules as a file, one to a line.
pub fn render_hyprland_lua(rules: &Vec<String>) -> (result: Result<String, Error>)
    ensures
        error::refused_as(result, lua_error(text::texts(rules@))),
        result is Ok ==> result->Ok_0@ == text::joined(text::texts(rules@), "\n"@),
{
    if rules.len() == 0 {
        return Err(Error::new("cannot render an empty Hyprland monitor Lua config".to_owned()));
    }
    match validate_calls(rules) {
        Err(error) => {
            return Err(error);
        },
        Ok(()) => {},
    }
    Ok(text::join(rules, "\n"))
}

// ---------------------------------------------------------------------------
// Shell commands
// ---------------------------------------------------------------------------
/// `c` keeps a meaning to the shell between double quotes, other than ending
/// them.
pub open spec fn active_in_quotes(c: char) -> bool {
    c == '$' || c == '`' || c == '\\' || c == '!'
}

/// Some character of `s` keeps a meaning to the shell between double quotes.
pub open spec fn has_active(s: Seq<char>) -> bool {
    exists|i: int| 0 <= i < s.len() && active_in_quotes(#[trigger] s[i])
}

/// `s` with every `c` replaced.
pub open spec fn replaced(s: Seq<char>, c: char, by: Seq<char>) -> Seq<char>
    decreases s.len(),
{
    if s.len() == 0 {
        seq![]
    } else {
        replaced(s.drop_last(), c, by) + (if s.last() == c {
            by
        } else {
            seq![s.last()]
        })
    }
}

/// `s` as one word of a shell command: between double quotes where nothing in
/// it has a meaning there, else between single quotes.
pub open spec fn shell_word(s: Seq<char>) -> Seq<char> {
    if has_active(s) {
        "'"@ + replaced(s, '\'', "'\\''"@) + "'"@
    } else {
        "\""@ + replaced(s, '"', "\\\""@) + "\""@
    }
}

/// `s` with every `c` replaced.
pub fn replace(s: &str, c: char, by: &str) -> (result: String)
    ensures
        result@ == replaced(s@, c, by@),
{
    let chars: Vec<char> = text::chars_of(s);
    let mut result = String::new();
    let mut i: usize = 0;
    while i < chars.len()
        invariant
            i <= chars@.len(),
            chars@ == s@,
            result@ == replaced(s@.take(i as int), c, by@),
        decreases chars@.len() - i,
    {
        let ghost before = result@;
        assert(s@.take(i + 1).drop_last() =~= s@.take(i as int));
        assert(s@.take(i + 1).last() == chars@[i as int]);
        if chars[i] == c {
            result.append(by);
        } else {
            result.push(chars[i]);
            assert(result@ =~= before + seq![chars@[i as int]]);
        }
        i += 1;
    }
    assert(s@.take(s@.len() as int) =~= s@);
    result
}

fn contains_active(s: &str) -> (result: bool)
    ensures
        result == has_active(s@),
{
    let chars: Vec<char> = text::chars_of(s);
    let mut i: usize = 0;
    while i < chars.len()
        invariant
            i <= chars@.len(),
            chars@ == s@,
            forall|j: int| 0 <= j < i ==> !active_in_quotes(#[trigger] s@[j]),
        decreases chars@.len() - i,
    {
        let c: char = chars[i];
        if c == '$' || c == '`' || c == '\\' || c == '!' {
            assert(active_in_quotes(s@[i as int]));
            return true;
        }
        i += 1;
    }
    false
}

/// The command line that hands `batch` to the compositor.
pub fn format_hyprctl_batch_command(batch: &str) -> (result: String)
    ensures
        result@ == "hyprctl --batch "@ + shell_word(batch@),
{
    let word: String = if contains_active(batch) {
        "'".to_owned().concat(replace(batch, '\'', "'\\''").as_str()).concat("'")
    } else {
        "\"".to_owned().concat(replace(batch, '"', "\\\"").as_str()).concat("\"")
    };
    "hyprctl --batch ".to_owned().concat(word.as_str())
}

// ---------------------------------------------------------------------------
// Profiles
// ---------------------------------------------------------------------------
/// The outputs that `wanted` asks for, in the order they have.
pub open spec fn outputs_that(outputs: Seq<ProfileOutputView>, enabled: bool, n: int) -> Seq<
    ProfileOutputView,
>
    decreases n,
{
    if n <= 0 {
        seq![]
    } else if outputs[n - 1].enabled == enabled {
        outputs_that(outputs, enabled, n - 1).push(outputs[n - 1])
    } else {
        outputs_that(outputs, enabled, n - 1)
    }
}

/// The outputs to be switched on, then those to be switched off: a batch is run
/// in order, and no step of it may leave the session without an output.
pub open spec fn enabled_first(outputs: Seq<ProfileOutputView>) -> Seq<ProfileOutputView> {
    outputs_that(outputs, true, outputs.len() as int) + outputs_that(
        outputs,
        false,
        outputs.len() as int,
    )
}

/// What is remembered of the monitor `id`: the first entry with that identity,
/// or the identity alone.
pub open spec fn remembered(monitors: Seq<ProfileMonitorView>, id: Seq<char>) -> ProfileMonitorView
    decreases monitors.len(),
{
    if monitors.len() == 0 {
        ProfileMonitorView {
            id,
            name_hint: seq![],
            description: seq![],
            make: seq![],
            model: seq![],
            serial: seq![],
            physical_width: 0,
            physical_height: 0,
        }
    } else if monitors[0].id == id {
        monitors[0]
    } else {
        remembered(monitors.drop_first(), id)
    }
}

/// What is remembered of the monitors that `profile` sets, in the order in
/// which they are set.
pub open spec fn wanted_monitors(profile: ProfileView) -> Seq<ProfileMonitorView> {
    enabled_first(profile.outputs).map_values(
        |output: ProfileOutputView| remembered(profile.monitors, output.monitor_id),
    )
}

/// What becomes of one output.
pub enum Step {
    Skip,
    Refuse(Seq<char>),
    Apply(RuleView),
}

/// Why a monitor cannot be mapped.
pub open spec fn unmapped_text(name: Seq<char>, id: Seq<char>, reason: Seq<char>) -> Seq<char> {
    "failed to map profile `"@ + name + "` monitor `"@ + id + "` to a current output: "@ + reason
}

/// What becomes of `output`, whose partner is `found`.
pub open spec fn step_for(
    name: Seq<char>,
    output: ProfileOutputView,
    current: Seq<MonitorView>,
    found: Option<ResolvedView>,
) -> Step {
    match found {
        None => if output.enabled {
            Step::Refuse(
                unmapped_text(
                    name,
                    output.monitor_id,
                    "required monitor is not currently connected"@,
                ),
            )
        } else {
            Step::Skip
        },
        Some(pair) => if pair.ambiguous {
            Step::Refuse(
                unmapped_text(
                    name,
                    output.monitor_id,
                    "monitor maps to multiple current outputs"@,
                ),
            )
        } else {
            let output_name = current[pair.current_index].output_name;
            match rule_error(output_name, output) {
                Some(reason) => Step::Refuse(reason),
                None => Step::Apply(
                    RuleView {
                        monitor_id: output.monitor_id,
                        output_name,
                        rule: rule_text(output_name, output),
                    },
                ),
            }
        },
    }
}

/// The commands for the first `n` of `outputs`, or why there are none.
pub open spec fn wanted_rules(
    name: Seq<char>,
    outputs: Seq<ProfileOutputView>,
    current: Seq<MonitorView>,
    found: Seq<Option<ResolvedView>>,
    n: int,
) -> Result<Seq<RuleView>, Seq<char>>
    decreases n,
{
    if n <= 0 {
        Ok(seq![])
    } else {
        match wanted_rules(name, outputs, current, found, n - 1) {
            Err(reason) => Err(reason),
            Ok(rules) => match step_for(name, outputs[n - 1], current, found[n - 1]) {
                Step::Skip => Ok(rules),
                Step::Refuse(reason) => Err(reason),
                Step::Apply(rule) => Ok(rules.push(rule)),
            },
        }
    }
}

/// The connected monitor `j` is the partner of one of the first `n` remembered.
pub open spec fn is_claimed(found: Seq<Option<ResolvedView>>, n: int, j: int) -> bool {
    exists|i: int|
        0 <= i < n && (#[trigger] found[i] matches Some(pair) && pair.current_index == j)
}

/// The commands that switch off those of the first `n` connected monitors that
/// are on and that the profile does not know, or why there are none.
pub open spec fn leftover_rules(
    current: Seq<MonitorView>,
    found: Seq<Option<ResolvedView>>,
    n: int,
) -> Result<Seq<RuleView>, Seq<char>>
    decreases n,
{
    if n <= 0 {
        Ok(seq![])
    } else {
        match leftover_rules(current, found, n - 1) {
            Err(reason) => Err(reason),
            Ok(rules) => if is_claimed(found, found.len() as int, n - 1)
                || !current[n - 1].enabled {
                Ok(rules)
            } else {
                match component_error(current[n - 1].output_name, "output name"@) {
                    Some(reason) => Err(reason),
                    None => Ok(
                        rules.push(
                            RuleView {
                                monitor_id: current[n - 1].id,
                                output_name: current[n - 1].output_name,
                                rule: disabled_rule(current[n - 1].output_name),
                            },
                        ),
                    ),
                }
            },
        }
    }
}

/// The commands of `rules`.
pub open spec fn commands_of(rules: Seq<RuleView>) -> Seq<Seq<char>> {
    rules.map_values(|rule: RuleView| rule.rule)
}

/// The commands that set `profile`, going by the partners `found`, or why
/// there are none.
pub open spec fn rendered_with(
    profile: ProfileView,
    current: Seq<MonitorView>,
    found: Seq<Option<ResolvedView>>,
) -> Result<RenderedView, Seq<char>> {
    let outputs = enabled_first(profile.outputs);
    match wanted_rules(profile.name, outputs, current, found, outputs.len() as int) {
        Err(reason) => Err(reason),
        Ok(wanted) => match leftover_rules(current, found, current.len() as int) {
            Err(reason) => Err(reason),
            Ok(leftover) => {
                let rules = commands_of(wanted + leftover);
                match batch_error(rules) {
                    Some(reason) => Err(reason),
                    None => Ok(
                        RenderedView {
                            mappings: wanted + leftover,
                            rules,
                            batch: batch_text(rules),
                        },
                    ),
                }
            },
        },
    }
}

/// `result` is what a best pairing of monitors gives.
pub open spec fn is_rendering(
    result: Result<RenderedView, Seq<char>>,
    profile: ProfileView,
    current: Seq<MonitorView>,
    mode: MonitorMatchMode,
) -> bool {
    if profile.outputs.len() == 0 {
        result == Err::<RenderedView, _>(
            "profile `"@ + profile.name + "` has no saved monitor outputs"@,
        )
    } else {
        exists|a: Seq<usize>| #[trigger]
            matching::best_pairing(wanted_monitors(profile), current, mode, a) && result
                == rendered_with(
                profile,
                current,
                matching::partners(wanted_monitors(profile), current, mode, a),
            )
    }
}

/// The outputs that are switched on, or those that are switched off.
pub fn collect_outputs(outputs: &Vec<ProfileOutput>, enabled: bool) -> (result: Vec<ProfileOutput>)
    ensures
        store::output_views(result@) == outputs_that(
            store::output_views(outputs@),
            enabled,
            outputs@.len() as int,
        ),
{
    let ghost all = store::output_views(outputs@);
    let mut result: Vec<ProfileOutput> = Vec::new();
    assert(store::output_views(result@) =~= seq![]);
    let mut i: usize = 0;
    while i < outputs.len()
        invariant
            i <= outputs@.len(),
            all == store::output_views(outputs@),
            store::output_views(result@) == outputs_that(all, enabled, i as int),
        decreases outputs@.len() - i,
    {
        assert(all[i as int] == outputs@[i as int]@);
        if outputs[i].enabled == enabled {
            let ghost before = result@;
            result.push(outputs[i].clone());
            assert(store::output_views(result@) =~= store::output_views(before).push(
                all[i as int],
            ));
        }
        i += 1;
    }
    result
}

fn find_monitor(monitors: &Vec<ProfileMonitor>, id: &str) -> (result: ProfileMonitor)
    ensures
        result@ == remembered(store::monitor_views(monitors@), id@),
{
    let ghost all = store::monitor_views(monitors@);
    assert(all.skip(0) =~= all);
    let mut i: usize = 0;
    while i < monitors.len()
        invariant
            i <= monitors@.len(),
            all == store::monitor_views(monitors@),
            remembered(all, id@) == remembered(all.skip(i as int), id@),
        decreases monitors@.len() - i,
    {
        assert(all.skip(i as int)[0] == monitors@[i as int]@);
        if text::same(monitors[i].id.as_str(), id) {
            return monitors[i].clone();
        }
        assert(all.skip(i as int).drop_first() =~= all.skip(i + 1));
        i += 1;
    }
    let result = ProfileMonitor {
        id: id.to_owned(),
        name_hint: String::new(),
        description: String::new(),
        make: String::new(),
        model: String::new(),
        serial: String::new(),
        physical_width: 0,
        physical_height: 0,
    };
    assert(all.skip(i as int).len() == 0);
    result
}

fn find_monitors(outputs: &Vec<ProfileOutput>, monitors: &Vec<ProfileMonitor>) -> (result: Vec<
    ProfileMonitor,
>)
    ensures
        store::monitor_views(result@) == store::output_views(outputs@).map_values(
            |output: ProfileOutputView|
                remembered(store::monitor_views(monitors@), output.monitor_id),
        ),
{
    let ghost known = store::monitor_views(monitors@);
    let ghost expected = store::output_views(outputs@).map_values(
        |output: ProfileOutputView| remembered(known, output.monitor_id),
    );
    let mut result: Vec<ProfileMonitor> = Vec::new();
    let mut i: usize = 0;
    while i < outputs.len()
        invariant
            i <= outputs@.len(),
            known == store::monitor_views(monitors@),
            expected == store::output_views(outputs@).map_values(
                |output: ProfileOutputView| remembered(known, output.monitor_id),
            ),
            store::monitor_views(result@) == expected.take(i as int),
        decreases outputs@.len() - i,
    {
        let ghost before = result@;
        assert(store::output_views(outputs@)[i as int] == outputs@[i as int]@);
        result.push(find_monitor(monitors, outputs[i].monitor_id.as_str()));
        assert(store::monitor_views(result@) =~= store::monitor_views(before).push(
            expected[i as int],
        ));
        assert(store::monitor_views(result@) =~= expected.take(i + 1));
        i += 1;
    }
    assert(expected.take(expected.len() as int) =~= expected);
    result
}

proof fn lemma_wanted_rules_refused(
    name: Seq<char>,
    outputs: Seq<ProfileOutputView>,
    current: Seq<MonitorView>,
    found: Seq<Option<ResolvedView>>,
    i: int,
    n: int,
)
    requires
        0 <= i <= n,
        wanted_rules(name, outputs, current, found, i) is Err,
    ensures
        wanted_rules(name, outputs, current, found, n) == wanted_rules(
            name,
            outputs,
            current,
            found,
            i,
        ),
    decreases n,
{
    if i < n {
        lemma_wanted_rules_refused(name, outputs, current, found, i, n - 1);
    }
}

fn map_outputs(
    name: &str,
    outputs: &Vec<ProfileOutput>,
    current: &Vec<MonitorState>,
    resolved: &Vec<Option<ResolvedMonitorMatch>>,
) -> (result: Result<Vec<RuleMapping>, Error>)
    requires
        outputs@.len() == resolved@.len(),
        forall|i: int|
            0 <= i < resolved@.len() ==> (#[trigger] resolved@[i] matches Some(pair)
                ==> pair.current_index < current@.len()),
    ensures
        match (
            result,
            wanted_rules(
                name@,
                store::output_views(outputs@),
                monitor::views(current@),
                matching::resolved_views(resolved@),
                outputs@.len() as int,
            ),
        ) {
            (Ok(mappings), Ok(views)) => mapping_views(mappings@) == views,
            (Err(error), Err(reason)) => error@ == reason,
            _ => false,
        },
        error::plainly(result),
{
    let ghost all = store::output_views(outputs@);
    let ghost connected = monitor::views(current@);
    let ghost found = matching::resolved_views(resolved@);
    let mut mappings: Vec<RuleMapping> = Vec::new();
    assert(mapping_views(mappings@) =~= seq![]);
    let mut i: usize = 0;
    while i < outputs.len()
        invariant
            i <= outputs@.len() == resolved@.len(),
            all == store::output_views(outputs@),
            connected == monitor::views(current@),
            found == matching::resolved_views(resolved@),
            forall|i: int|
                0 <= i < resolved@.len() ==> (#[trigger] resolved@[i] matches Some(pair)
                    ==> pair.current_index < current@.len()),
            wanted_rules(name@, all, connected, found, i as int) == Ok::<_, Seq<char>>(
                mapping_views(mappings@),
            ),
        decreases outputs@.len() - i,
    {
        let output: &ProfileOutput = &outputs[i];
        let ghost before = mappings@;
        assert(all[i as int] == output@);
        assert(found[i as int] == matching::resolved_view(resolved@[i as int]));
        match &resolved[i] {
            None => {
                if output.enabled {
                    proof {
                        lemma_wanted_rules_refused(
                            name@,
                            all,
                            connected,
                            found,
                            i + 1,
                            all.len() as int,
                        );
                    }
                    return Err(
                        unmapped(
                            name,
                            output.monitor_id.as_str(),
                            "required monitor is not currently connected",
                        ),
                    );
                }
            },
            Some(pair) => {
                if pair.ambiguous {
                    proof {
                        lemma_wanted_rules_refused(
                            name@,
                            all,
                            connected,
                            found,
                            i + 1,
                            all.len() as int,
                        );
                    }
                    return Err(
                        unmapped(
                            name,
                            output.monitor_id.as_str(),
                            "monitor maps to multiple current outputs",
                        ),
                    );
                }
                let target: &MonitorState = &current[pair.current_index];
                assert(connected[pair.current_index as int] == target@);
                match render_monitor_rule(target.output_name.as_str(), output) {
                    Err(error) => {
                        proof {
                            lemma_wanted_rules_refused(
                                name@,
                                all,
                                connected,
                                found,
                                i + 1,
                                all.len() as int,
                            );
                        }
                        return Err(error);
                    },
                    Ok(rule) => {
                        let mapping = RuleMapping {
                            monitor_id: output.monitor_id.clone(),
                            output_name: target.output_name.clone(),
                            rule,
                        };
                        let ghost view = mapping@;
                        mappings.push(mapping);
                        assert(mapping_views(mappings@) =~= mapping_views(before).push(view));
                    },
                }
            },
        }
        i += 1;
    }
    Ok(mappings)
}

fn unmapped(name: &str, id: &str, reason: &str) -> (result: Error)
    ensures
        result.head() == result@,
        result@ == unmapped_text(name@, id@, reason@),
{
    Error::new(
        "failed to map profile `".to_owned().concat(name).concat("` monitor `").concat(id).concat(
            "` to a current output: ",
        ).concat(reason),
    )
}

fn claimed(resolved: &Vec<Option<ResolvedMonitorMatch>>, j: usize) -> (result: bool)
    ensures
        result == is_claimed(
            matching::resolved_views(resolved@),
            resolved@.len() as int,
            j as int,
        ),
{
    let ghost found = matching::resolved_views(resolved@);
    let mut i: usize = 0;
    while i < resolved.len()
        invariant
            i <= resolved@.len(),
            found == matching::resolved_views(resolved@),
            !is_claimed(found, i as int, j as int),
        decreases resolved@.len() - i,
    {
        assert(found[i as int] == matching::resolved_view(resolved@[i as int]));
        match &resolved[i] {
            Some(pair) => {
                if pair.current_index == j {
                    return true;
                }
            },
            None => {},
        }
        i += 1;
    }
    false
}

proof fn lemma_leftover_rules_refused(
    current: Seq<MonitorView>,
    found: Seq<Option<ResolvedView>>,
    i: int,
    n: int,
)
    requires
        0 <= i <= n,
        leftover_rules(current, found, i) is Err,
    ensures
        leftover_rules(current, found, n) == leftover_rules(current, found, i),
    decreases n,
{
    if i < n {
        lemma_leftover_rules_refused(current, found, i, n - 1);
    }
}

fn disable_leftovers(
    current: &Vec<MonitorState>,
    resolved: &Vec<Option<ResolvedMonitorMatch>>,
) -> (result: Result<Vec<RuleMapping>, Error>)
    ensures
        match (
            result,
            leftover_rules(
                monitor::views(current@),
                matching::resolved_views(resolved@),
                current@.len() as int,
            ),
        ) {
            (Ok(mappings), Ok(views)) => mapping_views(mappings@) == views,
            (Err(error), Err(reason)) => error@ == reason,
            _ => false,
        },
        error::plainly(result),
{
    let ghost connected = monitor::views(current@);
    let ghost found = matching::resolved_views(resolved@);
    let mut mappings: Vec<RuleMapping> = Vec::new();
    assert(mapping_views(mappings@) =~= seq![]);
    let mut j: usize = 0;
    while j < current.len()
        invariant
            j <= current@.len(),
            connected == monitor::views(current@),
            found == matching::resolved_views(resolved@),
            leftover_rules(connected, found, j as int) == Ok::<_, Seq<char>>(
                mapping_views(mappings@),
            ),
        decreases current@.len() - j,
    {
        let target: &MonitorState = &current[j];
        let ghost before = mappings@;
        assert(connected[j as int] == target@);
        if !claimed(resolved, j) && target.enabled {
            match render_disabled_monitor_rule(target.output_name.as_str()) {
                Err(error) => {
                    proof {
                        lemma_leftover_rules_refused(
                            connected,
                            found,
                            j + 1,
                            connected.len() as int,
                        );
                    }
                    return Err(error);
                },
                Ok(rule) => {
                    let mapping = RuleMapping {
                        monitor_id: target.id.clone(),
                        output_name: target.output_name.clone(),
                        rule,
                    };
                    let ghost view = mapping@;
                    mappings.push(mapping);
                    assert(mapping_views(mappings@) =~= mapping_views(before).push(view));
                },
            }
        }
        j += 1;
    }
    Ok(mappings)
}

fn rules_in(mappings: &Vec<RuleMapping>) -> (result: Vec<String>)
    ensures
        text::texts(result@) == commands_of(mapping_views(mappings@)),
{
    let ghost expected = commands_of(mapping_views(mappings@));
    let mut result: Vec<String> = Vec::new();
    let mut i: usize = 0;
    while i < mappings.len()
        invariant
            i <= mappings@.len(),
            expected == commands_of(mapping_views(mappings@)),
            text::texts(result@) == expected.take(i as int),
        decreases mappings@.len() - i,
    {
        let ghost before = result@;
        result.push(mappings[i].rule.clone());
        assert(expected[i as int] == mappings@[i as int].rule@);
        assert(text::texts(result@) =~= text::texts(before).push(expected[i as int]));
        assert(text::texts(result@) =~= expected.take(i + 1));
        i += 1;
    }
    assert(expected.take(expected.len() as int) =~= expected);
    result
}

/// The commands that set a profile which the user named.
pub fn render_monitor_rules(profile: &Profile, current: &Vec<MonitorState>) -> (result: Result<
    RenderedMonitorRules,
    Error,
>)
    requires
        profile@.outputs.len() + current@.len() < usize::MAX,
    ensures
        is_rendering(error::outcome(result), profile@, monitor::views(current@), MonitorMatchMode::Explicit),
        error::plainly(result),
{
    render_monitor_rules_with_mode(profile, current, MonitorMatchMode::Explicit)
}

/// The commands that set a profile which the program chose.
pub fn render_monitor_rules_automatic(profile: &Profile, current: &Vec<MonitorState>) -> (result:
    Result<RenderedMonitorRules, Error>)
    requires
        profile@.outputs.len() + current@.len() < usize::MAX,
    ensures
        is_rendering(error::outcome(result), profile@, monitor::views(current@), MonitorMatchMode::Automatic),
        error::plainly(result),
{
    render_monitor_rules_with_mode(profile, current, MonitorMatchMode::Automatic)
}

/// The commands that set `profile` on the connected monitors.
pub fn render_monitor_rules_with_mode(
    profile: &Profile,
    current: &Vec<MonitorState>,
    mode: MonitorMatchMode,
) -> (result: Result<RenderedMonitorRules, Error>)
    requires
        profile@.outputs.len() + current@.len() < usize::MAX,
    ensures
        is_rendering(error::outcome(result), profile@, monitor::views(current@), mode),
        error::plainly(result),
{
    if profile.outputs.len() == 0 {
        return Err(
            Error::new(
                "profile `".to_owned().concat(profile.name.as_str()).concat(
                    "` has no saved monitor outputs",
                ),
            ),
        );
    }
    let ghost connected = monitor::views(current@);
    let mut outputs: Vec<ProfileOutput> = collect_outputs(&profile.outputs, true);
    let mut disabled: Vec<ProfileOutput> = collect_outputs(&profile.outputs, false);
    let ghost on = outputs@;
    let ghost off = disabled@;
    outputs.append(&mut disabled);
    assert(store::output_views(outputs@) =~= enabled_first(profile@.outputs)) by {
        assert(store::output_views(outputs@) =~= store::output_views(on) + store::output_views(
            off,
        ));
    }
    let monitors: Vec<ProfileMonitor> = find_monitors(&outputs, &profile.monitors);
    assert(store::monitor_views(monitors@) == wanted_monitors(profile@));
    proof {
        lemma_enabled_first_len(profile@.outputs);
        assert(monitors@.len() == store::monitor_views(monitors@).len());
        assert(outputs@.len() == store::output_views(outputs@).len());
    }
    let resolved: Vec<Option<ResolvedMonitorMatch>> = matching::resolve_monitor_matches_with_mode(
        &monitors,
        current,
        mode,
    );
    let ghost saved = wanted_monitors(profile@);
    let ghost a = choose|a: Seq<usize>|
        #![trigger matching::best_pairing(saved, connected, mode, a)]
        matching::best_pairing(saved, connected, mode, a) && matching::resolved_views(resolved@)
            == matching::partners(saved, connected, mode, a);
    proof {
        assert(resolved@.len() == matching::resolved_views(resolved@).len());
        assert forall|i: int| 0 <= i < resolved@.len() implies (#[trigger] resolved@[i] matches Some(
            pair,
        ) ==> pair.current_index < current@.len()) by {
            assert(matching::resolved_views(resolved@)[i] == matching::resolved_view(
                resolved@[i],
            ));
            assert(matching::partners(saved, connected, mode, a)[i] == matching::partner(
                saved,
                connected,
                mode,
                a,
                i,
            ));
        }
        assert(matching::best_pairing(wanted_monitors(profile@), connected, mode, a));
    }
    let mut mappings: Vec<RuleMapping> = match map_outputs(
        profile.name.as_str(),
        &outputs,
        current,
        &resolved,
    ) {
        Ok(mappings) => mappings,
        Err(error) => {
            return Err(error);
        },
    };
    let mut leftovers: Vec<RuleMapping> = match disable_leftovers(current, &resolved) {
        Ok(leftovers) => leftovers,
        Err(error) => {
            return Err(error);
        },
    };
    let ghost wanted = mappings@;
    let ghost leftover = leftovers@;
    mappings.append(&mut leftovers);
    assert(mapping_views(mappings@) =~= mapping_views(wanted) + mapping_views(leftover));
    let rules: Vec<String> = rules_in(&mappings);
    match render_hyprctl_batch(&rules) {
        Err(error) => Err(error),
        Ok(batch) => Ok(RenderedMonitorRules { mappings, rules, batch }),
    }
}

proof fn lemma_outputs_that_len(outputs: Seq<ProfileOutputView>, n: int)
    requires
        0 <= n <= outputs.len(),
    ensures
        outputs_that(outputs, true, n).len() + outputs_that(outputs, false, n).len() == n,
    decreases n,
{
    if n > 0 {
        lemma_outputs_that_len(outputs, n - 1);
    }
}

/// Every output has its place in the order of outputs.
pub proof fn lemma_enabled_first_len(outputs: Seq<ProfileOutputView>)
    ensures
        enabled_first(outputs).len() == outputs.len(),
{
    lemma_outputs_that_len(outputs, outputs.len() as int);
}

} // verus!
