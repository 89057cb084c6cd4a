//! What a command does to which connector.
use vstd::prelude::*;

use crate::hyprland::monitor::MonitorView;
use crate::number;
use crate::profile::matching;
use crate::profile::matching::{MonitorMatchMode, ResolvedView};
use crate::profile::pair_laws;
use crate::profile::render;
use crate::profile::render::{RenderedView, RuleView};
use crate::profile::render_laws;
use crate::profile::store::{ProfileMonitorView, ProfileOutputView, ProfileView};
use crate::text;

verus! {

// ---------------------------------------------------------------------------
// What a command says
// ---------------------------------------------------------------------------
proof fn lemma_holds(before: Seq<char>, part: Seq<char>, after: Seq<char>)
    ensures
        text::holds(before + part + after, part),
{
    let s = before + part + after;
    let at = before.len() as int;
    assert(s.subrange(at, at + part.len()) =~= part);
}

/// The command for an output that is on names the connector, switches it on, and gives
/// it the mode, the column and row, the scale and the turn of the output. The one for
/// an output that is off names the connector and switches it off.
pub proof fn law_commands_say_how_outputs_are_set(
    output_name: Seq<char>,
    output: ProfileOutputView,
)
    ensures
        ({
            let rule = render::rule_text(output_name, output);
            let connector = "hl.monitor({ output = \""@ + render::escaped(output_name) + "\", "@;
            &&& text::begins(rule, connector)
            &&& output.enabled ==> {
                &&& text::begins(rule, connector + "disabled = false, "@)
                &&& text::holds(rule, "mode = \""@ + render::escaped(output.mode) + "\", "@)
                &&& text::holds(
                    rule,
                    "position = \""@ + text::int_text(output.x as int) + "x"@ + text::int_text(
                        output.y as int,
                    ) + "\", "@,
                )
                &&& text::holds(rule, "scale = "@ + number::decimal_text(output.scale) + ", "@)
                &&& text::ends(
                    rule,
                    "transform = "@ + text::int_text(output.transform as int) + " })"@,
                )
            }
            &&& !output.enabled ==> rule == connector + "disabled = true })"@
        }),
{
    let rule = render::rule_text(output_name, output);
    let connector = "hl.monitor({ output = \""@ + render::escaped(output_name) + "\", "@;
    if output.enabled {
        lemma_enabled_parts(output_name, output);
        let start = connector + "disabled = false, "@;
        let first = "mode = \""@ + render::escaped(output.mode) + "\", "@;
        let second = "position = \""@ + text::int_text(output.x as int) + "x"@ + text::int_text(
            output.y as int,
        ) + "\", "@;
        let third = "scale = "@ + number::decimal_text(output.scale) + ", "@;
        let fourth = "transform = "@ + text::int_text(output.transform as int) + " })"@;
        lemma_five_parts(start, first, second, third, fourth);
        assert(start.take(connector.len() as int) =~= connector);
        assert(rule.take(connector.len() as int) =~= start.take(connector.len() as int)) by {
            assert(rule.take(start.len() as int) == start);
        }
    } else {
        lemma_words();
        assert(rule =~= connector + "disabled = true })"@);
        assert(rule.take(connector.len() as int) =~= connector);
    }
}

proof fn lemma_words()
    ensures
        "\", disabled = false, mode = \""@ == "\", "@ + "disabled = false, "@ + "mode = \""@,
        "\", position = \""@ == "\", "@ + "position = \""@,
        "\", scale = "@ == "\", "@ + "scale = "@,
        ", transform = "@ == ", "@ + "transform = "@,
        "\", disabled = true })"@ == "\", "@ + "disabled = true })"@,
{
    reveal_strlit("\", ");
    reveal_strlit(", ");
    reveal_strlit("disabled = false, ");
    reveal_strlit("mode = \"");
    reveal_strlit("position = \"");
    reveal_strlit("scale = ");
    reveal_strlit("transform = ");
    reveal_strlit("\", disabled = false, mode = \"");
    reveal_strlit("\", position = \"");
    reveal_strlit("\", scale = ");
    reveal_strlit(", transform = ");
    reveal_strlit("disabled = true })");
    reveal_strlit("\", disabled = true })");
    assert("\", disabled = false, mode = \""@ =~= "\", "@ + "disabled = false, "@ + "mode = \""@);
    assert("\", position = \""@ =~= "\", "@ + "position = \""@);
    assert("\", scale = "@ =~= "\", "@ + "scale = "@);
    assert(", transform = "@ =~= ", "@ + "transform = "@);
    assert("\", disabled = true })"@ =~= "\", "@ + "disabled = true })"@);
}

proof fn lemma_five_parts(
    start: Seq<char>,
    first: Seq<char>,
    second: Seq<char>,
    third: Seq<char>,
    fourth: Seq<char>,
)
    ensures
        ({
            let all = start + first + second + third + fourth;
            &&& text::begins(all, start)
            &&& text::holds(all, first)
            &&& text::holds(all, second)
            &&& text::holds(all, third)
            &&& text::ends(all, fourth)
        }),
{
    let all = start + first + second + third + fourth;
    lemma_holds(start, first, second + third + fourth);
    assert(start + first + (second + third + fourth) =~= all);
    lemma_holds(start + first, second, third + fourth);
    assert(start + first + second + (third + fourth) =~= all);
    lemma_holds(start + first + second, third, fourth);
    assert(all.skip(all.len() - fourth.len()) =~= fourth);
    assert(all.take(start.len() as int) =~= start);
}

proof fn lemma_regrouped(a: Seq<char>, b: Seq<char>, c: Seq<char>, d: Seq<char>)
    ensures
        a + (b + c) == a + b + c,
        a + (b + c + d) == a + b + c + d,
{
    assert(a + (b + c) =~= a + b + c);
    assert(a + (b + c + d) =~= a + b + c + d);
}

proof fn lemma_enabled_parts(output_name: Seq<char>, output: ProfileOutputView)
    ensures
        render::enabled_rule(output_name, output) == ("hl.monitor({ output = \""@ + render::escaped(
            output_name,
        ) + "\", "@ + "disabled = false, "@) + ("mode = \""@ + render::escaped(output.mode)
            + "\", "@) + ("position = \""@ + text::int_text(output.x as int) + "x"@
            + text::int_text(output.y as int) + "\", "@) + ("scale = "@ + number::decimal_text(
            output.scale,
        ) + ", "@) + ("transform = "@ + text::int_text(output.transform as int) + " })"@),
{
    lemma_words();
    let name = render::escaped(output_name);
    let mode = render::escaped(output.mode);
    let x = text::int_text(output.x as int);
    let y = text::int_text(output.y as int);
    let scale = number::decimal_text(output.scale);
    let turn = text::int_text(output.transform as int);
    let quoted = "\", "@;
    let a0 = "hl.monitor({ output = \""@ + name;
    let a1 = a0 + quoted + "disabled = false, "@;
    lemma_regrouped(a0, quoted, "disabled = false, "@, "mode = \""@);
    let b0 = a1 + "mode = \""@ + mode;
    let first = "mode = \""@ + mode + quoted;
    lemma_regrouped(b0, quoted, "position = \""@, seq![]);
    lemma_regrouped(a1, "mode = \""@, mode, quoted);
    let b1 = a1 + first;
    let c0 = b1 + "position = \""@ + x + "x"@ + y;
    let second = "position = \""@ + x + "x"@ + y + quoted;
    lemma_regrouped(c0, quoted, "scale = "@, seq![]);
    assert(c0 + quoted == b1 + second) by {
        lemma_regrouped(b1, "position = \""@ + x, "x"@ + y, quoted);
        lemma_regrouped("position = \""@ + x, "x"@, y, seq![]);
        lemma_regrouped(b1, "position = \""@, x, seq![]);
        lemma_regrouped(b1 + "position = \""@ + x, "x"@, y, seq![]);
    }
    let c1 = b1 + second;
    let d0 = c1 + "scale = "@ + scale;
    let third = "scale = "@ + scale + ", "@;
    lemma_regrouped(d0, ", "@, "transform = "@, seq![]);
    lemma_regrouped(c1, "scale = "@, scale, ", "@);
    let d1 = c1 + third;
    lemma_regrouped(d1, "transform = "@, turn, " })"@);
}

/// A batch is its commands in order: one alone is evaluated as it is, and one more is
/// evaluated after those before it.
pub proof fn law_batches_run_in_order(rules: Seq<Seq<char>>, rule: Seq<char>)
    ensures
        render::batch_text(seq![rule]) == "eval "@ + rule,
        rules.len() > 0 ==> render::batch_text(rules.push(rule)) == render::batch_text(rules)
            + " ; eval "@ + rule,
{
    let all = rules.push(rule).map_values(|r: Seq<char>| "eval "@ + r);
    let before = rules.map_values(|r: Seq<char>| "eval "@ + r);
    assert(seq![rule].map_values(|r: Seq<char>| "eval "@ + r)[0] == "eval "@ + rule);
    if rules.len() > 0 {
        assert(all.drop_last() =~= before);
        assert(all.last() == "eval "@ + rule);
        reveal_strlit(" ; ");
        reveal_strlit("eval ");
        reveal_strlit(" ; eval ");
        assert(render::batch_text(rules.push(rule)) =~= render::batch_text(rules) + " ; eval "@
            + rule);
    }
}

// ---------------------------------------------------------------------------
// Which connector a command is for
// ---------------------------------------------------------------------------
/// The pairing behind a rendered profile, and what is found by it.
proof fn lemma_pairing(
    result: Result<RenderedView, Seq<char>>,
    profile: ProfileView,
    current: Seq<MonitorView>,
    mode: MonitorMatchMode,
) -> (a: Seq<usize>)
    requires
        render::is_rendering(result, profile, current, mode),
        profile.outputs.len() > 0,
    ensures
        matching::best_pairing(render::wanted_monitors(profile), current, mode, a),
        result == render::rendered_with(
            profile,
            current,
            matching::partners(render::wanted_monitors(profile), current, mode, a),
        ),
{
    choose|a: Seq<usize>| #[trigger]
        matching::best_pairing(render::wanted_monitors(profile), current, mode, a) && result
            == render::rendered_with(
            profile,
            current,
            matching::partners(render::wanted_monitors(profile), current, mode, a),
        )
}

proof fn lemma_wanted_rule(
    name: Seq<char>,
    outputs: Seq<ProfileOutputView>,
    current: Seq<MonitorView>,
    found: Seq<Option<ResolvedView>>,
    n: int,
    i: int,
) -> (k: int)
    requires
        0 <= i < n <= outputs.len(),
        render::wanted_rules(name, outputs, current, found, n) is Ok,
    ensures
        outputs[i].enabled ==> found[i] is Some,
        found[i] is Some ==> !found[i]->0.ambiguous,
        found[i] is Some ==> 0 <= k < render::wanted_rules(
            name,
            outputs,
            current,
            found,
            n,
        )->Ok_0.len() && render::wanted_rules(name, outputs, current, found, n)->Ok_0[k] == (
        RuleView {
            monitor_id: outputs[i].monitor_id,
            output_name: current[found[i]->0.current_index].output_name,
            rule: render::rule_text(
                current[found[i]->0.current_index].output_name,
                outputs[i],
            ),
        }),
    decreases n,
{
    let now = render::wanted_rules(name, outputs, current, found, n)->Ok_0;
    let before = render::wanted_rules(name, outputs, current, found, n - 1)->Ok_0;
    if i == n - 1 {
        before.len() as int
    } else {
        let k = lemma_wanted_rule(name, outputs, current, found, n - 1, i);
        if found[i] is Some {
            assert(now[k] == before[k]);
        }
        k
    }
}

/// What is remembered of a monitor speaks for a connected one: they have an identity, a
/// description, a make and model, or a connector in common.
pub open spec fn speaks_for(saved: ProfileMonitorView, now: MonitorView) -> bool {
    ||| saved.id == now.id
    ||| saved.description == now.description
    ||| saved.make == now.make && saved.model == now.model
    ||| saved.name_hint == now.output_name
}

/// `rule` sets the connector of `monitor` as `output` says.
pub open spec fn commands(
    rule: RuleView,
    output: ProfileOutputView,
    monitor: MonitorView,
) -> bool {
    &&& rule.monitor_id == output.monitor_id
    &&& rule.output_name == monitor.output_name
    &&& rule.rule == render::rule_text(monitor.output_name, output)
}

/// Every output that a profile switches on gets a command for the connector of a
/// connected monitor for which what is remembered of it speaks.
pub proof fn law_commands_go_to_known_monitors(
    rendered: RenderedView,
    profile: ProfileView,
    current: Seq<MonitorView>,
    mode: MonitorMatchMode,
    i: int,
)
    requires
        render::is_rendering(Ok(rendered), profile, current, mode),
        0 <= i < profile.outputs.len(),
        profile.outputs[i].enabled,
    ensures
        exists|k: int, j: int|
            #![trigger rendered.mappings[k], current[j]]
            0 <= k < rendered.mappings.len() && 0 <= j < current.len() && commands(
                rendered.mappings[k],
                profile.outputs[i],
                current[j],
            ) && speaks_for(
                render::remembered(profile.monitors, profile.outputs[i].monitor_id),
                current[j],
            ),
{
    let a = lemma_pairing(Ok(rendered), profile, current, mode);
    let saved = render::wanted_monitors(profile);
    let found = matching::partners(saved, current, mode, a);
    let outputs = render::enabled_first(profile.outputs);
    render_laws::lemma_enabled_first(profile.outputs);
    assert(outputs.contains(profile.outputs[i]));
    let at = choose|at: int| 0 <= at < outputs.len() && outputs[at] == profile.outputs[i];
    let k = lemma_wanted_rule(profile.name, outputs, current, found, outputs.len() as int, at);
    pair_laws::law_partners_have_something_in_common(saved, current, mode, a, at);
    let j = found[at]->0.current_index;
    assert(saved[at] == render::remembered(profile.monitors, outputs[at].monitor_id));
    let wanted = render::wanted_rules(
        profile.name,
        outputs,
        current,
        found,
        outputs.len() as int,
    )->Ok_0;
    assert(rendered.mappings[k] == wanted[k]);
    assert(commands(rendered.mappings[k], profile.outputs[i], current[j]));
}

/// A profile that switches on an output whose monitor has nothing in common with any
/// connected one is refused.
pub proof fn law_missing_monitors_are_refused(
    result: Result<RenderedView, Seq<char>>,
    profile: ProfileView,
    current: Seq<MonitorView>,
    mode: MonitorMatchMode,
    i: int,
)
    requires
        render::is_rendering(result, profile, current, mode),
        0 <= i < profile.outputs.len(),
        profile.outputs[i].enabled,
        forall|j: int|
            0 <= j < current.len() ==> !speaks_for(
                render::remembered(profile.monitors, profile.outputs[i].monitor_id),
                #[trigger] current[j],
            ),
    ensures
        result is Err,
{
    if let Ok(rendered) = result {
        law_commands_go_to_known_monitors(rendered, profile, current, mode, i);
    }
}

proof fn lemma_leftover_is_lit(
    current: Seq<MonitorView>,
    found: Seq<Option<ResolvedView>>,
    n: int,
    k: int,
) -> (j: int)
    requires
        0 <= n <= current.len(),
        render::leftover_rules(current, found, n) is Ok,
        0 <= k < render::leftover_rules(current, found, n)->Ok_0.len(),
    ensures
        0 <= j < n,
        current[j].enabled,
        render::leftover_rules(current, found, n)->Ok_0[k].output_name == current[j].output_name,
        render::leftover_rules(current, found, n)->Ok_0[k].monitor_id == current[j].id,
    decreases n,
{
    let before = render::leftover_rules(current, found, n - 1)->Ok_0;
    if k < before.len() {
        lemma_leftover_is_lit(current, found, n - 1, k)
    } else {
        n - 1
    }
}

proof fn lemma_wanted_is_known(
    name: Seq<char>,
    outputs: Seq<ProfileOutputView>,
    current: Seq<MonitorView>,
    found: Seq<Option<ResolvedView>>,
    n: int,
    k: int,
) -> (i: int)
    requires
        0 <= n <= outputs.len(),
        render::wanted_rules(name, outputs, current, found, n) is Ok,
        0 <= k < render::wanted_rules(name, outputs, current, found, n)->Ok_0.len(),
    ensures
        0 <= i < n,
        render::wanted_rules(name, outputs, current, found, n)->Ok_0[k].monitor_id
            == outputs[i].monitor_id,
    decreases n,
{
    let before = render::wanted_rules(name, outputs, current, found, n - 1)->Ok_0;
    if k < before.len() {
        lemma_wanted_is_known(name, outputs, current, found, n - 1, k)
    } else {
        n - 1
    }
}

/// Every command is for an output of the profile, or for a connected monitor that is on:
/// one that the profile does not know and that is off already is left alone.
pub proof fn law_dark_monitors_are_left_alone(
    rendered: RenderedView,
    profile: ProfileView,
    current: Seq<MonitorView>,
    mode: MonitorMatchMode,
    k: int,
)
    requires
        render::is_rendering(Ok(rendered), profile, current, mode),
        0 <= k < rendered.mappings.len(),
    ensures
        (exists|i: int|
            0 <= i < profile.outputs.len() && (#[trigger] profile.outputs[i]).monitor_id
                == rendered.mappings[k].monitor_id) || exists|j: int|
            0 <= j < current.len() && (#[trigger] current[j]).enabled && current[j].output_name
                == rendered.mappings[k].output_name && current[j].id
                == rendered.mappings[k].monitor_id,
{
    let a = lemma_pairing(Ok(rendered), profile, current, mode);
    let saved = render::wanted_monitors(profile);
    let found = matching::partners(saved, current, mode, a);
    let outputs = render::enabled_first(profile.outputs);
    let wanted = render::wanted_rules(
        profile.name,
        outputs,
        current,
        found,
        outputs.len() as int,
    )->Ok_0;
    let leftover = render::leftover_rules(current, found, current.len() as int)->Ok_0;
    assert(rendered.mappings == wanted + leftover);
    if k < wanted.len() {
        let i = lemma_wanted_is_known(
            profile.name,
            outputs,
            current,
            found,
            outputs.len() as int,
            k,
        );
        render_laws::lemma_enabled_first(profile.outputs);
        assert(outputs.contains(outputs[i]));
        assert(profile.outputs.contains(outputs[i]));
        let o = choose|o: int| 0 <= o < profile.outputs.len() && profile.outputs[o] == outputs[i];
        assert(profile.outputs[o].monitor_id == rendered.mappings[k].monitor_id);
    } else {
        let j = lemma_leftover_is_lit(current, found, current.len() as int, k - wanted.len());
        assert(current[j].enabled);
    }
}

/// Where a profile can be applied, it is certain which monitor each output is for that it
/// switches on: every best pairing gives it the same one.
pub proof fn law_uncertain_monitors_are_refused(
    rendered: RenderedView,
    profile: ProfileView,
    current: Seq<MonitorView>,
    mode: MonitorMatchMode,
    i: int,
    a: Seq<usize>,
    b: Seq<usize>,
)
    requires
        render::is_rendering(Ok(rendered), profile, current, mode),
        0 <= i < render::enabled_first(profile.outputs).len(),
        render::enabled_first(profile.outputs)[i].enabled,
        matching::best_pairing(render::wanted_monitors(profile), current, mode, a),
        matching::best_pairing(render::wanted_monitors(profile), current, mode, b),
    ensures
        a[i] == b[i],
        a[i] < current.len(),
{
    let c = lemma_pairing(Ok(rendered), profile, current, mode);
    let saved = render::wanted_monitors(profile);
    let found = matching::partners(saved, current, mode, c);
    let outputs = render::enabled_first(profile.outputs);
    let k = lemma_wanted_rule(
        profile.name,
        outputs,
        current,
        found,
        outputs.len() as int,
        i,
    );
    assert(found[i] == matching::partner(saved, current, mode, c, i));
    assert(!matching::has_alternative(saved, current, mode, c, i));
}

/// Every connected monitor that is on is named by a command: none is left as it
/// happens to be.
pub proof fn law_lit_monitors_are_commanded(
    rendered: RenderedView,
    profile: ProfileView,
    current: Seq<MonitorView>,
    mode: MonitorMatchMode,
    j: int,
)
    requires
        render::is_rendering(Ok(rendered), profile, current, mode),
        0 <= j < current.len(),
        current[j].enabled,
    ensures
        exists|k: int|
            0 <= k < rendered.mappings.len() && (#[trigger] rendered.mappings[k]).output_name
                == current[j].output_name,
{
    let a = lemma_pairing(Ok(rendered), profile, current, mode);
    let saved = render::wanted_monitors(profile);
    let found = matching::partners(saved, current, mode, a);
    let outputs = render::enabled_first(profile.outputs);
    let wanted = render::wanted_rules(
        profile.name,
        outputs,
        current,
        found,
        outputs.len() as int,
    )->Ok_0;
    let leftover = render::leftover_rules(current, found, current.len() as int)->Ok_0;
    assert(rendered.mappings == wanted + leftover);
    if render::is_claimed(found, found.len() as int, j) {
        let i = choose|i: int|
            0 <= i < found.len() && (#[trigger] found[i] matches Some(pair) && pair.current_index
                == j);
        let k = lemma_wanted_rule(profile.name, outputs, current, found, outputs.len() as int, i);
        assert(rendered.mappings[k] == wanted[k]);
    } else {
        render_laws::lemma_leftover(current, found, current.len() as int);
        assert(leftover.contains(render_laws::switched_off(current[j])));
        let k = choose|k: int|
            0 <= k < leftover.len() && leftover[k] == render_laws::switched_off(current[j]);
        assert(rendered.mappings[wanted.len() + k] == leftover[k]);
    }
}

/// What is remembered under an identity is the entry that has it.
pub proof fn law_remembered_entries_have_the_identity(
    monitors: Seq<ProfileMonitorView>,
    id: Seq<char>,
)
    ensures
        render::remembered(monitors, id).id == id,
        (exists|i: int| 0 <= i < monitors.len() && (#[trigger] monitors[i]).id == id)
            ==> monitors.contains(render::remembered(monitors, id)),
    decreases monitors.len(),
{
    if monitors.len() > 0 && monitors[0].id != id {
        let rest = monitors.drop_first();
        law_remembered_entries_have_the_identity(rest, id);
        if exists|i: int| 0 <= i < monitors.len() && (#[trigger] monitors[i]).id == id {
            let i = choose|i: int| 0 <= i < monitors.len() && (#[trigger] monitors[i]).id == id;
            assert(rest[i - 1].id == id);
            let j = choose|j: int| 0 <= j < rest.len() && rest[j] == render::remembered(rest, id);
            assert(monitors[j + 1] == rest[j]);
        }
    } else if monitors.len() > 0 {
        assert(monitors[0] == render::remembered(monitors, id));
    }
}

} // verus!
