//! What holds of rendered commands.
use vstd::prelude::*;

use crate::hyprland::monitor::MonitorView;
use crate::profile::matching;
use crate::profile::matching::{MonitorMatchMode, ResolvedView};
use crate::profile::render;
use crate::profile::render::{RenderedView, RuleView};
use crate::profile::store::{ProfileOutputView, ProfileView};
use crate::text;

verus! {

// ---------------------------------------------------------------------------
// Lua strings
// ---------------------------------------------------------------------------
/// Reads a Lua string to its closing quote: what it stands for, and what
/// follows. A backslash makes a backslash or a quote stand for itself; other
/// uses of it are not read.
pub open spec fn lua_string(s: Seq<char>) -> Option<(Seq<char>, Seq<char>)>
    decreases s.len(),
{
    if s.len() == 0 {
        None
    } else if s[0] == '"' {
        Some((seq![], s.skip(1)))
    } else if s[0] == '\\' {
        if s.len() > 1 && (s[1] == '\\' || s[1] == '"') {
            match lua_string(s.skip(2)) {
                Some((value, rest)) => Some((seq![s[1]] + value, rest)),
                None => None,
            }
        } else {
            None
        }
    } else {
        match lua_string(s.skip(1)) {
            Some((value, rest)) => Some((seq![s[0]] + value, rest)),
            None => None,
        }
    }
}

proof fn lemma_escaped_front(s: Seq<char>)
    requires
        s.len() > 0,
    ensures
        render::escaped(s) == render::escaped_char(s[0]) + render::escaped(s.skip(1)),
    decreases s.len(),
{
    if s.len() == 1 {
        assert(s.drop_last() =~= seq![]);
        assert(s.skip(1) =~= seq![]);
        assert(render::escaped(seq![]) =~= seq![]);
        assert(render::escaped(s) =~= render::escaped_char(s[0]) + render::escaped(s.skip(1)));
    } else {
        let front = s.drop_last();
        lemma_escaped_front(front);
        assert(front.skip(1) =~= s.skip(1).drop_last());
        assert(s.skip(1).last() == s.last());
        assert(render::escaped(s) =~= render::escaped_char(s[0]) + render::escaped(s.skip(1)));
    }
}

/// A value that is written into a command as a Lua string is read back as it
/// was, and reading stops at its end: nothing in the value can close the
/// string.
pub proof fn law_lua_strings_read_back(s: Seq<char>, rest: Seq<char>)
    ensures
        lua_string(render::escaped(s) + seq!['"'] + rest) == Some((s, rest)),
    decreases s.len(),
{
    let written = render::escaped(s) + seq!['"'] + rest;
    if s.len() == 0 {
        assert(written.skip(1) =~= rest);
        assert(s =~= seq![]);
    } else {
        let tail = render::escaped(s.skip(1)) + seq!['"'] + rest;
        lemma_escaped_front(s);
        law_lua_strings_read_back(s.skip(1), rest);
        assert(seq![s[0]] + s.skip(1) =~= s);
        if s[0] == '\\' || s[0] == '"' {
            assert(written.skip(2) =~= tail);
        } else {
            assert(written.skip(1) =~= tail);
        }
    }
}

// ---------------------------------------------------------------------------
// Shell words
// ---------------------------------------------------------------------------
/// How the shell reads the next character.
pub enum Quoting {
    Bare,
    Single,
    Double,
}

/// Reads one word of a POSIX shell that is made of quoted parts and of escaped
/// characters. Other parts are not read.
pub open spec fn shell_read(s: Seq<char>, quoting: Quoting) -> Option<Seq<char>>
    decreases s.len(),
{
    match quoting {
        Quoting::Bare => if s.len() == 0 {
            Some(seq![])
        } else if s[0] == '\'' {
            shell_read(s.skip(1), Quoting::Single)
        } else if s[0] == '"' {
            shell_read(s.skip(1), Quoting::Double)
        } else if s[0] == '\\' && s.len() > 1 {
            put_first(s[1], shell_read(s.skip(2), Quoting::Bare))
        } else {
            None
        },
        Quoting::Single => if s.len() == 0 {
            None
        } else if s[0] == '\'' {
            shell_read(s.skip(1), Quoting::Bare)
        } else {
            put_first(s[0], shell_read(s.skip(1), Quoting::Single))
        },
        Quoting::Double => if s.len() == 0 {
            None
        } else if s[0] == '"' {
            shell_read(s.skip(1), Quoting::Bare)
        } else if s[0] == '\\' && s.len() > 1 && s[1] == '"' {
            put_first('"', shell_read(s.skip(2), Quoting::Double))
        } else if render::active_in_quotes(s[0]) {
            None
        } else {
            put_first(s[0], shell_read(s.skip(1), Quoting::Double))
        },
    }
}

/// `c` in front of what was read.
pub open spec fn put_first(c: char, read: Option<Seq<char>>) -> Option<Seq<char>> {
    match read {
        Some(value) => Some(seq![c] + value),
        None => None,
    }
}

proof fn lemma_replaced_front(s: Seq<char>, c: char, by: Seq<char>)
    requires
        s.len() > 0,
    ensures
        render::replaced(s, c, by) == (if s[0] == c {
            by
        } else {
            seq![s[0]]
        }) + render::replaced(s.skip(1), c, by),
    decreases s.len(),
{
    let first = if s[0] == c {
        by
    } else {
        seq![s[0]]
    };
    if s.len() == 1 {
        assert(s.drop_last() =~= seq![]);
        assert(s.skip(1) =~= seq![]);
        assert(render::replaced(s, c, by) =~= first + render::replaced(s.skip(1), c, by));
    } else {
        let front = s.drop_last();
        lemma_replaced_front(front, c, by);
        assert(front.skip(1) =~= s.skip(1).drop_last());
        assert(s.skip(1).last() == s.last());
        assert(render::replaced(s, c, by) =~= first + render::replaced(s.skip(1), c, by));
    }
}

proof fn lemma_single_quoted(s: Seq<char>)
    ensures
        shell_read(render::replaced(s, '\'', "'\\''"@) + seq!['\''], Quoting::Single) == Some(s),
    decreases s.len(),
{
    reveal_strlit("'\\''");
    let written = render::replaced(s, '\'', "'\\''"@) + seq!['\''];
    if s.len() == 0 {
        assert(written =~= seq!['\'']);
        assert(written.skip(1) =~= seq![]);
        assert(shell_read(written.skip(1), Quoting::Bare) == Some(Seq::<char>::empty()));
        assert(s =~= seq![]);
    } else {
        let tail = render::replaced(s.skip(1), '\'', "'\\''"@) + seq!['\''];
        lemma_replaced_front(s, '\'', "'\\''"@);
        lemma_single_quoted(s.skip(1));
        assert(seq![s[0]] + s.skip(1) =~= s);
        if s[0] == '\'' {
            let after = written.skip(1);
            assert(written[0] == '\'' && after[0] == '\\' && after[1] == '\'');
            assert(after.skip(2)[0] == '\'');
            assert(after.skip(2).skip(1) =~= tail);
            assert(shell_read(after.skip(2), Quoting::Bare) == Some(s.skip(1)));
            assert(shell_read(after, Quoting::Bare) == Some(seq!['\''] + s.skip(1)));
        } else {
            assert(written.skip(1) =~= tail);
        }
    }
}

proof fn lemma_double_quoted(s: Seq<char>)
    requires
        !render::has_active(s),
    ensures
        shell_read(render::replaced(s, '"', "\\\""@) + seq!['"'], Quoting::Double) == Some(s),
    decreases s.len(),
{
    reveal_strlit("\\\"");
    let written = render::replaced(s, '"', "\\\""@) + seq!['"'];
    if s.len() == 0 {
        assert(written =~= seq!['"']);
        assert(written.skip(1) =~= seq![]);
        assert(shell_read(written.skip(1), Quoting::Bare) == Some(Seq::<char>::empty()));
        assert(s =~= seq![]);
    } else {
        let tail = render::replaced(s.skip(1), '"', "\\\""@) + seq!['"'];
        lemma_replaced_front(s, '"', "\\\""@);
        assert(!render::has_active(s.skip(1))) by {
            assert forall|i: int| 0 <= i < s.skip(1).len() implies !render::active_in_quotes(
                #[trigger] s.skip(1)[i],
            ) by {
                assert(s.skip(1)[i] == s[i + 1]);
                assert(!render::active_in_quotes(s[i + 1]));
            }
        }
        lemma_double_quoted(s.skip(1));
        assert(seq![s[0]] + s.skip(1) =~= s);
        assert(!render::active_in_quotes(s[0]));
        if s[0] == '"' {
            assert(written.skip(2) =~= tail);
        } else {
            assert(written.skip(1) =~= tail);
        }
    }
}

/// A batch that is quoted for the shell reaches the command as one argument,
/// character for character.
pub proof fn law_shell_words_read_back(s: Seq<char>)
    ensures
        shell_read(render::shell_word(s), Quoting::Bare) == Some(s),
{
    let word = render::shell_word(s);
    reveal_strlit("'");
    reveal_strlit("\"");
    if render::has_active(s) {
        lemma_single_quoted(s);
        assert("'"@ =~= seq!['\'']);
        assert(word.skip(1) =~= render::replaced(s, '\'', "'\\''"@) + seq!['\'']);
    } else {
        lemma_double_quoted(s);
        assert("\""@ =~= seq!['"']);
        assert(word.skip(1) =~= render::replaced(s, '"', "\\\""@) + seq!['"']);
    }
}

// ---------------------------------------------------------------------------
// Rendered profiles
// ---------------------------------------------------------------------------
/// `rule` sets one of the outputs of `outputs` that are switched on.
pub open spec fn sets_one_of(rule: RuleView, outputs: Seq<ProfileOutputView>) -> bool {
    exists|i: int|
        0 <= i < outputs.len() && sets(rule, #[trigger] outputs[i])
}

/// `rule` sets `output`, which is switched on.
pub open spec fn sets(rule: RuleView, output: ProfileOutputView) -> bool {
    output.enabled && rule.monitor_id == output.monitor_id && rule.rule == render::enabled_rule(
        rule.output_name,
        output,
    )
}

/// `rule` switches an output off.
pub open spec fn switches_off(rule: RuleView) -> bool {
    rule.rule == render::disabled_rule(rule.output_name)
}

/// The first `k` of `rules` set outputs of `outputs`, the others switch outputs
/// off.
pub open spec fn split_at(rules: Seq<RuleView>, outputs: Seq<ProfileOutputView>, k: int) -> bool {
    &&& 0 <= k <= rules.len()
    &&& forall|i: int| 0 <= i < k ==> sets_one_of(#[trigger] rules[i], outputs)
    &&& forall|i: int| k <= i < rules.len() ==> switches_off(#[trigger] rules[i])
}

proof fn lemma_outputs_that(outputs: Seq<ProfileOutputView>, enabled: bool, n: int)
    requires
        0 <= n <= outputs.len(),
    ensures
        forall|i: int|
            0 <= i < render::outputs_that(outputs, enabled, n).len() ==> {
                &&& (#[trigger] render::outputs_that(outputs, enabled, n)[i]).enabled == enabled
                &&& outputs.contains(render::outputs_that(outputs, enabled, n)[i])
            },
        forall|i: int|
            0 <= i < n && (#[trigger] outputs[i]).enabled == enabled ==> render::outputs_that(
                outputs,
                enabled,
                n,
            ).contains(outputs[i]),
    decreases n,
{
    if n > 0 {
        lemma_outputs_that(outputs, enabled, n - 1);
        let before = render::outputs_that(outputs, enabled, n - 1);
        let now = render::outputs_that(outputs, enabled, n);
        if outputs[n - 1].enabled == enabled {
            assert(now[now.len() - 1] == outputs[n - 1]);
        }
        assert forall|i: int| 0 <= i < n && (#[trigger] outputs[i]).enabled == enabled implies
            now.contains(outputs[i]) by {
            if i < n - 1 {
                assert(before.contains(outputs[i]));
                let j = choose|j: int| 0 <= j < before.len() && before[j] == outputs[i];
                assert(now[j] == outputs[i]);
            }
        }
    }
}

pub(crate) proof fn lemma_enabled_first(outputs: Seq<ProfileOutputView>)
    ensures
        forall|i: int|
            0 <= i < render::enabled_first(outputs).len() ==> outputs.contains(
                #[trigger] render::enabled_first(outputs)[i],
            ),
        forall|i: int, j: int|
            0 <= i < j < render::enabled_first(outputs).len() && (
            #[trigger] render::enabled_first(outputs)[j]).enabled ==> (
            #[trigger] render::enabled_first(outputs)[i]).enabled,
        forall|i: int|
            0 <= i < outputs.len() ==> render::enabled_first(outputs).contains(
                #[trigger] outputs[i],
            ),
{
    let n = outputs.len() as int;
    lemma_outputs_that(outputs, true, n);
    lemma_outputs_that(outputs, false, n);
    let on = render::outputs_that(outputs, true, n);
    let off = render::outputs_that(outputs, false, n);
    let all = render::enabled_first(outputs);
    assert(all =~= on + off);
    assert forall|i: int| 0 <= i < outputs.len() implies all.contains(#[trigger] outputs[i]) by {
        if outputs[i].enabled {
            assert(on.contains(outputs[i]));
            let j = choose|j: int| 0 <= j < on.len() && on[j] == outputs[i];
            assert(all[j] == outputs[i]);
        } else {
            assert(off.contains(outputs[i]));
            let j = choose|j: int| 0 <= j < off.len() && off[j] == outputs[i];
            assert(all[on.len() + j] == outputs[i]);
        }
    }
}

/// The first `n` of `outputs` give commands that are split, and once one of
/// them is switched off none that follows is switched on.
proof fn lemma_wanted(
    name: Seq<char>,
    outputs: Seq<ProfileOutputView>,
    current: Seq<MonitorView>,
    found: Seq<Option<ResolvedView>>,
    n: int,
) -> (k: int)
    requires
        0 <= n <= outputs.len(),
        render::wanted_rules(name, outputs, current, found, n) is Ok,
        forall|i: int, j: int|
            0 <= i < j < outputs.len() && (#[trigger] outputs[j]).enabled ==> (
            #[trigger] outputs[i]).enabled,
    ensures
        split_at(render::wanted_rules(name, outputs, current, found, n)->Ok_0, outputs, k),
        n > 0 && outputs[n - 1].enabled ==> k == render::wanted_rules(
            name,
            outputs,
            current,
            found,
            n,
        )->Ok_0.len(),
        n == 0 ==> k == 0,
    decreases n,
{
    if n == 0 {
        0
    } else {
        let before = render::wanted_rules(name, outputs, current, found, n - 1)->Ok_0;
        let now = render::wanted_rules(name, outputs, current, found, n)->Ok_0;
        let k = lemma_wanted(name, outputs, current, found, n - 1);
        let output = outputs[n - 1];
        assert forall|i: int| 0 <= i < k implies sets_one_of(#[trigger] now[i], outputs) by {
            assert(now[i] == before[i]);
        }
        assert forall|i: int| k <= i < before.len() implies switches_off(#[trigger] now[i]) by {
            assert(now[i] == before[i]);
        }
        if output.enabled {
            assert(k == before.len()) by {
                if n > 1 {
                    assert(outputs[n - 2].enabled);
                }
            }
            if now.len() > before.len() {
                assert(sets(now[k], outputs[n - 1]));
                k + 1
            } else {
                k
            }
        } else {
            k
        }
    }
}

pub(crate) proof fn lemma_leftover(current: Seq<MonitorView>, found: Seq<Option<ResolvedView>>, n: int)
    requires
        0 <= n <= current.len(),
        render::leftover_rules(current, found, n) is Ok,
    ensures
        ({
            let rules = render::leftover_rules(current, found, n)->Ok_0;
            &&& forall|i: int| 0 <= i < rules.len() ==> switches_off(#[trigger] rules[i])
            &&& forall|j: int|
                0 <= j < n && (#[trigger] current[j]).enabled && !render::is_claimed(
                    found,
                    found.len() as int,
                    j,
                ) ==> rules.contains(switched_off(current[j]))
        }),
    decreases n,
{
    if n > 0 {
        lemma_leftover(current, found, n - 1);
        let before = render::leftover_rules(current, found, n - 1)->Ok_0;
        let now = render::leftover_rules(current, found, n)->Ok_0;
        if now.len() > before.len() {
            assert(now[before.len() as int] == switched_off(current[n - 1]));
        }
        assert forall|j: int|
            0 <= j < n && (#[trigger] current[j]).enabled && !render::is_claimed(
                found,
                found.len() as int,
                j,
            ) implies now.contains(switched_off(current[j])) by {
            if j < n - 1 {
                assert(before.contains(switched_off(current[j])));
                let i = choose|i: int| 0 <= i < before.len() && before[i] == switched_off(current[j]);
                assert(now[i] == before[i]);
            }
        }
    }
}

/// The command that switches a connected monitor off.
pub open spec fn switched_off(monitor: MonitorView) -> RuleView {
    RuleView {
        monitor_id: monitor.id,
        output_name: monitor.output_name,
        rule: render::disabled_rule(monitor.output_name),
    }
}

/// In what a profile renders to, every command that switches an output on comes
/// before every command that switches one off, so that no step of the batch
/// leaves the session without an output that the profile keeps.
pub proof fn law_outputs_are_switched_on_first(
    rendered: RenderedView,
    profile: ProfileView,
    current: Seq<MonitorView>,
    mode: MonitorMatchMode,
)
    requires
        render::is_rendering(Ok(rendered), profile, current, mode),
    ensures
        exists|k: int| #[trigger] split_at(rendered.mappings, profile.outputs, k),
{
    let outputs = render::enabled_first(profile.outputs);
    let a = choose|a: Seq<usize>| #[trigger]
        matching::best_pairing(render::wanted_monitors(profile), current, mode, a) && Ok::<
            RenderedView,
            Seq<char>,
        >(rendered) == render::rendered_with(
            profile,
            current,
            matching::partners(render::wanted_monitors(profile), current, mode, a),
        );
    let found = matching::partners(render::wanted_monitors(profile), current, mode, a);
    lemma_enabled_first(profile.outputs);
    let k = lemma_wanted(profile.name, outputs, current, found, outputs.len() as int);
    lemma_leftover(current, found, current.len() as int);
    let wanted = render::wanted_rules(
        profile.name,
        outputs,
        current,
        found,
        outputs.len() as int,
    )->Ok_0;
    let leftover = render::leftover_rules(current, found, current.len() as int)->Ok_0;
    let rules = rendered.mappings;
    assert(rules == wanted + leftover);
    assert forall|i: int| 0 <= i < k implies sets_one_of(#[trigger] rules[i], profile.outputs) by {
        assert(rules[i] == wanted[i]);
        assert(sets_one_of(wanted[i], outputs));
        let j = choose|j: int| 0 <= j < outputs.len() && sets(wanted[i], #[trigger] outputs[j]);
        assert(profile.outputs.contains(outputs[j]));
        let m = choose|m: int| 0 <= m < profile.outputs.len() && profile.outputs[m] == outputs[j];
        assert(sets(rules[i], profile.outputs[m]));
    }
    assert forall|i: int| k <= i < rules.len() implies switches_off(#[trigger] rules[i]) by {
        if i < wanted.len() {
            assert(rules[i] == wanted[i]);
        } else {
            assert(rules[i] == leftover[i - wanted.len()]);
        }
    }
    assert(split_at(rules, profile.outputs, k));
}

proof fn lemma_wanted_are_set(
    name: Seq<char>,
    outputs: Seq<ProfileOutputView>,
    current: Seq<MonitorView>,
    found: Seq<Option<ResolvedView>>,
    n: int,
    i: int,
) -> (k: int)
    requires
        0 <= i < n <= outputs.len(),
        outputs[i].enabled,
        render::wanted_rules(name, outputs, current, found, n) is Ok,
    ensures
        0 <= k < render::wanted_rules(name, outputs, current, found, n)->Ok_0.len(),
        sets(render::wanted_rules(name, outputs, current, found, n)->Ok_0[k], outputs[i]),
    decreases n,
{
    let now = render::wanted_rules(name, outputs, current, found, n)->Ok_0;
    let before = render::wanted_rules(name, outputs, current, found, n - 1)->Ok_0;
    if i == n - 1 {
        assert(sets(now[before.len() as int], outputs[i]));
        before.len() as int
    } else {
        let k = lemma_wanted_are_set(name, outputs, current, found, n - 1, i);
        assert(now[k] == before[k]);
        k
    }
}

/// Every output that a profile switches on is set by a command that carries its
/// mode, place, scale and turn.
pub proof fn law_enabled_outputs_are_set(
    rendered: RenderedView,
    profile: ProfileView,
    current: Seq<MonitorView>,
    mode: MonitorMatchMode,
    i: int,
)
    requires
        render::is_rendering(Ok(rendered), profile, current, mode),
        0 <= i < profile.outputs.len(),
        profile.outputs[i].enabled,
    ensures
        exists|k: int|
            0 <= k < rendered.mappings.len() && sets(
                #[trigger] rendered.mappings[k],
                profile.outputs[i],
            ),
{
    let outputs = render::enabled_first(profile.outputs);
    let a = choose|a: Seq<usize>| #[trigger]
        matching::best_pairing(render::wanted_monitors(profile), current, mode, a) && Ok::<
            RenderedView,
            Seq<char>,
        >(rendered) == render::rendered_with(
            profile,
            current,
            matching::partners(render::wanted_monitors(profile), current, mode, a),
        );
    let found = matching::partners(render::wanted_monitors(profile), current, mode, a);
    lemma_enabled_first(profile.outputs);
    assert(outputs.contains(profile.outputs[i]));
    let j = choose|j: int| 0 <= j < outputs.len() && outputs[j] == profile.outputs[i];
    let k = lemma_wanted_are_set(
        profile.name,
        outputs,
        current,
        found,
        outputs.len() as int,
        j,
    );
    let wanted = render::wanted_rules(
        profile.name,
        outputs,
        current,
        found,
        outputs.len() as int,
    )->Ok_0;
    assert(rendered.mappings[k] == wanted[k]);
}

/// A monitor that is on and that the profile does not know is switched off: a
/// rendered profile leaves none of the connected monitors as it happens to be.
pub proof fn law_unknown_monitors_are_switched_off(
    rendered: RenderedView,
    profile: ProfileView,
    current: Seq<MonitorView>,
    mode: MonitorMatchMode,
)
    requires
        render::is_rendering(Ok(rendered), profile, current, mode),
    ensures
        exists|a: Seq<usize>| #[trigger]
            matching::best_pairing(render::wanted_monitors(profile), current, mode, a)
                && accounted_for(
                rendered,
                current,
                matching::partners(render::wanted_monitors(profile), current, mode, a),
            ),
{
    let a = choose|a: Seq<usize>| #[trigger]
        matching::best_pairing(render::wanted_monitors(profile), current, mode, a) && Ok::<
            RenderedView,
            Seq<char>,
        >(rendered) == render::rendered_with(
            profile,
            current,
            matching::partners(render::wanted_monitors(profile), current, mode, a),
        );
    let found = matching::partners(render::wanted_monitors(profile), current, mode, a);
    let outputs = render::enabled_first(profile.outputs);
    let wanted = render::wanted_rules(
        profile.name,
        outputs,
        current,
        found,
        outputs.len() as int,
    )->Ok_0;
    let leftover = render::leftover_rules(current, found, current.len() as int)->Ok_0;
    lemma_leftover(current, found, current.len() as int);
    assert forall|j: int|
        0 <= j < current.len() && (#[trigger] current[j]).enabled && !render::is_claimed(
            found,
            found.len() as int,
            j,
        ) implies rendered.mappings.contains(switched_off(current[j])) by {
        assert(leftover.contains(switched_off(current[j])));
        let i = choose|i: int| 0 <= i < leftover.len() && leftover[i] == switched_off(current[j]);
        assert(rendered.mappings[wanted.len() + i] == leftover[i]);
    }
    assert(accounted_for(rendered, current, found));
}

/// Every connected monitor that is on is the partner of a remembered one or is
/// switched off.
pub open spec fn accounted_for(
    rendered: RenderedView,
    current: Seq<MonitorView>,
    found: Seq<Option<ResolvedView>>,
) -> bool {
    forall|j: int|
        0 <= j < current.len() && (#[trigger] current[j]).enabled && !render::is_claimed(
            found,
            found.len() as int,
            j,
        ) ==> rendered.mappings.contains(switched_off(current[j]))
}

pub(crate) proof fn lemma_calls(rules: Seq<Seq<char>>, n: int)
    requires
        0 <= n <= rules.len(),
        render::calls_error(rules, n) is None,
    ensures
        forall|i: int| 0 <= i < n ==> is_call(#[trigger] rules[i]),
    decreases n,
{
    if n > 0 {
        lemma_calls(rules, n - 1);
    }
}

/// `rule` is one call that sets a monitor.
pub open spec fn is_call(rule: Seq<char>) -> bool {
    &&& !render::has_separator(rule)
    &&& text::begins(rule, "hl.monitor({ "@)
    &&& text::ends(rule, " })"@)
}

/// Every command of a rendered profile is one call: none holds a character that
/// would end it and begin another, and the batch is these commands in order.
pub proof fn law_commands_are_single_calls(
    rendered: RenderedView,
    profile: ProfileView,
    current: Seq<MonitorView>,
    mode: MonitorMatchMode,
)
    requires
        render::is_rendering(Ok(rendered), profile, current, mode),
    ensures
        rendered.rules.len() > 0,
        rendered.rules == render::commands_of(rendered.mappings),
        forall|i: int| 0 <= i < rendered.rules.len() ==> is_call(#[trigger] rendered.rules[i]),
        rendered.batch == render::batch_text(rendered.rules),
{
    let a = choose|a: Seq<usize>| #[trigger]
        matching::best_pairing(render::wanted_monitors(profile), current, mode, a) && Ok::<
            RenderedView,
            Seq<char>,
        >(rendered) == render::rendered_with(
            profile,
            current,
            matching::partners(render::wanted_monitors(profile), current, mode, a),
        );
    assert(render::batch_error(rendered.rules) is None);
    lemma_calls(rendered.rules, rendered.rules.len() as int);
}

} // verus!
