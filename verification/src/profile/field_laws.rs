//! Values that hold the same have the same fields.
use vstd::prelude::*;

use crate::config::AppConfig;
use crate::profile::matching::ProfileMatch;
use crate::profile::plan;
use crate::profile::plan::{ApplyPlan, ExpectedMonitorState};
use crate::profile::render;
use crate::profile::render::RuleMapping;
use crate::profile::store;
use crate::profile::store::{Profile, ProfileMonitor, ProfileOutput};
use crate::text;

verus! {

/// What is remembered of a monitor is every field of it.
pub proof fn law_remembered_monitors_hold_every_field(a: ProfileMonitor, b: ProfileMonitor)
    requires
        a@ == b@,
    ensures
        a.id@ == b.id@,
        a.name_hint@ == b.name_hint@,
        a.description@ == b.description@,
        a.make@ == b.make@,
        a.model@ == b.model@,
        a.serial@ == b.serial@,
        a.physical_width == b.physical_width,
        a.physical_height == b.physical_height,
{
}

/// How an output is set is every field of it.
pub proof fn law_outputs_hold_every_field(a: ProfileOutput, b: ProfileOutput)
    requires
        a@ == b@,
    ensures
        a.monitor_id@ == b.monitor_id@,
        a.enabled == b.enabled,
        a.mode@ == b.mode@,
        a.x == b.x,
        a.y == b.y,
        a.scale.value() == b.scale.value(),
        a.transform == b.transform,
{
}

/// A profile is its name, its dates, and its monitors and outputs in their order.
pub proof fn law_profiles_hold_every_field(a: Profile, b: Profile, i: int)
    requires
        a@ == b@,
    ensures
        a.name@ == b.name@,
        a.created_at@ == b.created_at@,
        a.updated_at@ == b.updated_at@,
        a.monitors@.len() == b.monitors@.len(),
        a.outputs@.len() == b.outputs@.len(),
        0 <= i < a.monitors@.len() ==> a.monitors@[i]@ == b.monitors@[i]@,
        0 <= i < a.outputs@.len() ==> a.outputs@[i]@ == b.outputs@[i]@,
{
    assert(store::monitor_views(a.monitors@).len() == store::monitor_views(b.monitors@).len());
    assert(store::output_views(a.outputs@).len() == store::output_views(b.outputs@).len());
    if 0 <= i < a.monitors@.len() {
        assert(store::monitor_views(a.monitors@)[i] == store::monitor_views(b.monitors@)[i]);
    }
    if 0 <= i < a.outputs@.len() {
        assert(store::output_views(a.outputs@)[i] == store::output_views(b.outputs@)[i]);
    }
}

/// What a monitor is to look like is every field of it.
pub proof fn law_expected_states_hold_every_field(
    a: ExpectedMonitorState,
    b: ExpectedMonitorState,
)
    requires
        a@ == b@,
    ensures
        a.output_name@ == b.output_name@,
        a.monitor_id@ == b.monitor_id@,
        a.enabled == b.enabled,
        a.mode@ == b.mode@,
        a.x == b.x,
        a.y == b.y,
        a.scale.value() == b.scale.value(),
        a.transform == b.transform,
        a.verify_details_when_disabled == b.verify_details_when_disabled,
{
}

/// A command is the monitor and the connector that it is for, and its text.
pub proof fn law_commands_hold_every_field(a: RuleMapping, b: RuleMapping)
    requires
        a@ == b@,
    ensures
        a.monitor_id@ == b.monitor_id@,
        a.output_name@ == b.output_name@,
        a.rule@ == b.rule@,
{
}

/// A plan is its commands in their order, what it warns of, whether it changes anything,
/// what it expects, and the way back.
pub proof fn law_plans_hold_every_field(a: ApplyPlan, b: ApplyPlan, i: int)
    requires
        a@ == b@,
    ensures
        a.profile_name@ == b.profile_name@,
        a.batch@ == b.batch@,
        a.is_noop == b.is_noop,
        a.mappings@.len() == b.mappings@.len(),
        a.rules@.len() == b.rules@.len(),
        a.warnings@.len() == b.warnings@.len(),
        0 <= i < a.mappings@.len() ==> a.mappings@[i]@ == b.mappings@[i]@,
        0 <= i < a.rules@.len() ==> a.rules@[i]@ == b.rules@[i]@,
        0 <= i < a.warnings@.len() ==> a.warnings@[i]@ == b.warnings@[i]@,
        a.expected@.len() == b.expected@.len(),
        0 <= i < a.expected@.len() ==> a.expected@[i]@ == b.expected@[i]@,
        a.rollback_batch@ == b.rollback_batch@,
        a.rollback_expected@.len() == b.rollback_expected@.len(),
        0 <= i < a.rollback_expected@.len() ==> a.rollback_expected@[i]@
            == b.rollback_expected@[i]@,
        a.profile@ == b.profile@,
        a.match_mode == b.match_mode,
{
    assert(render::mapping_views(a.mappings@).len() == render::mapping_views(b.mappings@).len());
    assert(text::texts(a.rules@).len() == text::texts(b.rules@).len());
    assert(plan::warning_views(a.warnings@).len() == plan::warning_views(b.warnings@).len());
    assert(plan::expected_views(a.expected@).len() == plan::expected_views(b.expected@).len());
    assert(plan::expected_views(a.rollback_expected@).len() == plan::expected_views(b.rollback_expected@).len());
    if 0 <= i < a.mappings@.len() {
        assert(render::mapping_views(a.mappings@)[i] == render::mapping_views(b.mappings@)[i]);
    }
    if 0 <= i < a.rules@.len() {
        assert(text::texts(a.rules@)[i] == text::texts(b.rules@)[i]);
    }
    if 0 <= i < a.warnings@.len() {
        assert(plan::warning_views(a.warnings@)[i] == plan::warning_views(b.warnings@)[i]);
    }
    if 0 <= i < a.expected@.len() {
        assert(plan::expected_views(a.expected@)[i] == plan::expected_views(b.expected@)[i]);
    }
    if 0 <= i < a.rollback_expected@.len() {
        assert(plan::expected_views(a.rollback_expected@)[i] == plan::expected_views(b.rollback_expected@)[i]);
    }
}

/// How a profile fits is every field of it.
pub proof fn law_matches_hold_every_field(a: ProfileMatch, b: ProfileMatch)
    requires
        a@ == b@,
    ensures
        a.profile_name@ == b.profile_name@,
        a.confidence == b.confidence,
        a.score == b.score,
        a.matched_monitors == b.matched_monitors,
        a.profile_monitors == b.profile_monitors,
        a.current_monitors == b.current_monitors,
        a.reasons@.len() == b.reasons@.len(),
{
    assert(text::texts(a.reasons@).len() == text::texts(b.reasons@).len());
}

/// Settings are every field of them.
pub proof fn law_settings_hold_every_field(a: AppConfig, b: AppConfig)
    requires
        a@ == b@,
    ensures
        a.fallback_profile is Some <==> b.fallback_profile is Some,
        a.fallback_profile is Some ==> a.fallback_profile->0@ == b.fallback_profile->0@,
        a.debounce_ms == b.debounce_ms,
        a.apply_on_start == b.apply_on_start,
        a.tui_move_step == b.tui_move_step,
{
}

} // verus!
