//! The editor.
use vstd::prelude::*;

use crate::bytes;
use crate::bytes::char_width;
use crate::config::{AppConfig, ConfigPaths, ConfigView, PathsView, MAX_MOVE_STEP};
use crate::doctor;
use crate::doctor::plural;
use crate::error;
use crate::error::Error;
use crate::hyprland::monitor;
use crate::hyprland::monitor::{MonitorState, MonitorView};
use crate::number;
use crate::number::Decimal;
use crate::profile::matching;
use crate::profile::matching::{
    best_profile_match, decide_auto_apply, format_auto_apply_decision, resolve_monitor_matches,
    AutoApplyDecision, BestProfileMatch, DecisionView, MonitorMatchMode, ResolvedMonitorMatch,
    ResolvedView,
};
use crate::profile::plan;
use crate::profile::plan::{ensure_plan_safe_to_apply, plan_apply, ApplyPlan, PlanView};
use crate::profile::render;
use crate::profile::store;
use crate::profile::store::{
    Profile, ProfileMonitor, ProfileOutput, ProfileOutputView, ProfileStore, ProfileView,
};
use crate::profile::validation;
use crate::profile::validation::{MAX_PROFILE_NAME_BYTES, MAX_SCALE, MIN_SCALE};
use crate::text;
use crate::tui::geometry;
use crate::tui::geometry::{move_output, snap_output_with_monitors, SnapDirection};
use crate::tui::steps;
use crate::tui::steps_laws;
use crate::tui::steps::{AppView, ChangeView, EffectView, ModeView, SequelView, StepView};

verus! {

/// An editor of profiles: a draft, and what it is made from.
#[derive(Debug, PartialEq)]
pub struct TuiApp {
    pub paths: ConfigPaths,
    pub config: AppConfig,
    pub store: ProfileStore,
    pub monitors: Vec<MonitorState>,
    pub selected_profile_index: Option<usize>,
    pub selected_monitor_index: Option<usize>,
    pub draft: Profile,
    pub dirty: bool,
    pub input_mode: TuiInputMode,
    pub status: String,
}

/// What the editor is waiting for.
#[derive(Debug, PartialEq, Eq)]
pub enum TuiInputMode {
    Normal,
    SaveAs { name: String },
    ConfirmReplace { name: String },
    ConfirmQuit,
    ConfirmApply,
    RenameProfile { name: String },
    CopyProfile { source: String, name: String },
    ConfirmCopyReplace { source: String, name: String },
    ConfirmDelete { name: String },
    ModeSelect { modes: Vec<String>, cursor: usize },
    SnapTarget { direction: SnapDirection, targets: Vec<usize>, cursor: usize },
    Help,
}

/// What the user asks for.
#[derive(Debug, Clone, Copy, PartialEq)]
pub enum TuiAction {
    NextProfile,
    PreviousProfile,
    SelectProfile(usize),
    NextMonitor,
    PreviousMonitor,
    SelectMonitor(usize),
    MoveSelected(i32, i32),
    NudgeLeft,
    NudgeRight,
    NudgeUp,
    NudgeDown,
    SnapSelected(SnapDirection),
    ToggleSelected,
    CycleSelectedMode,
    SelectNextMode,
    SelectPreviousMode,
    CycleSelectedTransform,
    AdjustSelectedScale(Decimal),
    NewDraft,
    BeginSaveAs,
    BeginRename,
    BeginCopy,
    BeginDelete,
    SaveNameChar(char),
    SaveNameBackspace,
    Submit,
    Cancel,
    Confirm,
    RequestQuit,
    ApplyDraft,
    RefreshMonitors,
    AutoSelect,
    ShowHelp,
}

/// A change to the saved profiles.
#[derive(Debug, PartialEq)]
pub enum StoreChange {
    Save { profile: Profile, replace: bool },
    Rename { old_name: String, new_name: String },
    Delete { name: String },
    Copy { source: String, destination: String, replace: bool },
}

/// What an action asks of the surroundings.
#[derive(Debug, PartialEq)]
pub enum TuiEffect {
    Nothing,
    Apply(Box<ApplyPlan>),
    RefreshMonitors,
    Quit,
    Change(Box<StoreChange>),
}

/// What is left to do once the editor has changed.
#[derive(Debug, PartialEq)]
pub enum Sequel {
    Plain(TuiEffect),
    Preview,
    RequestApply,
    ConfirmedApply,
    Refuse(Error),
}

// ---------------------------------------------------------------------------
// Views
// ---------------------------------------------------------------------------
impl View for TuiInputMode {
    type V = ModeView;

    open spec fn view(&self) -> ModeView {
        match self {
            TuiInputMode::Normal => ModeView::Normal,
            TuiInputMode::SaveAs { name } => ModeView::SaveAs { name: name@ },
            TuiInputMode::ConfirmReplace { name } => ModeView::ConfirmReplace { name: name@ },
            TuiInputMode::ConfirmQuit => ModeView::ConfirmQuit,
            TuiInputMode::ConfirmApply => ModeView::ConfirmApply,
            TuiInputMode::RenameProfile { name } => ModeView::RenameProfile { name: name@ },
            TuiInputMode::CopyProfile { source, name } => ModeView::CopyProfile {
                source: source@,
                name: name@,
            },
            TuiInputMode::ConfirmCopyReplace { source, name } => ModeView::ConfirmCopyReplace {
                source: source@,
                name: name@,
            },
            TuiInputMode::ConfirmDelete { name } => ModeView::ConfirmDelete { name: name@ },
            TuiInputMode::ModeSelect { modes, cursor } => ModeView::ModeSelect {
                modes: text::texts(modes@),
                cursor: *cursor,
            },
            TuiInputMode::SnapTarget { direction, targets, cursor } => ModeView::SnapTarget {
                direction: *direction,
                targets: targets@,
                cursor: *cursor,
            },
            TuiInputMode::Help => ModeView::Help,
        }
    }
}

impl Clone for TuiInputMode {
    fn clone(&self) -> (result: Self)
        ensures
            result@ == self@,
    {
        match self {
            TuiInputMode::Normal => TuiInputMode::Normal,
            TuiInputMode::SaveAs { name } => TuiInputMode::SaveAs { name: name.clone() },
            TuiInputMode::ConfirmReplace { name } => TuiInputMode::ConfirmReplace {
                name: name.clone(),
            },
            TuiInputMode::ConfirmQuit => TuiInputMode::ConfirmQuit,
            TuiInputMode::ConfirmApply => TuiInputMode::ConfirmApply,
            TuiInputMode::RenameProfile { name } => TuiInputMode::RenameProfile {
                name: name.clone(),
            },
            TuiInputMode::CopyProfile { source, name } => TuiInputMode::CopyProfile {
                source: source.clone(),
                name: name.clone(),
            },
            TuiInputMode::ConfirmCopyReplace { source, name } => TuiInputMode::ConfirmCopyReplace {
                source: source.clone(),
                name: name.clone(),
            },
            TuiInputMode::ConfirmDelete { name } => TuiInputMode::ConfirmDelete {
                name: name.clone(),
            },
            TuiInputMode::ModeSelect { modes, cursor } => TuiInputMode::ModeSelect {
                modes: text::copied(modes),
                cursor: *cursor,
            },
            TuiInputMode::SnapTarget { direction, targets, cursor } => {
                let mut copy: Vec<usize> = Vec::new();
                let mut i: usize = 0;
                while i < targets.len()
                    invariant
                        i <= targets@.len(),
                        copy@ == targets@.take(i as int),
                    decreases targets@.len() - i,
                {
                    copy.push(targets[i]);
                    assert(copy@ =~= targets@.take(i + 1));
                    i += 1;
                }
                assert(targets@.take(targets@.len() as int) =~= targets@);
                TuiInputMode::SnapTarget { direction: *direction, targets: copy, cursor: *cursor }
            },
            TuiInputMode::Help => TuiInputMode::Help,
        }
    }
}

impl View for TuiApp {
    type V = AppView;

    open spec fn view(&self) -> AppView {
        AppView {
            paths: self.paths@,
            config: self.config@,
            store: self.store@,
            monitors: monitor::views(self.monitors@),
            selected_profile: self.selected_profile_index,
            selected_monitor: self.selected_monitor_index,
            draft: self.draft@,
            dirty: self.dirty,
            mode: self.input_mode@,
            status: self.status@,
        }
    }
}

impl View for StoreChange {
    type V = ChangeView;

    open spec fn view(&self) -> ChangeView {
        match self {
            StoreChange::Save { profile, replace } => ChangeView::Save {
                profile: profile@,
                replace: *replace,
            },
            StoreChange::Rename { old_name, new_name } => ChangeView::Rename {
                old_name: old_name@,
                new_name: new_name@,
            },
            StoreChange::Delete { name } => ChangeView::Delete { name: name@ },
            StoreChange::Copy { source, destination, replace } => ChangeView::Copy {
                source: source@,
                destination: destination@,
                replace: *replace,
            },
        }
    }
}

impl View for TuiEffect {
    type V = EffectView;

    open spec fn view(&self) -> EffectView {
        match self {
            TuiEffect::Nothing => EffectView::Nothing,
            TuiEffect::Apply(plan) => EffectView::Apply(plan@),
            TuiEffect::RefreshMonitors => EffectView::RefreshMonitors,
            TuiEffect::Quit => EffectView::Quit,
            TuiEffect::Change(change) => EffectView::Change(change@),
        }
    }
}

impl View for Sequel {
    type V = SequelView;

    open spec fn view(&self) -> SequelView {
        match self {
            Sequel::Plain(effect) => SequelView::Plain(effect@),
            Sequel::Preview => SequelView::Preview,
            Sequel::RequestApply => SequelView::RequestApply,
            Sequel::ConfirmedApply => SequelView::ConfirmedApply,
            Sequel::Refuse(error) => SequelView::Refuse(error.refusal()),
        }
    }
}

// ---------------------------------------------------------------------------
// Parts
// ---------------------------------------------------------------------------
/// Nothing is left to do.
fn finished() -> (result: Sequel)
    ensures
        result@ == SequelView::Plain(EffectView::Nothing),
{
    Sequel::Plain(TuiEffect::Nothing)
}

fn first_selectable_monitor(profile: &Profile) -> (result: Option<usize>)
    ensures
        result == steps::first_monitor(profile@),
{
    if profile.outputs.len() == 0 {
        None
    } else {
        Some(0)
    }
}

fn draft_from_current(store: &ProfileStore, monitors: &Vec<MonitorState>) -> (result: Profile)
    ensures
        result@ == steps::current_draft(store@, monitor::views(monitors@)),
{
    let result: Profile = Profile::from_monitors(
        store.next_generated_name(monitors),
        monitors,
        String::new(),
        String::new(),
    );
    assert(result@ =~= steps::current_draft(store@, monitor::views(monitors@)));
    result
}

fn find_remembered(monitors: &Vec<ProfileMonitor>, id: &str) -> (result: Option<usize>)
    ensures
        match (result, steps::remembered_with(store::monitor_views(monitors@), id@)) {
            (Some(i), Some(found)) => i < monitors@.len() && monitors@[i as int]@ == found,
            (None, None) => true,
            _ => false,
        },
{
    let ghost all = store::monitor_views(monitors@);
    assert(all.skip(0) =~= all);
    let mut i: usize = 0;
    while i < monitors.len()
        invariant
            i <= monitors@.len(),
            all == store::monitor_views(monitors@),
            steps::remembered_with(all, id@) == steps::remembered_with(all.skip(i as int), id@),
        decreases monitors@.len() - i,
    {
        assert(all.skip(i as int)[0] == monitors@[i as int]@);
        if text::same(monitors[i].id.as_str(), id) {
            return Some(i);
        }
        assert(all.skip(i as int).drop_first() =~= all.skip(i + 1));
        i += 1;
    }
    None
}

fn output_label(profile: &Profile, output: &ProfileOutput) -> (result: String)
    ensures
        result@ == steps::label_of(profile@, output@),
{
    match find_remembered(&profile.monitors, output.monitor_id.as_str()) {
        None => output.monitor_id.clone(),
        Some(i) => {
            let monitor: &ProfileMonitor = &profile.monitors[i];
            if text::trim(monitor.name_hint.as_str()).unicode_len() == 0 {
                monitor.id.clone()
            } else {
                monitor.name_hint.clone()
            }
        },
    }
}

fn output_label_at(profile: &Profile, index: usize) -> (result: String)
    ensures
        result@ == steps::label_at(profile@, index as int),
{
    if index < profile.outputs.len() {
        assert(profile@.outputs[index as int] == profile.outputs@[index as int]@);
        output_label(profile, &profile.outputs[index])
    } else {
        "selected monitor".to_owned()
    }
}

fn normalize_mode(mode: &str) -> (result: String)
    ensures
        result@ == steps::plain_mode(mode@),
{
    text::strip_suffix(mode, "Hz").to_owned()
}

fn mode_select_status(modes: &Vec<String>, cursor: usize) -> (result: String)
    ensures
        result@ == steps::mode_status(text::texts(modes@), cursor as int),
{
    if cursor < modes.len() {
        assert(text::texts(modes@)[cursor as int] == modes@[cursor as int]@);
        "Mode: ".to_owned().concat(normalize_mode(modes[cursor].as_str()).as_str()).concat(
            "  Enter select  Esc cancel",
        )
    } else {
        "No modes available".to_owned()
    }
}

fn snap_target_status(draft: &Profile, targets: &Vec<usize>, cursor: usize) -> (result: String)
    ensures
        result@ == steps::snap_status(draft@, targets@, cursor as int),
{
    if cursor < targets.len() {
        "Snap target: ".to_owned().concat(output_label_at(draft, targets[cursor]).as_str()).concat(
            "  Enter select  Esc cancel",
        )
    } else {
        "No enabled snap target".to_owned()
    }
}

/// The number after `cursor`, around `len`.
fn next_index(cursor: usize, len: usize) -> (result: usize)
    ensures
        result == steps::after(cursor as int, len as int),
{
    if len == 0 {
        return cursor;
    }
    let at: usize = cursor % len;
    proof {
        lemma_around(cursor as int, len as int, 1);
    }
    if at + 1 == len {
        0
    } else {
        at + 1
    }
}

/// The number before `cursor`, around `len`.
fn previous_index(cursor: usize, len: usize) -> (result: usize)
    ensures
        result == steps::before(cursor as int, len as int),
{
    if len == 0 {
        return cursor;
    }
    let at: usize = cursor % len;
    proof {
        lemma_around(cursor as int, len as int, -1);
    }
    if at == 0 {
        len - 1
    } else {
        at - 1
    }
}

proof fn lemma_around(cursor: int, len: int, by: int)
    requires
        0 <= cursor,
        0 < len,
        by == 1 || by == -1,
    ensures
        (cursor + by) % len == (if cursor % len + by == len {
            0
        } else if cursor % len + by < 0 {
            len - 1
        } else {
            cursor % len + by
        }),
        0 <= cursor % len < len,
{
    vstd::arithmetic::div_mod::lemma_fundamental_div_mod(cursor, len);
    let q = cursor / len;
    let r = cursor % len;
    assert(0 <= r < len) by (nonlinear_arith)
        requires
            r == cursor % len,
            len > 0,
    ;
    assert(cursor + by == len * q + (r + by));
    vstd::arithmetic::div_mod::lemma_mod_multiples_vanish(q, r + by, len);
    if r + by == len {
        assert(len % len == 0) by (nonlinear_arith)
            requires
                len > 0,
        ;
    } else if r + by < 0 {
        vstd::arithmetic::div_mod::lemma_mod_multiples_vanish(1, -1, len);
        vstd::arithmetic::div_mod::lemma_small_mod((len - 1) as nat, len as nat);
        assert(len * 1 + (-1) == len - 1);
    } else {
        vstd::arithmetic::div_mod::lemma_small_mod((r + by) as nat, len as nat);
    }
}

/// `name` with a character more, where it may have one.
pub fn append_profile_name_char(name: &mut String, character: char)
    ensures
        final(name)@ == steps::typed(old(name)@, character),
{
    let size: usize = text::bytes_in(name.as_str());
    let width: usize = char_width(character);
    if text::is_control(character) || size > MAX_PROFILE_NAME_BYTES || size + width
        > MAX_PROFILE_NAME_BYTES {
        return;
    }
    name.push(character);
}

fn erase_last(name: &str) -> (result: String)
    ensures
        result@ == steps::erased(name@),
{
    let size: usize = name.unicode_len();
    if size == 0 {
        name.to_owned()
    } else {
        assert(name@.subrange(0, size - 1) =~= name@.drop_last());
        name.substring_char(0, size - 1).to_owned()
    }
}

fn warning_count(count: usize) -> (result: String)
    ensures
        result@ == steps::warnings_text(count as int),
{
    text::decimal(count as i128).concat(" warning").concat(plural(count))
}

fn find_mode(modes: &Vec<String>, mode: &str) -> (result: usize)
    ensures
        result == geometry::larger(steps::mode_position(text::texts(modes@), mode@), 0),
        modes@.len() > 0 ==> result < modes@.len(),
{
    let ghost all = text::texts(modes@);
    assert(all.skip(0) =~= all);
    let mut i: usize = 0;
    while i < modes.len()
        invariant
            i <= modes@.len(),
            all == text::texts(modes@),
            ({
                let rest = steps::mode_position(all.skip(i as int), mode@);
                steps::mode_position(all, mode@) == (if rest < 0 {
                    -1
                } else {
                    rest + i
                })
            }),
        decreases modes@.len() - i,
    {
        assert(all.skip(i as int)[0] == modes@[i as int]@);
        if text::same(normalize_mode(modes[i].as_str()).as_str(), mode) {
            return i;
        }
        assert(all.skip(i as int).drop_first() =~= all.skip(i + 1));
        i += 1;
    }
    0
}

// ---------------------------------------------------------------------------
// The editor
// ---------------------------------------------------------------------------
impl TuiApp {
    fn move_step(&self) -> (result: i32)
        ensures
            result == steps::nudge(self@),
            1 <= result <= MAX_MOVE_STEP,
    {
        let step: i32 = self.config.tui_move_step;
        if step < 1 {
            1
        } else if step > MAX_MOVE_STEP {
            MAX_MOVE_STEP
        } else {
            step
        }
    }

    fn mark_dirty(&mut self, status: String)
        ensures
            final(self)@ == (AppView { dirty: true, status: status@, ..old(self)@ }),
    {
        self.dirty = true;
        self.status = status;
    }

    fn put_output(&mut self, index: usize, output: ProfileOutput)
        requires
            index < old(self)@.draft.outputs.len(),
        ensures
            final(self)@ == (AppView {
                draft: steps::with_output(old(self)@, index as int, output@),
                ..old(self)@
            }),
    {
        let ghost all = store::output_views(self.draft.outputs@);
        let ghost put = output@;
        self.draft.outputs.set(index, output);
        assert(store::output_views(self.draft.outputs@) =~= all.update(index as int, put));
    }

    fn edit(&mut self, profile: Profile)
        ensures
            final(self)@ == steps::editing(old(self)@, profile@),
    {
        self.selected_monitor_index = first_selectable_monitor(&profile);
        self.draft = profile;
        self.dirty = false;
        self.input_mode = TuiInputMode::Normal;
    }

    fn select_profile(&mut self, index: usize) -> (result: Sequel)
        ensures
            (StepView { app: final(self)@, sequel: result@ }) == steps::profile_selected(
                old(self)@,
                index as int,
            ),
    {
        if self.dirty {
            self.status = "Save the modified draft or quit before switching profiles".to_owned();
            return finished();
        }
        if index < self.store.profiles.len() {
            assert(self.store@[index as int] == self.store.profiles@[index as int]@);
            let profile: Profile = self.store.profiles[index].clone();
            self.selected_profile_index = Some(index);
            self.edit(profile);
            return Sequel::Preview;
        }
        finished()
    }

    fn select_relative_profile(&mut self, forward: bool) -> (result: Sequel)
        ensures
            (StepView { app: final(self)@, sequel: result@ }) == steps::neighbour_profile(
                old(self)@,
                forward,
            ),
    {
        let len: usize = self.store.profiles.len();
        if len == 0 {
            return finished();
        }
        let current: usize = match self.selected_profile_index {
            Some(i) => i,
            None => 0,
        };
        let next: usize = if forward {
            next_index(current, len)
        } else {
            previous_index(current, len)
        };
        self.select_profile(next)
    }

    fn select_monitor(&mut self, index: usize) -> (result: Sequel)
        ensures
            (StepView { app: final(self)@, sequel: result@ }) == steps::monitor_selected(
                old(self)@,
                index as int,
            ),
    {
        if index < self.draft.outputs.len() {
            self.selected_monitor_index = Some(index);
            Sequel::Preview
        } else {
            finished()
        }
    }

    fn select_relative_monitor(&mut self, forward: bool) -> (result: Sequel)
        ensures
            (StepView { app: final(self)@, sequel: result@ }) == steps::neighbour_monitor(
                old(self)@,
                forward,
            ),
    {
        let len: usize = self.draft.outputs.len();
        if len == 0 {
            return finished();
        }
        let current: usize = match self.selected_monitor_index {
            Some(i) => i,
            None => 0,
        };
        let next: usize = if forward {
            next_index(current, len)
        } else {
            previous_index(current, len)
        };
        self.select_monitor(next)
    }

    fn selected(&self) -> (result: Option<usize>)
        ensures
            match (result, steps::selected_output(self@)) {
                (Some(i), Some(selected)) => i == selected && i < self.draft.outputs@.len()
                    && self@.draft.outputs[i as int] == self.draft.outputs@[i as int]@,
                (None, None) => true,
                _ => false,
            },
    {
        match self.selected_monitor_index {
            Some(i) => if i < self.draft.outputs.len() {
                Some(i)
            } else {
                None
            },
            None => None,
        }
    }

    fn move_selected(&mut self, dx: i32, dy: i32)
        ensures
            final(self)@ == steps::selected_moved(old(self)@, dx as int, dy as int),
    {
        match self.selected() {
            None => {},
            Some(i) => {
                let status: String = "Moved ".to_owned().concat(
                    output_label_at(&self.draft, i).as_str(),
                );
                let mut output: ProfileOutput = self.draft.outputs[i].clone();
                if move_output(&mut output, dx, dy) {
                    self.put_output(i, output);
                    self.mark_dirty(status);
                }
            },
        }
    }

    fn snap_target_indexes(&self, selected_index: usize) -> (result: Vec<usize>)
        ensures
            result@ == steps::snap_targets(
                self@.draft.outputs,
                selected_index as int,
                self@.draft.outputs.len() as int,
            ),
    {
        let ghost all = store::output_views(self.draft.outputs@);
        let mut result: Vec<usize> = Vec::new();
        let mut i: usize = 0;
        while i < self.draft.outputs.len()
            invariant
                i <= self.draft.outputs@.len(),
                all == store::output_views(self.draft.outputs@),
                result@ == steps::snap_targets(all, selected_index as int, i as int),
            decreases self.draft.outputs@.len() - i,
        {
            assert(all[i as int] == self.draft.outputs@[i as int]@);
            if i != selected_index && self.draft.outputs[i].enabled {
                result.push(i);
            }
            i += 1;
        }
        result
    }

    fn apply_snap(&mut self, selected_index: usize, target_index: usize, direction: SnapDirection)
        ensures
            final(self)@ == steps::output_snapped(
                old(self)@,
                selected_index as int,
                target_index as int,
                direction,
            ),
    {
        if snap_output_with_monitors(
            &mut self.draft.outputs,
            &self.monitors,
            selected_index,
            target_index,
            direction,
        ) {
            self.mark_dirty("Snapped selected monitor".to_owned());
        }
    }

    fn snap_selected(&mut self, direction: SnapDirection)
        ensures
            final(self)@ == steps::selected_snapped(old(self)@, direction),
    {
        let selected_index: usize = match self.selected_monitor_index {
            Some(i) => i,
            None => {
                return;
            },
        };
        let targets: Vec<usize> = self.snap_target_indexes(selected_index);
        if targets.len() == 0 {
            self.status = "No enabled snap target".to_owned();
            return;
        }
        if targets.len() > 1 {
            self.status = snap_target_status(&self.draft, &targets, 0);
            self.input_mode = TuiInputMode::SnapTarget { direction, targets, cursor: 0 };
            return;
        }
        self.apply_snap(selected_index, targets[0], direction);
    }

    fn toggle_selected(&mut self)
        ensures
            final(self)@ == steps::selected_toggled(old(self)@),
    {
        match self.selected() {
            None => {},
            Some(i) => {
                let status: String = "Toggled ".to_owned().concat(
                    output_label_at(&self.draft, i).as_str(),
                );
                let mut output: ProfileOutput = self.draft.outputs[i].clone();
                output.enabled = !output.enabled;
                self.put_output(i, output);
                self.mark_dirty(status);
            },
        }
    }

    fn cycle_selected_transform(&mut self)
        ensures
            final(self)@ == steps::selected_turned(old(self)@),
    {
        match self.selected() {
            None => {},
            Some(i) => {
                let mut output: ProfileOutput = self.draft.outputs[i].clone();
                output.transform = next_transform(output.transform);
                self.put_output(i, output);
                self.mark_dirty("Changed selected monitor transform".to_owned());
            },
        }
    }

    fn adjust_selected_scale(&mut self, delta: Decimal)
        ensures
            final(self)@ == steps::selected_scaled(old(self)@, delta.value()),
    {
        match self.selected() {
            None => {},
            Some(i) => {
                let mut output: ProfileOutput = self.draft.outputs[i].clone();
                reveal(steps::changed_scale);
                output.scale = clamp_scale(output.scale.plus(&delta));
                self.put_output(i, output);
                self.mark_dirty("Changed selected monitor scale".to_owned());
            },
        }
    }

    fn resolve_selected(&self, index: usize) -> (result: Option<usize>)
        requires
            index < self@.draft.outputs.len(),
            plan::plannable(self@.monitors.len()),
        ensures
            exists|found: Option<ResolvedView>| #[trigger]
                steps::is_partner(found, self@, index as int) && match result {
                    Some(i) => i < self.monitors@.len() && self@.monitors[i as int].available_modes
                        == steps::modes_of(self@, found),
                    None => steps::modes_of(self@, found).len() == 0,
                },
    {
        assert(self@.draft.outputs[index as int] == self.draft.outputs@[index as int]@);
        let id: &str = self.draft.outputs[index].monitor_id.as_str();
        let remembered: usize = match find_remembered(&self.draft.monitors, id) {
            Some(i) => i,
            None => {
                assert(steps::is_partner(None, self@, index as int));
                return None;
            },
        };
        let mut wanted: Vec<ProfileMonitor> = Vec::new();
        wanted.push(self.draft.monitors[remembered].clone());
        let ghost monitor = wanted@[0]@;
        assert(store::monitor_views(wanted@) =~= seq![monitor]);
        let found: Vec<Option<ResolvedMonitorMatch>> = resolve_monitor_matches(
            &wanted,
            &self.monitors,
        );
        let ghost views = matching::resolved_views(found@);
        assert(views.len() == 1);
        assert(views[0] == matching::resolved_view(found@[0]));
        assert(steps::is_partner(views[0], self@, index as int));
        match &found[0] {
            Some(resolved) => if !resolved.ambiguous && resolved.current_index
                < self.monitors.len() {
                Some(resolved.current_index)
            } else {
                None
            },
            None => None,
        }
    }

    fn cycle_selected_mode(&mut self)
        requires
            plan::plannable(old(self)@.monitors.len()),
        ensures
            steps::is_mode_step(
                old(self)@,
                StepView {
                    app: final(self)@,
                    sequel: SequelView::Plain(EffectView::Nothing),
                },
            ),
    {
        let index: usize = match self.selected() {
            Some(i) => i,
            None => {
                return;
            },
        };
        let ghost before = self@;
        let resolved: Option<usize> = self.resolve_selected(index);
        let ghost found = choose|found: Option<ResolvedView>| #[trigger]
            steps::is_partner(found, before, index as int) && match resolved {
                Some(i) => i < self.monitors@.len() && before.monitors[i as int].available_modes
                    == steps::modes_of(before, found),
                None => steps::modes_of(before, found).len() == 0,
            };
        let modes: Vec<String> = match resolved {
            Some(i) => {
                assert(before.monitors[i as int] == self.monitors@[i as int]@);
                text::copied(&self.monitors[i].available_modes)
            },
            None => Vec::new(),
        };
        assert(text::texts(modes@) =~= steps::modes_of(before, found));
        if modes.len() == 0 {
            self.status = "Selected monitor has no advertised modes".to_owned();
            assert(self@ =~= steps::modes_offered(
                before,
                steps::modes_of(before, found),
                before.draft.outputs[index as int].mode,
            ));
            return;
        }
        let cursor: usize = find_mode(&modes, self.draft.outputs[index].mode.as_str());
        self.status = mode_select_status(&modes, cursor);
        self.input_mode = TuiInputMode::ModeSelect { modes, cursor };
        assert(self@ =~= steps::modes_offered(
            before,
            steps::modes_of(before, found),
            before.draft.outputs[index as int].mode,
        ));
    }

    fn apply_selected_mode(&mut self, modes: &Vec<String>, cursor: usize)
        ensures
            final(self)@ == steps::mode_taken(old(self)@, text::texts(modes@), cursor as int),
    {
        match self.selected() {
            None => {},
            Some(i) => if cursor < modes.len() {
                assert(text::texts(modes@)[cursor as int] == modes@[cursor as int]@);
                let mut output: ProfileOutput = self.draft.outputs[i].clone();
                output.mode = normalize_mode(modes[cursor].as_str());
                self.put_output(i, output);
                self.mark_dirty("Changed selected monitor mode".to_owned());
            },
        }
    }

    fn new_draft_from_current(&mut self)
        ensures
            final(self)@ == steps::new_draft(old(self)@),
    {
        if self.dirty {
            self.status = "Save or discard the modified draft before creating another".to_owned();
            return;
        }
        self.selected_profile_index = None;
        let draft: Profile = draft_from_current(&self.store, &self.monitors);
        self.edit(draft);
        self.dirty = true;
        self.status = "New draft `".to_owned().concat(self.draft.name.as_str()).concat(
            "` from current monitors",
        );
    }

    fn selected_profile_name(&self) -> (result: Option<String>)
        ensures
            match (result, steps::selected_name(self@)) {
                (Some(name), Some(expected)) => name@ == expected,
                (None, None) => true,
                _ => false,
            },
    {
        match self.selected_profile_index {
            Some(i) => if i < self.store.profiles.len() {
                assert(self.store@[i as int] == self.store.profiles@[i as int]@);
                Some(self.store.profiles[i].name.clone())
            } else {
                None
            },
            None => None,
        }
    }

    fn begin_rename(&mut self)
        ensures
            final(self)@ == steps::rename_begun(old(self)@),
    {
        if self.dirty {
            self.status = "Save or discard the modified draft before renaming".to_owned();
            return;
        }
        match self.selected_profile_name() {
            None => {
                self.status = "Select a saved profile before renaming".to_owned();
            },
            Some(name) => {
                self.input_mode = TuiInputMode::RenameProfile { name };
                self.status = "Rename profile: edit name and press Enter".to_owned();
            },
        }
    }

    fn begin_delete(&mut self)
        ensures
            final(self)@ == steps::delete_begun(old(self)@),
    {
        if self.dirty {
            self.status = "Save or discard the modified draft before deleting".to_owned();
            return;
        }
        match self.selected_profile_name() {
            None => {
                self.status = "Select a saved profile before deleting".to_owned();
            },
            Some(name) => {
                self.status = "Delete profile `".to_owned().concat(name.as_str()).concat(
                    "`? press y to confirm",
                );
                self.input_mode = TuiInputMode::ConfirmDelete { name };
            },
        }
    }

    fn begin_copy(&mut self)
        ensures
            final(self)@ == steps::copy_begun(old(self)@),
    {
        if self.dirty {
            self.status = "Save or discard the modified draft before copying".to_owned();
            return;
        }
        match self.selected_profile_name() {
            None => {
                self.status = "Select a saved profile before copying".to_owned();
            },
            Some(source) => {
                let name: String = self.store.next_available_name(
                    source.clone().concat("-copy").as_str(),
                );
                self.input_mode = TuiInputMode::CopyProfile { source, name };
                self.status = "Copy profile: edit destination and press Enter".to_owned();
            },
        }
    }

    fn save_draft_named(&self, name: String, replace: bool) -> (result: Sequel)
        ensures
            (StepView { app: self@, sequel: result@ }) == steps::saving(self@, name@, replace),
    {
        let mut profile: Profile = self.draft.clone();
        profile.name = name;
        Sequel::Plain(TuiEffect::Change(Box::new(StoreChange::Save { profile, replace })))
    }

    fn select_automatic_profile(&mut self)
        requires
            matching::all_countable(old(self)@.store, old(self)@.monitors.len()),
        ensures
            steps::is_auto_step(
                old(self)@,
                StepView {
                    app: final(self)@,
                    sequel: SequelView::Plain(EffectView::Nothing),
                },
            ),
    {
        if self.dirty {
            self.status =
            "Automatic selection blocked: save or discard the modified draft first".to_owned();
            return;
        }
        let ghost before = self@;
        let best: BestProfileMatch = best_profile_match(&self.store, &self.monitors);
        let fallback: Option<&str> = match &self.config.fallback_profile {
            Some(name) => Some(name.as_str()),
            None => None,
        };
        let decision: AutoApplyDecision = decide_auto_apply(&self.store, &best, fallback);
        let ghost decided = decision@;
        assert(matching::is_decision(
            decided,
            before.store,
            before.monitors,
            before.config.fallback_profile,
        ));
        match decision.profile_name() {
            None => {},
            Some(name) => match self.store.position(name) {
                None => {},
                Some(i) => {
                    let _ = self.select_profile(i);
                },
            },
        }
        self.status = render::replace(
            format_auto_apply_decision(&decision, "Automatic selection").as_str(),
            '\n',
            " | ",
        );
        assert(self@ =~= steps::auto_selected(before, decided));
    }
}

/// The turn after `transform`.
fn next_transform(transform: i32) -> (result: i32)
    ensures
        result == (transform + 1) % 8,
{
    let next: i64 = transform as i64 + 1;
    let rest: i64 = if next >= 0 {
        next % 8
    } else {
        let below: i64 = (-next) % 8;
        if below == 0 {
            0
        } else {
            8 - below
        }
    };
    rest as i32
}

/// `scale` kept where it may be.
fn clamp_scale(scale: Decimal) -> (result: Decimal)
    ensures
        result.value() == steps::kept_scale(scale.value()),
{
    let units: i128 = scale.units();
    if units < MIN_SCALE {
        Decimal::from_units(MIN_SCALE)
    } else if units > MAX_SCALE {
        Decimal::from_units(MAX_SCALE)
    } else {
        scale
    }
}

// ---------------------------------------------------------------------------
// Actions
// ---------------------------------------------------------------------------
impl TuiApp {
    fn handle_normal_action(&mut self, action: TuiAction) -> (result: Sequel)
        requires
            steps::ready(old(self)@),
            old(self)@.mode == ModeView::Normal,
        ensures
            steps::is_step(
                old(self)@,
                action,
                StepView { app: final(self)@, sequel: result@ },
            ),
    {
        assert(steps::at_rest(self@) =~= self@);
        match action {
            TuiAction::NextProfile => self.select_relative_profile(true),
            TuiAction::PreviousProfile => self.select_relative_profile(false),
            TuiAction::SelectProfile(index) => self.select_profile(index),
            TuiAction::NextMonitor => self.select_relative_monitor(true),
            TuiAction::PreviousMonitor => self.select_relative_monitor(false),
            TuiAction::SelectMonitor(index) => self.select_monitor(index),
            TuiAction::MoveSelected(dx, dy) => {
                self.move_selected(dx, dy);
                finished()
            },
            TuiAction::NudgeLeft => {
                let step: i32 = self.move_step();
                self.move_selected(-step, 0);
                finished()
            },
            TuiAction::NudgeRight => {
                let step: i32 = self.move_step();
                self.move_selected(step, 0);
                finished()
            },
            TuiAction::NudgeUp => {
                let step: i32 = self.move_step();
                self.move_selected(0, -step);
                finished()
            },
            TuiAction::NudgeDown => {
                let step: i32 = self.move_step();
                self.move_selected(0, step);
                finished()
            },
            TuiAction::SnapSelected(direction) => {
                self.snap_selected(direction);
                finished()
            },
            TuiAction::ToggleSelected => {
                self.toggle_selected();
                finished()
            },
            TuiAction::CycleSelectedMode => {
                self.cycle_selected_mode();
                finished()
            },
            TuiAction::CycleSelectedTransform => {
                self.cycle_selected_transform();
                finished()
            },
            TuiAction::AdjustSelectedScale(delta) => {
                self.adjust_selected_scale(delta);
                finished()
            },
            TuiAction::NewDraft => {
                self.new_draft_from_current();
                finished()
            },
            TuiAction::BeginSaveAs => {
                self.input_mode = TuiInputMode::SaveAs {
                    name: self.store.next_generated_name(&self.monitors),
                };
                self.status = "Save as: edit name and press Enter".to_owned();
                finished()
            },
            TuiAction::BeginRename => {
                self.begin_rename();
                finished()
            },
            TuiAction::BeginCopy => {
                self.begin_copy();
                finished()
            },
            TuiAction::BeginDelete => {
                self.begin_delete();
                finished()
            },
            TuiAction::RefreshMonitors => Sequel::Plain(TuiEffect::RefreshMonitors),
            TuiAction::AutoSelect => {
                self.select_automatic_profile();
                finished()
            },
            TuiAction::ShowHelp => {
                self.input_mode = TuiInputMode::Help;
                self.status = "Help".to_owned();
                finished()
            },
            TuiAction::RequestQuit => if self.dirty {
                self.input_mode = TuiInputMode::ConfirmQuit;
                self.status = "Discard unsaved changes? press y to confirm".to_owned();
                finished()
            } else {
                Sequel::Plain(TuiEffect::Quit)
            },
            TuiAction::ApplyDraft => Sequel::RequestApply,
            _ => finished(),
        }
    }

    fn handle_save_as(&mut self, name: String, action: TuiAction) -> (result: Sequel)
        requires
            old(self)@.mode == ModeView::Normal,
        ensures
            (StepView { app: final(self)@, sequel: result@ }) == steps::save_as_step(
                old(self)@,
                name@,
                action,
            ),
    {
        let mut name: String = name;
        match action {
            TuiAction::SaveNameChar(character) => {
                append_profile_name_char(&mut name, character);
                self.input_mode = TuiInputMode::SaveAs { name };
                finished()
            },
            TuiAction::SaveNameBackspace => {
                let name: String = erase_last(name.as_str());
                self.input_mode = TuiInputMode::SaveAs { name };
                finished()
            },
            TuiAction::Submit => {
                let name: String = text::trim(name.as_str()).to_owned();
                if name.as_str().unicode_len() == 0 {
                    self.status = "Profile name must not be empty".to_owned();
                    self.input_mode = TuiInputMode::SaveAs { name };
                    finished()
                } else if self.store.has_profile(name.as_str()) {
                    self.status = "Replace profile `".to_owned().concat(name.as_str()).concat(
                        "`? press y to confirm",
                    );
                    self.input_mode = TuiInputMode::ConfirmReplace { name };
                    finished()
                } else {
                    self.save_draft_named(name, false)
                }
            },
            TuiAction::Cancel | TuiAction::RequestQuit => {
                self.status = "Save cancelled".to_owned();
                finished()
            },
            _ => {
                self.input_mode = TuiInputMode::SaveAs { name };
                finished()
            },
        }
    }

    fn handle_rename(&mut self, name: String, action: TuiAction) -> (result: Sequel)
        requires
            old(self)@.mode == ModeView::Normal,
        ensures
            (StepView { app: final(self)@, sequel: result@ }) == steps::rename_step(
                old(self)@,
                name@,
                action,
            ),
    {
        let mut name: String = name;
        match action {
            TuiAction::SaveNameChar(character) => {
                append_profile_name_char(&mut name, character);
                self.input_mode = TuiInputMode::RenameProfile { name };
                finished()
            },
            TuiAction::SaveNameBackspace => {
                let name: String = erase_last(name.as_str());
                self.input_mode = TuiInputMode::RenameProfile { name };
                finished()
            },
            TuiAction::Submit => {
                let name: String = text::trim(name.as_str()).to_owned();
                if name.as_str().unicode_len() == 0 {
                    self.status = "Profile name must not be empty".to_owned();
                    self.input_mode = TuiInputMode::RenameProfile { name };
                    finished()
                } else {
                    match self.selected_profile_name() {
                        None => Sequel::Refuse(
                            Error::new("select a saved profile before renaming".to_owned()),
                        ),
                        Some(old_name) => Sequel::Plain(
                            TuiEffect::Change(
                                Box::new(StoreChange::Rename { old_name, new_name: name }),
                            ),
                        ),
                    }
                }
            },
            TuiAction::Cancel | TuiAction::RequestQuit => {
                self.status = "Rename cancelled".to_owned();
                finished()
            },
            _ => {
                self.input_mode = TuiInputMode::RenameProfile { name };
                finished()
            },
        }
    }

    fn handle_copy(&mut self, source: String, name: String, action: TuiAction) -> (result: Sequel)
        requires
            old(self)@.mode == ModeView::Normal,
        ensures
            (StepView { app: final(self)@, sequel: result@ }) == steps::copy_step(
                old(self)@,
                source@,
                name@,
                action,
            ),
    {
        let mut name: String = name;
        match action {
            TuiAction::SaveNameChar(character) => {
                append_profile_name_char(&mut name, character);
                self.input_mode = TuiInputMode::CopyProfile { source, name };
                finished()
            },
            TuiAction::SaveNameBackspace => {
                let name: String = erase_last(name.as_str());
                self.input_mode = TuiInputMode::CopyProfile { source, name };
                finished()
            },
            TuiAction::Submit => {
                let name: String = text::trim(name.as_str()).to_owned();
                if name.as_str().unicode_len() == 0 {
                    self.status = "Profile name must not be empty".to_owned();
                    self.input_mode = TuiInputMode::CopyProfile { source, name };
                    finished()
                } else if self.store.has_profile(name.as_str()) {
                    self.status = "Replace profile `".to_owned().concat(name.as_str()).concat(
                        "` with the copy? press y to confirm",
                    );
                    self.input_mode = TuiInputMode::ConfirmCopyReplace { source, name };
                    finished()
                } else {
                    Sequel::Plain(
                        TuiEffect::Change(
                            Box::new(
                                StoreChange::Copy { source, destination: name, replace: false },
                            ),
                        ),
                    )
                }
            },
            TuiAction::Cancel | TuiAction::RequestQuit => {
                self.status = "Copy cancelled".to_owned();
                finished()
            },
            _ => {
                self.input_mode = TuiInputMode::CopyProfile { source, name };
                finished()
            },
        }
    }

    fn handle_answer(
        &mut self,
        mode: TuiInputMode,
        action: TuiAction,
        agreed: Sequel,
        cancelled: &str,
    ) -> (result: Sequel)
        requires
            old(self)@.mode == ModeView::Normal,
        ensures
            (StepView { app: final(self)@, sequel: result@ }) == steps::answer(
                old(self)@,
                action,
                mode@,
                StepView { app: old(self)@, sequel: agreed@ },
                cancelled@,
            ),
    {
        match action {
            TuiAction::Confirm | TuiAction::Submit => agreed,
            TuiAction::Cancel | TuiAction::RequestQuit => {
                self.status = cancelled.to_owned();
                finished()
            },
            _ => {
                self.input_mode = mode;
                finished()
            },
        }
    }

    fn handle_mode_select(&mut self, modes: Vec<String>, cursor: usize, action: TuiAction) -> (result:
        Sequel)
        requires
            old(self)@.mode == ModeView::Normal,
        ensures
            (StepView { app: final(self)@, sequel: result@ }) == steps::mode_select_step(
                old(self)@,
                text::texts(modes@),
                cursor,
                action,
            ),
    {
        match action {
            TuiAction::SelectNextMode => {
                let cursor: usize = next_index(cursor, modes.len());
                self.status = mode_select_status(&modes, cursor);
                self.input_mode = TuiInputMode::ModeSelect { modes, cursor };
                finished()
            },
            TuiAction::SelectPreviousMode => {
                let cursor: usize = previous_index(cursor, modes.len());
                self.status = mode_select_status(&modes, cursor);
                self.input_mode = TuiInputMode::ModeSelect { modes, cursor };
                finished()
            },
            TuiAction::Submit | TuiAction::Confirm => {
                self.apply_selected_mode(&modes, cursor);
                finished()
            },
            TuiAction::Cancel | TuiAction::RequestQuit => {
                self.status = "Mode selection cancelled".to_owned();
                finished()
            },
            _ => {
                self.input_mode = TuiInputMode::ModeSelect { modes, cursor };
                finished()
            },
        }
    }

    fn handle_snap_target(
        &mut self,
        direction: SnapDirection,
        targets: Vec<usize>,
        cursor: usize,
        action: TuiAction,
    ) -> (result: Sequel)
        requires
            old(self)@.mode == ModeView::Normal,
        ensures
            (StepView { app: final(self)@, sequel: result@ }) == steps::snap_target_step(
                old(self)@,
                direction,
                targets@,
                cursor,
                action,
            ),
    {
        match action {
            TuiAction::SelectNextMode => {
                let cursor: usize = next_index(cursor, targets.len());
                self.status = snap_target_status(&self.draft, &targets, cursor);
                self.input_mode = TuiInputMode::SnapTarget { direction, targets, cursor };
                finished()
            },
            TuiAction::SelectPreviousMode => {
                let cursor: usize = previous_index(cursor, targets.len());
                self.status = snap_target_status(&self.draft, &targets, cursor);
                self.input_mode = TuiInputMode::SnapTarget { direction, targets, cursor };
                finished()
            },
            TuiAction::Submit | TuiAction::Confirm => {
                match self.selected_monitor_index {
                    Some(selected_index) => if cursor < targets.len() {
                        self.apply_snap(selected_index, targets[cursor], direction);
                    },
                    None => {},
                }
                finished()
            },
            TuiAction::Cancel | TuiAction::RequestQuit => {
                self.status = "Snap cancelled".to_owned();
                finished()
            },
            _ => {
                self.input_mode = TuiInputMode::SnapTarget { direction, targets, cursor };
                finished()
            },
        }
    }

    fn handle_quit(&mut self, action: TuiAction) -> (result: Sequel)
        requires
            old(self)@.mode == ModeView::Normal,
        ensures
            (StepView { app: final(self)@, sequel: result@ }) == steps::quit_step(
                old(self)@,
                action,
            ),
    {
        match action {
            TuiAction::Confirm | TuiAction::Submit => Sequel::Plain(TuiEffect::Quit),
            TuiAction::Cancel => Sequel::Preview,
            _ => {
                self.input_mode = TuiInputMode::ConfirmQuit;
                finished()
            },
        }
    }

    fn handle_help(&mut self, action: TuiAction) -> (result: Sequel)
        requires
            old(self)@.mode == ModeView::Normal,
        ensures
            (StepView { app: final(self)@, sequel: result@ }) == steps::help_step(
                old(self)@,
                action,
            ),
    {
        match action {
            TuiAction::Cancel | TuiAction::RequestQuit | TuiAction::ShowHelp | TuiAction::Submit => {
                Sequel::Preview
            },
            _ => {
                self.input_mode = TuiInputMode::Help;
                finished()
            },
        }
    }

    fn take_step(&mut self, action: TuiAction) -> (result: Sequel)
        requires
            steps::ready(old(self)@),
        ensures
            steps::is_step(
                old(self)@,
                action,
                StepView { app: final(self)@, sequel: result@ },
            ),
    {
        let ghost before = self@;
        let mut mode: TuiInputMode = TuiInputMode::Normal;
        core::mem::swap(&mut self.input_mode, &mut mode);
        assert(self@ =~= steps::at_rest(before));
        match mode {
            TuiInputMode::Normal => {
                assert(self@ =~= before);
                self.handle_normal_action(action)
            },
            TuiInputMode::SaveAs { name } => self.handle_save_as(name, action),
            TuiInputMode::ConfirmReplace { name } => {
                let agreed: Sequel = self.save_draft_named(name.clone(), true);
                self.handle_answer(
                    TuiInputMode::ConfirmReplace { name },
                    action,
                    agreed,
                    "Replace cancelled",
                )
            },
            TuiInputMode::ConfirmApply => self.handle_answer(
                TuiInputMode::ConfirmApply,
                action,
                Sequel::ConfirmedApply,
                "Apply cancelled",
            ),
            TuiInputMode::RenameProfile { name } => self.handle_rename(name, action),
            TuiInputMode::CopyProfile { source, name } => self.handle_copy(source, name, action),
            TuiInputMode::ConfirmCopyReplace { source, name } => {
                let agreed: Sequel = Sequel::Plain(
                    TuiEffect::Change(
                        Box::new(
                            StoreChange::Copy {
                                source: source.clone(),
                                destination: name.clone(),
                                replace: true,
                            },
                        ),
                    ),
                );
                self.handle_answer(
                    TuiInputMode::ConfirmCopyReplace { source, name },
                    action,
                    agreed,
                    "Copy replace cancelled",
                )
            },
            TuiInputMode::ConfirmDelete { name } => {
                let agreed: Sequel = Sequel::Plain(
                    TuiEffect::Change(Box::new(StoreChange::Delete { name: name.clone() })),
                );
                self.handle_answer(
                    TuiInputMode::ConfirmDelete { name },
                    action,
                    agreed,
                    "Delete cancelled",
                )
            },
            TuiInputMode::ModeSelect { modes, cursor } => self.handle_mode_select(
                modes,
                cursor,
                action,
            ),
            TuiInputMode::SnapTarget { direction, targets, cursor } => self.handle_snap_target(
                direction,
                targets,
                cursor,
                action,
            ),
            TuiInputMode::ConfirmQuit => self.handle_quit(action),
            TuiInputMode::Help => self.handle_help(action),
        }
    }
}

// ---------------------------------------------------------------------------
// Plans
// ---------------------------------------------------------------------------
impl TuiApp {
    /// What applying the draft would do.
    pub fn draft_apply_plan(&self) -> (result: Result<ApplyPlan, Error>)
        requires
            plan::plannable(self@.monitors.len()),
        ensures
            plan::is_plan(
                error::outcome(result),
                self@.draft,
                self@.monitors,
                MonitorMatchMode::Explicit,
            ),
            result matches Err(error) ==> plan::is_refusal(
                error@,
                error.head(),
                self@.draft,
                self@.monitors,
                MonitorMatchMode::Explicit,
            ),
    {
        plan_apply(&self.draft, &self.monitors)
    }

    /// What applying the draft to `monitors` would do.
    pub fn draft_apply_plan_for_monitors(&mut self, monitors: Vec<MonitorState>) -> (result: Result<
        ApplyPlan,
        Error,
    >)
        requires
            plan::plannable(monitors@.len()),
        ensures
            final(self)@ == (AppView { monitors: monitor::views(monitors@), ..old(self)@ }),
            plan::is_plan(
                error::outcome(result),
                final(self)@.draft,
                final(self)@.monitors,
                MonitorMatchMode::Explicit,
            ),
            result matches Err(error) ==> plan::is_refusal(
                error@,
                error.head(),
                final(self)@.draft,
                final(self)@.monitors,
                MonitorMatchMode::Explicit,
            ),
    {
        self.monitors = monitors;
        self.draft_apply_plan()
    }

    fn preview(&self, planned: &Result<ApplyPlan, Error>) -> (result: String)
        ensures
            result@ == steps::preview_text(
                self@.draft.name,
                match *planned {
                    Ok(plan) => Ok(plan@),
                    Err(error) => Err(error@),
                },
                error::headline(*planned),
            ),
    {
        let name: &str = self.draft.name.as_str();
        match planned {
            Err(error) => "Draft cannot be previewed: ".to_owned().concat(error.headline()),
            Ok(plan) => if plan.warnings.len() == 0 {
                "Editing profile `".to_owned().concat(name).concat("`")
            } else {
                "Editing profile `".to_owned().concat(name).concat("` with ").concat(
                    warning_count(plan.warnings.len()).as_str(),
                )
            },
        }
    }

    fn request_apply(&mut self, planned: Result<ApplyPlan, Error>) -> (result: TuiEffect)
        ensures
            (final(self)@, result@) == steps::apply_requested(
                old(self)@,
                error::outcome(planned),
            ),
    {
        let plan: ApplyPlan = match planned {
            Ok(plan) => plan,
            Err(error) => {
                self.status = "Draft cannot be applied: ".to_owned().concat(error.message());
                return TuiEffect::Nothing;
            },
        };
        match ensure_plan_safe_to_apply(&plan) {
            Err(error) => {
                self.status = "Draft cannot be applied: ".to_owned().concat(error.message());
                return TuiEffect::Nothing;
            },
            Ok(()) => {},
        }
        if plan.warnings.len() == 0 {
            return TuiEffect::Apply(Box::new(plan));
        }
        self.input_mode = TuiInputMode::ConfirmApply;
        self.status = "Apply has ".to_owned().concat(
            warning_count(plan.warnings.len()).as_str(),
        ).concat("; press y to confirm");
        TuiEffect::Nothing
    }

    fn conclude(&mut self, sequel: Sequel) -> (result: Result<TuiEffect, Error>)
        requires
            plan::plannable(old(self)@.monitors.len()),
        ensures
            steps::is_end(
                StepView { app: old(self)@, sequel: sequel@ },
                final(self)@,
                error::told(result),
            ),
    {
        let ghost step = StepView { app: self@, sequel: sequel@ };
        match sequel {
            Sequel::Plain(effect) => {
                return Ok(effect);
            },
            Sequel::Refuse(error) => {
                return Err(error);
            },
            _ => {},
        }
        let planned: Result<ApplyPlan, Error> = self.draft_apply_plan();
        let ghost view = error::outcome(planned);
        let ghost head = error::headline(planned);
        assert(steps::is_draft_plan(step.app, view, head));
        let result: Result<TuiEffect, Error> = match sequel {
            Sequel::Preview => {
                self.status = self.preview(&planned);
                Ok(TuiEffect::Nothing)
            },
            Sequel::RequestApply => Ok(self.request_apply(planned)),
            _ => match planned {
                Ok(plan) => Ok(TuiEffect::Apply(Box::new(plan))),
                Err(error) => Err(error),
            },
        };
        assert(steps::ends_with(step, view, head, self@, error::told(result)));
        result
    }

    /// Does what `action` asks for; what it asks of the surroundings is left to
    /// the caller.
    pub fn handle_action(&mut self, action: TuiAction) -> (result: Result<TuiEffect, Error>)
        requires
            steps::ready(old(self)@),
        ensures
            steps::is_handled(old(self)@, action, final(self)@, error::told(result)),
            final(self)@.paths == old(self)@.paths,
            final(self)@.config == old(self)@.config,
            final(self)@.store == old(self)@.store,
            final(self)@.monitors == old(self)@.monitors,
    {
        let ghost before = self@;
        let sequel: Sequel = self.take_step(action);
        let ghost step = StepView { app: self@, sequel: sequel@ };
        assert(steps::is_step(before, action, step));
        proof {
            steps_laws::lemma_step_keeps_surroundings(before, action, step);
        }
        let result: Result<TuiEffect, Error> = self.conclude(sequel);
        assert(steps::is_handled(before, action, self@, error::told(result)));
        result
    }
}

// ---------------------------------------------------------------------------
// Replies
// ---------------------------------------------------------------------------
/// What a change makes of the saved profiles, or why it is refused.
pub open spec fn changed_store(
    profiles: Seq<ProfileView>,
    change: ChangeView,
    now: Seq<char>,
) -> Result<Seq<ProfileView>, Seq<char>> {
    match change {
        ChangeView::Save { profile, replace } => match store::save_error(
            profiles,
            profile,
            replace,
        ) {
            Some(reason) => Err(reason),
            None => Ok(store::stored(profiles, store::stamped(profiles, profile, now))),
        },
        ChangeView::Rename { old_name, new_name } => match store::rename_error(
            profiles,
            old_name,
            new_name,
        ) {
            Some(reason) => Err(reason),
            None => Ok(store::renamed(profiles, old_name, new_name, now)),
        },
        ChangeView::Delete { name } => match store::delete_error(profiles, name) {
            Some(reason) => Err(reason),
            None => Ok(profiles.remove(store::position_of(profiles, name)->0)),
        },
        ChangeView::Copy { source, destination, replace } => match store::copy_error(
            profiles,
            source,
            destination,
            replace,
            now,
        ) {
            Some(reason) => Err(reason),
            None => Ok(
                store::stored(
                    profiles,
                    store::stamped(
                        profiles,
                        store::copy_of(profiles, source, destination, now),
                        now,
                    ),
                ),
            ),
        },
    }
}

impl StoreChange {
    /// Makes the change.
    pub fn apply_to(&self, store: &mut ProfileStore, now: &str) -> (result: Result<(), Error>)
        ensures
            match (changed_store(old(store)@, self@, now@), result) {
                (Ok(profiles), Ok(())) => final(store)@ == profiles,
                (Err(reason), Err(error)) => error.refusal() == error::plainly_told(reason)
                    && final(store)@ == old(store)@,
                _ => false,
            },
    {
        match self {
            StoreChange::Save { profile, replace } => match store.save_profile(
                profile.clone(),
                *replace,
                now,
            ) {
                Ok(_) => Ok(()),
                Err(error) => Err(error),
            },
            StoreChange::Rename { old_name, new_name } => store.rename_profile(
                old_name.as_str(),
                new_name.as_str(),
                now,
            ),
            StoreChange::Delete { name } => match store.delete_profile(name.as_str()) {
                Ok(_) => Ok(()),
                Err(error) => Err(error),
            },
            StoreChange::Copy { source, destination, replace } => store.copy_profile(
                source.as_str(),
                destination.as_str(),
                *replace,
                now,
            ),
        }
    }
}

/// What saved profiles hold, or a refusal.
pub open spec fn reply_view(reply: Result<ProfileStore, Error>) -> Result<
    Seq<ProfileView>,
    Seq<char>,
> {
    match reply {
        Ok(store) => Ok(store@),
        Err(error) => Err(error@),
    }
}

/// That something was done, or a refusal.
pub open spec fn ended(result: Result<(), Error>) -> Result<(), Seq<char>> {
    match result {
        Ok(()) => Ok(()),
        Err(error) => Err(error@),
    }
}

impl TuiApp {
    fn reload(&mut self, name: &str, status: String, missing: String) -> (result: Result<(), Error>)
        ensures
            (final(self)@, ended(result)) == steps::reloaded(
                old(self)@,
                name@,
                status@,
                missing@,
            ),
            error::plainly(result),
    {
        match self.store.position(name) {
            None => {
                self.selected_profile_index = None;
                Err(Error::new(missing))
            },
            Some(i) => {
                assert(self.store@[i as int] == self.store.profiles@[i as int]@);
                let profile: Profile = self.store.profiles[i].clone();
                self.selected_profile_index = Some(i);
                self.edit(profile);
                self.status = status;
                Ok(())
            },
        }
    }

    /// Takes in the saved profiles after `change`, or why it failed.
    pub fn finish_change(&mut self, change: StoreChange, reply: Result<ProfileStore, Error>) -> (result:
        Result<(), Error>)
        ensures
            (final(self)@, ended(result)) == steps::change_ended(
                old(self)@,
                change@,
                reply_view(reply),
            ),
            reply is Ok ==> error::plainly(result),
            reply is Err ==> (result matches Err(error) && error.head()
                == "failed to save profile store at "@ + old(self)@.paths.profile_store),
    {
        match reply {
            Err(error) => {
                return Err(
                    error.context(
                        "failed to save profile store at ".to_owned().concat(
                            self.paths.profile_store_path(),
                        ).as_str(),
                    ),
                );
            },
            Ok(store) => {
                self.store = store;
            },
        }
        match change {
            StoreChange::Save { profile, .. } => {
                let name: &str = profile.name.as_str();
                self.reload(
                    name,
                    "Saved profile `".to_owned().concat(name).concat("`"),
                    "saved profile `".to_owned().concat(name).concat("` was not reloaded"),
                )
            },
            StoreChange::Rename { old_name, new_name } => {
                let name: &str = new_name.as_str();
                self.reload(
                    name,
                    "Renamed profile `".to_owned().concat(old_name.as_str()).concat("` to `").concat(
                        name,
                    ).concat("`"),
                    "renamed profile `".to_owned().concat(name).concat("` was not reloaded"),
                )
            },
            StoreChange::Copy { source, destination, .. } => {
                let name: &str = destination.as_str();
                self.reload(
                    name,
                    "Copied profile `".to_owned().concat(source.as_str()).concat("` to `").concat(
                        name,
                    ).concat("`"),
                    "copied profile `".to_owned().concat(name).concat("` was not reloaded"),
                )
            },
            StoreChange::Delete { name } => {
                let draft: Profile = if self.store.profiles.len() == 0 {
                    self.selected_profile_index = None;
                    draft_from_current(&self.store, &self.monitors)
                } else {
                    self.selected_profile_index = Some(0);
                    assert(self.store@[0] == self.store.profiles@[0]@);
                    self.store.profiles[0].clone()
                };
                self.edit(draft);
                self.status = "Deleted profile `".to_owned().concat(name.as_str()).concat("`");
                Ok(())
            },
        }
    }

    /// The draft was applied.
    pub fn mark_applied(&mut self, monitors: Vec<MonitorState>)
        ensures
            final(self)@ == (AppView {
                monitors: monitor::views(monitors@),
                status: "Applied draft `"@ + old(self)@.draft.name + "`"@,
                ..old(self)@
            }),
    {
        self.monitors = monitors;
        self.status = "Applied draft `".to_owned().concat(self.draft.name.as_str()).concat("`");
    }

    /// The draft was applied and taken back.
    pub fn mark_rolled_back(&mut self, monitors: Vec<MonitorState>, reason: &str)
        ensures
            final(self)@ == (AppView {
                monitors: monitor::views(monitors@),
                status: "Apply rolled back: "@ + reason@ + "; previous monitor layout restored"@,
                ..old(self)@
            }),
    {
        self.monitors = monitors;
        self.status = "Apply rolled back: ".to_owned().concat(reason).concat(
            "; previous monitor layout restored",
        );
    }

    /// The draft could not be applied.
    pub fn mark_apply_failed(&mut self, error: &Error)
        ensures
            final(self)@ == (AppView { status: "Apply failed: "@ + error@, ..old(self)@ }),
    {
        self.status = "Apply failed: ".to_owned().concat(error.message());
    }

    /// An action was refused.
    pub fn mark_action_failed(&mut self, error: &Error)
        ensures
            final(self)@ == (AppView { status: "Action failed: "@ + error@, ..old(self)@ }),
    {
        self.status = "Action failed: ".to_owned().concat(error.message());
    }

    /// There was nothing to apply.
    pub fn mark_noop(&mut self)
        ensures
            final(self)@ == (AppView {
                status: "No changes: draft `"@ + old(self)@.draft.name + "` is already active"@,
                ..old(self)@
            }),
    {
        self.status = "No changes: draft `".to_owned().concat(self.draft.name.as_str()).concat(
            "` is already active",
        );
    }

    /// Takes in the monitors as they are now.
    pub fn update_monitors(&mut self, monitors: Vec<MonitorState>)
        ensures
            final(self)@ == steps::refreshed(old(self)@, monitor::views(monitors@)),
    {
        let count: usize = monitors.len();
        self.monitors = monitors;
        if self.selected_profile_index.is_none() && !self.dirty {
            self.draft = draft_from_current(&self.store, &self.monitors);
            self.selected_monitor_index = first_selectable_monitor(&self.draft);
        }
        self.status = "Refreshed ".to_owned().concat(text::decimal(count as i128).as_str()).concat(
            " current monitor",
        ).concat(plural(count));
    }

    /// The monitors could not be looked at.
    pub fn mark_refresh_failed(&mut self, error: &Error)
        ensures
            final(self)@ == (AppView { status: "Refresh failed: "@ + error@, ..old(self)@ }),
    {
        self.status = "Refresh failed: ".to_owned().concat(error.message());
    }
}

// ---------------------------------------------------------------------------
// Starting
// ---------------------------------------------------------------------------
/// The profile that is edited first: the one that was decided on, or else the
/// first.
pub open spec fn first_choice(profiles: Seq<ProfileView>, decided: DecisionView) -> Option<int> {
    match decided.profile_name() {
        Some(name) => store::position_of(profiles, name),
        None => if profiles.len() == 0 {
            None
        } else {
            Some(0)
        },
    }
}

/// The editor at the start, without a status.
pub open spec fn opening(
    profiles: Seq<ProfileView>,
    paths: PathsView,
    config: ConfigView,
    monitors: Seq<MonitorView>,
    decided: DecisionView,
) -> AppView {
    let chosen = first_choice(profiles, decided);
    let draft = match chosen {
        Some(i) => profiles[i],
        None => steps::current_draft(profiles, monitors),
    };
    AppView {
        paths,
        config,
        store: profiles,
        monitors,
        selected_profile: match chosen {
            Some(i) => Some(i as usize),
            None => None,
        },
        selected_monitor: steps::first_monitor(draft),
        draft,
        dirty: false,
        mode: ModeView::Normal,
        status: seq![],
    }
}

/// `app` is the editor at the start.
pub open spec fn is_opening(
    app: AppView,
    profiles: Seq<ProfileView>,
    paths: PathsView,
    config: ConfigView,
    monitors: Seq<MonitorView>,
) -> bool {
    exists|decided: DecisionView| #[trigger]
        matching::is_decision(decided, profiles, monitors, config.fallback_profile)
            && steps::is_end(
            StepView {
                app: opening(profiles, paths, config, monitors, decided),
                sequel: SequelView::Preview,
            },
            app,
            Ok(EffectView::Nothing),
        )
}

impl TuiApp {
    /// An editor of the profile that fits the monitors best.
    pub fn new(
        store: ProfileStore,
        paths: ConfigPaths,
        config: AppConfig,
        monitors: Vec<MonitorState>,
    ) -> (result: Result<Self, Error>)
        requires
            plan::plannable(monitors@.len()),
            matching::all_countable(store@, monitors@.len()),
        ensures
            result matches Ok(app) && is_opening(
                app@,
                store@,
                paths@,
                config@,
                monitor::views(monitors@),
            ) && app@.store == store@ && app@.monitors == monitor::views(monitors@),
    {
        let best: BestProfileMatch = best_profile_match(&store, &monitors);
        let fallback: Option<&str> = match &config.fallback_profile {
            Some(name) => Some(name.as_str()),
            None => None,
        };
        let decision: AutoApplyDecision = decide_auto_apply(&store, &best, fallback);
        let ghost decided = decision@;
        assert(matching::is_decision(
            decided,
            store@,
            monitor::views(monitors@),
            config@.fallback_profile,
        ));
        let selected_profile_index: Option<usize> = match decision.profile_name() {
            Some(name) => store.position(name),
            None => if store.profiles.len() == 0 {
                None
            } else {
                Some(0)
            },
        };
        proof {
            match decided.profile_name() {
                Some(name) => store::lemma_position_of(store@, name),
                None => {},
            }
        }
        let draft: Profile = match selected_profile_index {
            Some(i) => {
                assert(store@[i as int] == store.profiles@[i as int]@);
                store.profiles[i].clone()
            },
            None => draft_from_current(&store, &monitors),
        };
        let selected_monitor_index: Option<usize> = first_selectable_monitor(&draft);
        let ghost profiles = store@;
        let ghost places = paths@;
        let ghost settings = config@;
        let ghost connected = monitor::views(monitors@);
        let mut app = TuiApp {
            paths,
            config,
            store,
            monitors,
            selected_profile_index,
            selected_monitor_index,
            draft,
            dirty: false,
            input_mode: TuiInputMode::Normal,
            status: String::new(),
        };
        assert(app@ =~= opening(profiles, places, settings, connected, decided));
        let concluded: Result<TuiEffect, Error> = app.conclude(Sequel::Preview);
        assert(is_opening(app@, profiles, places, settings, connected));
        Ok(app)
    }
}

// ---------------------------------------------------------------------------
// What is shown
// ---------------------------------------------------------------------------
/// What is shown of the editor.
#[derive(Debug, PartialEq)]
pub struct TuiModel {
    pub monitors: Vec<TuiMonitorRow>,
    pub current_monitors: Vec<TuiCurrentMonitorRow>,
    pub current_monitor_states: Vec<MonitorState>,
    pub profiles: Vec<TuiProfileRow>,
    pub selected_profile: Option<String>,
    pub selected_monitor: Option<String>,
    pub apply_plan: Option<ApplyPlan>,
    pub status: String,
    pub input_mode: TuiInputMode,
    pub dirty: bool,
    pub move_step: i32,
}

/// What is shown of an output of the draft.
#[derive(Debug, PartialEq)]
pub struct TuiMonitorRow {
    pub output_name: String,
    pub id: String,
    pub mode: String,
    pub position: String,
    pub scale: Decimal,
    pub transform: i32,
    pub enabled: bool,
    pub selected: bool,
}

/// What is shown of a connected monitor.
#[derive(Debug, PartialEq, Eq)]
pub struct TuiCurrentMonitorRow {
    pub output_name: String,
    pub id: String,
    pub enabled: bool,
}

/// What is shown of a saved profile.
#[derive(Debug, PartialEq, Eq)]
pub struct TuiProfileRow {
    pub name: String,
    pub monitor_count: usize,
    pub selected: bool,
}

/// What a [`TuiMonitorRow`] holds.
#[verifier::ext_equal]
pub struct MonitorRowView {
    pub output_name: Seq<char>,
    pub id: Seq<char>,
    pub mode: Seq<char>,
    pub position: Seq<char>,
    pub scale: int,
    pub transform: int,
    pub enabled: bool,
    pub selected: bool,
}

/// What a [`TuiCurrentMonitorRow`] holds.
#[verifier::ext_equal]
pub struct CurrentRowView {
    pub output_name: Seq<char>,
    pub id: Seq<char>,
    pub enabled: bool,
}

/// What a [`TuiProfileRow`] holds.
#[verifier::ext_equal]
pub struct ProfileRowView {
    pub name: Seq<char>,
    pub monitor_count: nat,
    pub selected: bool,
}

/// What a [`TuiModel`] holds.
#[verifier::ext_equal]
pub struct TuiModelView {
    pub monitors: Seq<MonitorRowView>,
    pub current_monitors: Seq<CurrentRowView>,
    pub current_monitor_states: Seq<MonitorView>,
    pub profiles: Seq<ProfileRowView>,
    pub selected_profile: Option<Seq<char>>,
    pub selected_monitor: Option<Seq<char>>,
    pub apply_plan: Option<PlanView>,
    pub status: Seq<char>,
    pub mode: ModeView,
    pub dirty: bool,
    pub move_step: int,
}

impl View for TuiMonitorRow {
    type V = MonitorRowView;

    open spec fn view(&self) -> MonitorRowView {
        MonitorRowView {
            output_name: self.output_name@,
            id: self.id@,
            mode: self.mode@,
            position: self.position@,
            scale: self.scale.value(),
            transform: self.transform as int,
            enabled: self.enabled,
            selected: self.selected,
        }
    }
}

impl View for TuiCurrentMonitorRow {
    type V = CurrentRowView;

    open spec fn view(&self) -> CurrentRowView {
        CurrentRowView { output_name: self.output_name@, id: self.id@, enabled: self.enabled }
    }
}

impl View for TuiProfileRow {
    type V = ProfileRowView;

    open spec fn view(&self) -> ProfileRowView {
        ProfileRowView {
            name: self.name@,
            monitor_count: self.monitor_count as nat,
            selected: self.selected,
        }
    }
}

/// What an optional text holds.
pub open spec fn shown_text(value: Option<String>) -> Option<Seq<char>> {
    match value {
        Some(value) => Some(value@),
        None => None,
    }
}

impl View for TuiModel {
    type V = TuiModelView;

    open spec fn view(&self) -> TuiModelView {
        TuiModelView {
            monitors: self.monitors@.map_values(|row: TuiMonitorRow| row@),
            current_monitors: self.current_monitors@.map_values(|row: TuiCurrentMonitorRow| row@),
            current_monitor_states: monitor::views(self.current_monitor_states@),
            profiles: self.profiles@.map_values(|row: TuiProfileRow| row@),
            selected_profile: shown_text(self.selected_profile),
            selected_monitor: shown_text(self.selected_monitor),
            apply_plan: match self.apply_plan {
                Some(plan) => Some(plan@),
                None => None,
            },
            status: self.status@,
            mode: self.input_mode@,
            dirty: self.dirty,
            move_step: self.move_step as int,
        }
    }
}

/// What is shown of `output`.
pub open spec fn monitor_row(
    profile: ProfileView,
    output: ProfileOutputView,
    selected: bool,
) -> MonitorRowView {
    MonitorRowView {
        output_name: text::sanitized(steps::label_of(profile, output), false),
        id: text::sanitized(output.monitor_id, false),
        mode: text::sanitized(output.mode, false),
        position: text::int_text(output.x as int) + "x"@ + text::int_text(output.y as int),
        scale: output.scale,
        transform: output.transform as int,
        enabled: output.enabled,
        selected,
    }
}

/// What is shown of `app`, whose draft gives the plan `planned`.
pub open spec fn model_of(app: AppView, planned: Result<PlanView, Seq<char>>) -> TuiModelView {
    TuiModelView {
        monitors: Seq::new(
            app.draft.outputs.len(),
            |i: int|
                monitor_row(app.draft, app.draft.outputs[i], app.selected_monitor == Some(i as usize)),
        ),
        current_monitors: app.monitors.map_values(
            |monitor: MonitorView|
                CurrentRowView {
                    output_name: text::sanitized(monitor.output_name, false),
                    id: text::sanitized(monitor.id, false),
                    enabled: monitor.enabled,
                },
        ),
        current_monitor_states: app.monitors,
        profiles: Seq::new(
            app.store.len(),
            |i: int|
                ProfileRowView {
                    name: text::sanitized(app.store[i].name, false),
                    monitor_count: app.store[i].monitors.len(),
                    selected: app.selected_profile == Some(i as usize),
                },
        ),
        selected_profile: match steps::selected_name(app) {
            Some(name) => Some(text::sanitized(name, false)),
            None => None,
        },
        selected_monitor: match steps::selected_output(app) {
            Some(i) => Some(text::sanitized(steps::label_of(app.draft, app.draft.outputs[i]), false)),
            None => None,
        },
        apply_plan: match planned {
            Ok(plan) => Some(plan),
            Err(_) => None,
        },
        status: text::sanitized(app.status, false),
        mode: app.mode,
        dirty: app.dirty,
        move_step: steps::nudge(app),
    }
}

/// `model` is what is shown of `app`.
pub open spec fn is_model(model: TuiModelView, app: AppView) -> bool {
    exists|planned: Result<PlanView, Seq<char>>| #[trigger]
        plan::is_plan(planned, app.draft, app.monitors, MonitorMatchMode::Explicit) && model
            == model_of(app, planned)
}

fn make_monitor_row(profile: &Profile, output: &ProfileOutput, selected: bool) -> (result:
    TuiMonitorRow)
    ensures
        result@ == monitor_row(profile@, output@, selected),
{
    TuiMonitorRow {
        output_name: text::sanitize_terminal_text(output_label(profile, output).as_str()),
        id: text::sanitize_terminal_text(output.monitor_id.as_str()),
        mode: text::sanitize_terminal_text(output.mode.as_str()),
        position: text::decimal(output.x as i128).concat("x").concat(
            text::decimal(output.y as i128).as_str(),
        ),
        scale: output.scale,
        transform: output.transform,
        enabled: output.enabled,
        selected,
    }
}

fn is_at(selected: Option<usize>, index: usize) -> (result: bool)
    ensures
        result == (selected == Some(index)),
{
    match selected {
        Some(i) => i == index,
        None => false,
    }
}

impl TuiApp {
    fn monitor_rows(&self) -> (result: Vec<TuiMonitorRow>)
        ensures
            result@.map_values(|row: TuiMonitorRow| row@) == model_of(self@, Err(seq![])).monitors,
    {
        let ghost expected = model_of(self@, Err(seq![])).monitors;
        let mut rows: Vec<TuiMonitorRow> = Vec::new();
        let mut i: usize = 0;
        while i < self.draft.outputs.len()
            invariant
                i <= self.draft.outputs@.len(),
                expected == model_of(self@, Err(seq![])).monitors,
                rows@.map_values(|row: TuiMonitorRow| row@) == expected.take(i as int),
            decreases self.draft.outputs@.len() - i,
        {
            let ghost before = rows@.map_values(|row: TuiMonitorRow| row@);
            assert(self@.draft.outputs[i as int] == self.draft.outputs@[i as int]@);
            rows.push(
                make_monitor_row(
                    &self.draft,
                    &self.draft.outputs[i],
                    is_at(self.selected_monitor_index, i),
                ),
            );
            assert(rows@.map_values(|row: TuiMonitorRow| row@) =~= before.push(
                expected[i as int],
            ));
            assert(rows@.map_values(|row: TuiMonitorRow| row@) =~= expected.take(i + 1));
            i += 1;
        }
        assert(expected.take(expected.len() as int) =~= expected);
        rows
    }

    fn current_rows(&self) -> (result: Vec<TuiCurrentMonitorRow>)
        ensures
            result@.map_values(|row: TuiCurrentMonitorRow| row@) == model_of(
                self@,
                Err(seq![]),
            ).current_monitors,
    {
        let ghost expected = model_of(self@, Err(seq![])).current_monitors;
        let mut rows: Vec<TuiCurrentMonitorRow> = Vec::new();
        let mut i: usize = 0;
        while i < self.monitors.len()
            invariant
                i <= self.monitors@.len(),
                expected == model_of(self@, Err(seq![])).current_monitors,
                rows@.map_values(|row: TuiCurrentMonitorRow| row@) == expected.take(i as int),
            decreases self.monitors@.len() - i,
        {
            let ghost before = rows@.map_values(|row: TuiCurrentMonitorRow| row@);
            assert(self@.monitors[i as int] == self.monitors@[i as int]@);
            rows.push(
                TuiCurrentMonitorRow {
                    output_name: text::sanitize_terminal_text(
                        self.monitors[i].output_name.as_str(),
                    ),
                    id: text::sanitize_terminal_text(self.monitors[i].id.as_str()),
                    enabled: self.monitors[i].enabled,
                },
            );
            assert(rows@.map_values(|row: TuiCurrentMonitorRow| row@) =~= before.push(
                expected[i as int],
            ));
            assert(rows@.map_values(|row: TuiCurrentMonitorRow| row@) =~= expected.take(i + 1));
            i += 1;
        }
        assert(expected.take(expected.len() as int) =~= expected);
        rows
    }

    fn profile_rows(&self) -> (result: Vec<TuiProfileRow>)
        ensures
            result@.map_values(|row: TuiProfileRow| row@) == model_of(self@, Err(seq![])).profiles,
    {
        let ghost expected = model_of(self@, Err(seq![])).profiles;
        let mut rows: Vec<TuiProfileRow> = Vec::new();
        let mut i: usize = 0;
        while i < self.store.profiles.len()
            invariant
                i <= self.store.profiles@.len(),
                expected == model_of(self@, Err(seq![])).profiles,
                rows@.map_values(|row: TuiProfileRow| row@) == expected.take(i as int),
            decreases self.store.profiles@.len() - i,
        {
            let ghost before = rows@.map_values(|row: TuiProfileRow| row@);
            assert(self@.store[i as int] == self.store.profiles@[i as int]@);
            rows.push(
                TuiProfileRow {
                    name: text::sanitize_terminal_text(self.store.profiles[i].name.as_str()),
                    monitor_count: self.store.profiles[i].monitors.len(),
                    selected: is_at(self.selected_profile_index, i),
                },
            );
            assert(rows@.map_values(|row: TuiProfileRow| row@) =~= before.push(
                expected[i as int],
            ));
            assert(rows@.map_values(|row: TuiProfileRow| row@) =~= expected.take(i + 1));
            i += 1;
        }
        assert(expected.take(expected.len() as int) =~= expected);
        rows
    }

    /// What is shown of the editor.
    pub fn view_model(&self) -> (result: TuiModel)
        requires
            plan::plannable(self@.monitors.len()),
        ensures
            is_model(result@, self@),
    {
        let planned: Result<ApplyPlan, Error> = self.draft_apply_plan();
        let ghost view = error::outcome(planned);
        assert(plan::is_plan(view, self@.draft, self@.monitors, MonitorMatchMode::Explicit));
        let selected_profile: Option<String> = match self.selected_profile_name() {
            Some(name) => Some(text::sanitize_terminal_text(name.as_str())),
            None => None,
        };
        let selected_monitor: Option<String> = match self.selected() {
            Some(i) => Some(
                text::sanitize_terminal_text(
                    output_label(&self.draft, &self.draft.outputs[i]).as_str(),
                ),
            ),
            None => None,
        };
        let model = TuiModel {
            monitors: self.monitor_rows(),
            current_monitors: self.current_rows(),
            current_monitor_states: monitor::copied(&self.monitors),
            profiles: self.profile_rows(),
            selected_profile,
            selected_monitor,
            apply_plan: match planned {
                Ok(plan) => Some(plan),
                Err(_) => None,
            },
            status: text::sanitize_terminal_text(self.status.as_str()),
            input_mode: self.input_mode.clone(),
            dirty: self.dirty,
            move_step: self.move_step(),
        };
        assert(model@ =~= model_of(self@, view));
        model
    }
}

/// What is said of a snapshot.
pub open spec fn snapshot_status(
    selected_profile: Option<Seq<char>>,
    apply_plan: Option<PlanView>,
) -> Seq<char> {
    match (selected_profile, apply_plan) {
        (Some(profile), Some(plan)) => if plan.warnings.len() == 0 {
            "Previewing profile `"@ + profile + "`"@
        } else {
            "Previewing profile `"@ + profile + "` with "@ + steps::warnings_text(
                plan.warnings.len() as int,
            )
        },
        (Some(profile), None) => "Selected profile `"@ + profile + "` cannot be previewed"@,
        (None, _) => "No profiles saved yet"@,
    }
}

fn describe_snapshot(model: &TuiModel) -> (result: String)
    ensures
        result@ == snapshot_status(model@.selected_profile, model@.apply_plan),
{
    match (&model.selected_profile, &model.apply_plan) {
        (Some(profile), Some(plan)) => if plan.warnings.len() == 0 {
            "Previewing profile `".to_owned().concat(profile.as_str()).concat("`")
        } else {
            "Previewing profile `".to_owned().concat(profile.as_str()).concat("` with ").concat(
                warning_count(plan.warnings.len()).as_str(),
            )
        },
        (Some(profile), None) => "Selected profile `".to_owned().concat(profile.as_str()).concat(
            "` cannot be previewed",
        ),
        (None, _) => "No profiles saved yet".to_owned(),
    }
}

/// `model` is what is shown of `app` at the start.
pub open spec fn is_snapshot(model: TuiModelView, app: AppView) -> bool {
    exists|shown: TuiModelView| #[trigger]
        is_model(shown, app) && model == (TuiModelView {
            status: snapshot_status(shown.selected_profile, shown.apply_plan),
            ..shown
        })
}

/// `model` is what is shown at the start of an editor for `profiles`.
pub open spec fn is_initial_model(
    model: TuiModelView,
    profiles: Seq<ProfileView>,
    monitors: Seq<MonitorView>,
    fallback: Option<Seq<char>>,
) -> bool {
    exists|app: AppView| #[trigger]
        is_opening(
            app,
            profiles,
            crate::config::paths_in("/tmp/hyprdisjust-tui-snapshot"@),
            ConfigView {
                fallback_profile: fallback,
                debounce_ms: 900,
                apply_on_start: false,
                tui_move_step: 20,
            },
            monitors,
        ) && is_snapshot(model, app)
}

/// What is shown at the start of an editor that nobody uses.
pub fn initial_model(
    store: &ProfileStore,
    monitors: &Vec<MonitorState>,
    fallback_profile: Option<&str>,
) -> (result: Result<TuiModel, Error>)
    requires
        plan::plannable(monitors@.len()),
        matching::all_countable(store@, monitors@.len()),
    ensures
        result matches Ok(model) && is_initial_model(
            model@,
            store@,
            monitor::views(monitors@),
            match fallback_profile {
                Some(name) => Some(name@),
                None => None,
            },
        ),
{
    let mut config: AppConfig = AppConfig::default();
    config.fallback_profile = match fallback_profile {
        Some(name) => Some(name.to_owned()),
        None => None,
    };
    proof {
        reveal_strlit("/tmp/hyprdisjust-tui-snapshot");
    }
    let paths: ConfigPaths = match ConfigPaths::from_config_dir("/tmp/hyprdisjust-tui-snapshot") {
        Ok(paths) => paths,
        Err(error) => {
            return Err(error);
        },
    };
    let ghost settings = config@;
    assert(settings =~= (ConfigView {
        fallback_profile: match fallback_profile {
            Some(name) => Some(name@),
            None => None,
        },
        debounce_ms: 900,
        apply_on_start: false,
        tui_move_step: 20,
    }));
    let connected: Vec<MonitorState> = monitor::copied(monitors);
    assert(connected@.len() == monitor::views(connected@).len());
    assert(monitors@.len() == monitor::views(monitors@).len());
    let app: TuiApp = match TuiApp::new(store.clone(), paths, config, connected) {
        Ok(app) => app,
        Err(error) => {
            return Err(error);
        },
    };
    let mut model: TuiModel = app.view_model();
    let ghost shown = model@;
    assert(is_model(shown, app@));
    model.status = describe_snapshot(&model);
    assert(model@ =~= (TuiModelView {
        status: snapshot_status(shown.selected_profile, shown.apply_plan),
        ..shown
    }));
    assert(is_snapshot(model@, app@));
    Ok(model)
}

/// What applying the draft would do, where it does anything at all.
pub fn require_draft_plan(app: &TuiApp) -> (result: Result<ApplyPlan, Error>)
    requires
        plan::plannable(app@.monitors.len()),
    ensures
        exists|planned: Result<PlanView, Seq<char>>, head: Seq<char>| #[trigger]
            steps::is_draft_plan(app@, planned, head) && error::outcome(result) == (match planned {
                Ok(plan) => if plan.rules.len() == 0 {
                    Err("draft has no monitor rules"@)
                } else {
                    Ok(plan)
                },
                Err(reason) => Err(reason),
            }) && error::headline(result) == (match planned {
                Ok(plan) => if plan.rules.len() == 0 {
                    "draft has no monitor rules"@
                } else {
                    seq![]
                },
                Err(_) => head,
            }),
{
    let planned: Result<ApplyPlan, Error> = app.draft_apply_plan();
    let ghost view = error::outcome(planned);
    assert(steps::is_draft_plan(app@, view, error::headline(planned)));
    match planned {
        Ok(plan) => if plan.rules.len() == 0 {
            Err(Error::new("draft has no monitor rules".to_owned()))
        } else {
            Ok(plan)
        },
        Err(error) => Err(error),
    }
}

} // verus!
