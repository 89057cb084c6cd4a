//! What the editor shows, in words and in cells.
use vstd::prelude::*;

use crate::cli;
use crate::doctor;
use crate::doctor::plural;
use crate::hyprland::monitor;
use crate::number;
use crate::number::parse_integer;
use crate::profile::plan;
use crate::profile::plan::{ApplyPlan, PlanView};
use crate::profile::store;
use crate::profile::store::{ProfileOutput, ProfileOutputView, ProfileView};
use crate::text;
use crate::tui::geometry;
use crate::tui::geometry::{output_rect_with_monitors, CanvasTransform, CanvasView, CellRect};
use crate::tui::model;
use crate::tui::model::{
    CurrentRowView, MonitorRowView, ProfileRowView, TuiCurrentMonitorRow, TuiInputMode, TuiModel,
    TuiModelView, TuiMonitorRow, TuiProfileRow,
};
use crate::tui::steps::ModeView;

verus! {

/// Whether something is enabled, in words.
pub open spec fn state_text(enabled: bool) -> Seq<char> {
    if enabled {
        "enabled"@
    } else {
        "disabled"@
    }
}

fn state(enabled: bool) -> (result: &'static str)
    ensures
        result@ == state_text(enabled),
{
    if enabled {
        "enabled"
    } else {
        "disabled"
    }
}

// ---------------------------------------------------------------------------
// The snapshot
// ---------------------------------------------------------------------------
/// A connected monitor in a line.
pub open spec fn current_line(row: CurrentRowView) -> Seq<char> {
    "\n- "@ + row.output_name + " ["@ + state_text(row.enabled) + "] id: "@ + row.id
}

/// The first `n` connected monitors, one to a line.
pub open spec fn current_lines(rows: Seq<CurrentRowView>, n: int) -> Seq<char>
    decreases n,
{
    if n <= 0 {
        seq![]
    } else {
        current_lines(rows, n - 1) + current_line(rows[n - 1])
    }
}

/// An output of the draft in a line.
pub open spec fn output_line(row: MonitorRowView) -> Seq<char> {
    "\n"@ + (if row.selected {
        "*"@
    } else {
        "-"@
    }) + " "@ + row.output_name + " "@ + row.mode + " at "@ + row.position + " scale "@
        + number::short_decimal_text(row.scale) + " transform "@ + text::int_text(row.transform)
        + " ("@ + state_text(row.enabled) + ")"@
}

/// The first `n` outputs of the draft, one to a line.
pub open spec fn output_lines(rows: Seq<MonitorRowView>, n: int) -> Seq<char>
    decreases n,
{
    if n <= 0 {
        seq![]
    } else {
        output_lines(rows, n - 1) + output_line(rows[n - 1])
    }
}

/// A profile in a line.
pub open spec fn profile_line(row: ProfileRowView) -> Seq<char> {
    "\n"@ + (if row.selected {
        "*"@
    } else {
        "-"@
    }) + " "@ + row.name + " ("@ + text::int_text(row.monitor_count as int) + " monitor"@
        + doctor::plural_text(row.monitor_count as int) + ")"@
}

/// The first `n` profiles, one to a line.
pub open spec fn profile_lines(rows: Seq<ProfileRowView>, n: int) -> Seq<char>
    decreases n,
{
    if n <= 0 {
        seq![]
    } else {
        profile_lines(rows, n - 1) + profile_line(rows[n - 1])
    }
}

/// `lines`, or that there are none.
pub open spec fn or_none(count: int, lines: Seq<char>) -> Seq<char> {
    if count == 0 {
        "\n- none"@
    } else {
        lines
    }
}

/// The plan that is looked at, in words.
pub open spec fn plan_text(planned: Option<PlanView>) -> Seq<char> {
    match planned {
        None => seq![],
        Some(plan) => "\n\nPreview command:"@ + "\n"@ + plan.batch + (if plan.warnings.len() == 0 {
            seq![]
        } else {
            "\n\n"@ + cli::warnings_text(plan.warnings)
        }),
    }
}

/// The editor, in words.
pub open spec fn snapshot_text(shown: TuiModelView) -> Seq<char> {
    "HyprDisJust TUI\n"@ + shown.status + "\n\nCurrent monitors:"@ + or_none(
        shown.current_monitors.len() as int,
        current_lines(shown.current_monitors, shown.current_monitors.len() as int),
    ) + "\n\nMonitors:"@ + or_none(
        shown.monitors.len() as int,
        output_lines(shown.monitors, shown.monitors.len() as int),
    ) + "\n\nProfiles:"@ + or_none(
        shown.profiles.len() as int,
        profile_lines(shown.profiles, shown.profiles.len() as int),
    ) + plan_text(shown.apply_plan) + "\n\nMove step: "@ + text::int_text(shown.move_step)
}

fn format_current(rows: &Vec<TuiCurrentMonitorRow>) -> (result: String)
    ensures
        result@ == or_none(
            rows@.len() as int,
            current_lines(
                rows@.map_values(|row: TuiCurrentMonitorRow| row@),
                rows@.len() as int,
            ),
        ),
{
    if rows.len() == 0 {
        return "\n- none".to_owned();
    }
    let ghost all = rows@.map_values(|row: TuiCurrentMonitorRow| row@);
    let mut result: String = String::new();
    let mut i: usize = 0;
    assert(result@ =~= current_lines(all, 0));
    while i < rows.len()
        invariant
            i <= rows@.len(),
            all == rows@.map_values(|row: TuiCurrentMonitorRow| row@),
            result@ == current_lines(all, i as int),
        decreases rows@.len() - i,
    {
        let row: &TuiCurrentMonitorRow = &rows[i];
        assert(all[i as int] == row@);
        let line: String = "\n- ".to_owned().concat(row.output_name.as_str()).concat(" [").concat(
            state(row.enabled),
        ).concat("] id: ").concat(row.id.as_str());
        result = result.concat(line.as_str());
        i += 1;
    }
    result
}

fn mark(selected: bool) -> (result: &'static str)
    ensures
        result@ == (if selected {
            "*"@
        } else {
            "-"@
        }),
{
    if selected {
        "*"
    } else {
        "-"
    }
}

fn format_outputs(rows: &Vec<TuiMonitorRow>) -> (result: String)
    ensures
        result@ == or_none(
            rows@.len() as int,
            output_lines(rows@.map_values(|row: TuiMonitorRow| row@), rows@.len() as int),
        ),
{
    if rows.len() == 0 {
        return "\n- none".to_owned();
    }
    let ghost all = rows@.map_values(|row: TuiMonitorRow| row@);
    let mut result: String = String::new();
    let mut i: usize = 0;
    assert(result@ =~= output_lines(all, 0));
    while i < rows.len()
        invariant
            i <= rows@.len(),
            all == rows@.map_values(|row: TuiMonitorRow| row@),
            result@ == output_lines(all, i as int),
        decreases rows@.len() - i,
    {
        let row: &TuiMonitorRow = &rows[i];
        assert(all[i as int] == row@);
        let line: String = "\n".to_owned().concat(mark(row.selected)).concat(" ").concat(
            row.output_name.as_str(),
        ).concat(" ").concat(row.mode.as_str()).concat(" at ").concat(
            row.position.as_str(),
        ).concat(" scale ").concat(row.scale.short_text().as_str()).concat(" transform ").concat(
            text::decimal(row.transform as i128).as_str(),
        ).concat(" (").concat(state(row.enabled)).concat(")");
        result = result.concat(line.as_str());
        i += 1;
    }
    result
}

fn format_profiles(rows: &Vec<TuiProfileRow>) -> (result: String)
    ensures
        result@ == or_none(
            rows@.len() as int,
            profile_lines(rows@.map_values(|row: TuiProfileRow| row@), rows@.len() as int),
        ),
{
    if rows.len() == 0 {
        return "\n- none".to_owned();
    }
    let ghost all = rows@.map_values(|row: TuiProfileRow| row@);
    let mut result: String = String::new();
    let mut i: usize = 0;
    assert(result@ =~= profile_lines(all, 0));
    while i < rows.len()
        invariant
            i <= rows@.len(),
            all == rows@.map_values(|row: TuiProfileRow| row@),
            result@ == profile_lines(all, i as int),
        decreases rows@.len() - i,
    {
        let row: &TuiProfileRow = &rows[i];
        assert(all[i as int] == row@);
        let line: String = "\n".to_owned().concat(mark(row.selected)).concat(" ").concat(
            row.name.as_str(),
        ).concat(" (").concat(text::decimal(row.monitor_count as i128).as_str()).concat(
            " monitor",
        ).concat(plural(row.monitor_count)).concat(")");
        result = result.concat(line.as_str());
        i += 1;
    }
    result
}

fn format_plan(planned: &Option<ApplyPlan>) -> (result: String)
    ensures
        result@ == plan_text(
            match *planned {
                Some(plan) => Some(plan@),
                None => None,
            },
        ),
{
    match planned {
        None => {
            let nothing: String = String::new();
            assert(nothing@ =~= seq![]);
            nothing
        },
        Some(plan) => {
            let preview: String = "\n\nPreview command:".to_owned().concat("\n").concat(
                plan.batch.as_str(),
            );
            if plan.warnings.len() == 0 {
                assert(preview@ + Seq::<char>::empty() =~= preview@);
                preview
            } else {
                let warnings: String = "\n\n".to_owned().concat(
                    cli::format_apply_warnings(plan).as_str(),
                );
                preview.concat(warnings.as_str())
            }
        },
    }
}

/// The editor, in words.
pub fn format_snapshot(model: &TuiModel) -> (result: String)
    ensures
        result@ == snapshot_text(model@),
{
    "HyprDisJust TUI\n".to_owned().concat(model.status.as_str()).concat(
        "\n\nCurrent monitors:",
    ).concat(format_current(&model.current_monitors).as_str()).concat("\n\nMonitors:").concat(
        format_outputs(&model.monitors).as_str(),
    ).concat("\n\nProfiles:").concat(format_profiles(&model.profiles).as_str()).concat(
        format_plan(&model.apply_plan).as_str(),
    ).concat("\n\nMove step: ").concat(text::decimal(model.move_step as i128).as_str())
}

// ---------------------------------------------------------------------------
// The title
// ---------------------------------------------------------------------------
/// How a piece of the title stands out.
#[derive(Debug, Clone, Copy, PartialEq, Eq, Structural)]
pub enum Accent {
    Plain,
    Brand,
    Notice,
}

/// A piece of the title.
#[derive(Debug)]
pub struct TitleSpan {
    pub accent: Accent,
    pub text: String,
}

/// What a [`TitleSpan`] holds.
#[verifier::ext_equal]
pub struct SpanView {
    pub accent: Accent,
    pub text: Seq<char>,
}

impl View for TitleSpan {
    type V = SpanView;

    open spec fn view(&self) -> SpanView {
        SpanView { accent: self.accent, text: self.text@ }
    }
}

/// What pieces of the title hold.
pub open spec fn span_views(spans: Seq<TitleSpan>) -> Seq<SpanView> {
    spans.map_values(|span: TitleSpan| span@)
}

/// The name of the program.
pub open spec fn brand() -> SpanView {
    SpanView { accent: Accent::Brand, text: "HyprDisJust"@ }
}

/// A piece that does not stand out.
pub open spec fn plain(text: Seq<char>) -> SpanView {
    SpanView { accent: Accent::Plain, text }
}

/// A piece that asks for attention.
pub open spec fn notice(text: Seq<char>) -> SpanView {
    SpanView { accent: Accent::Notice, text }
}

/// What is asked while the editor waits for `mode`, where it is asked behind
/// the status.
pub open spec fn mode_text(mode: ModeView) -> Seq<char> {
    match mode {
        ModeView::ConfirmApply => "  apply warning plan? y/Enter confirm  Esc cancel"@,
        ModeView::ModeSelect { .. } => "  choose mode with Up/Down  Enter select  Esc cancel"@,
        ModeView::SnapTarget { .. } => {
            "  choose snap target with Up/Down  Enter select  Esc cancel"@
        },
        ModeView::ConfirmQuit => "  discard changes? y/Enter confirm  Esc cancel"@,
        ModeView::Help => "  help  ?/Esc close"@,
        _ => ""@,
    }
}

/// The title: a name being typed, a question about a name, or the status.
pub open spec fn title_of(shown: TuiModelView) -> Seq<SpanView> {
    match shown.mode {
        ModeView::SaveAs { name } => seq![
            brand(),
            plain("  save as: "@),
            notice(name),
            plain("  Enter save  Esc cancel"@),
        ],
        ModeView::ConfirmReplace { name } => seq![
            brand(),
            plain("  replace `"@ + name + "`? y/Enter confirm  Esc cancel"@),
        ],
        ModeView::RenameProfile { name } => seq![
            brand(),
            plain("  rename to: "@),
            notice(name),
            plain("  Enter save  Esc cancel"@),
        ],
        ModeView::CopyProfile { source, name } => seq![
            brand(),
            plain("  copy `"@ + source + "` to: "@),
            notice(name),
            plain("  Enter copy  Esc cancel"@),
        ],
        ModeView::ConfirmCopyReplace { source, name } => seq![
            brand(),
            plain("  replace `"@ + name + "` with copy? y/Enter confirm  Esc cancel"@),
        ],
        ModeView::ConfirmDelete { name } => seq![
            brand(),
            plain("  delete `"@ + name + "`? y/Enter confirm  Esc cancel"@),
        ],
        mode => seq![
            brand(),
            plain("  "@),
            plain(shown.status),
            notice(
                if shown.dirty {
                    "  modified"@
                } else {
                    ""@
                },
            ),
            plain(mode_text(mode)),
        ],
    }
}

fn brand_span() -> (result: TitleSpan)
    ensures
        result@ == brand(),
{
    TitleSpan { accent: Accent::Brand, text: "HyprDisJust".to_owned() }
}

fn plain_span(text: String) -> (result: TitleSpan)
    ensures
        result@ == plain(text@),
{
    TitleSpan { accent: Accent::Plain, text }
}

fn notice_span(text: String) -> (result: TitleSpan)
    ensures
        result@ == notice(text@),
{
    TitleSpan { accent: Accent::Notice, text }
}

fn typed_title(before: String, name: &String, behind: &str) -> (result: Vec<TitleSpan>)
    ensures
        span_views(result@) == seq![brand(), plain(before@), notice(name@), plain(behind@)],
{
    let spans: Vec<TitleSpan> = vec![
        brand_span(),
        plain_span(before),
        notice_span(name.clone()),
        plain_span(behind.to_owned()),
    ];
    assert(span_views(spans@) =~= seq![brand(), plain(before@), notice(name@), plain(behind@)]);
    spans
}

fn asked_title(question: String) -> (result: Vec<TitleSpan>)
    ensures
        span_views(result@) == seq![brand(), plain(question@)],
{
    let spans: Vec<TitleSpan> = vec![brand_span(), plain_span(question)];
    assert(span_views(spans@) =~= seq![brand(), plain(question@)]);
    spans
}

/// The title: a name being typed, a question about a name, or the status.
pub fn title_line(model: &TuiModel) -> (result: Vec<TitleSpan>)
    ensures
        span_views(result@) == title_of(model@),
{
    let mode: &str = match &model.input_mode {
        TuiInputMode::Normal => "",
        TuiInputMode::SaveAs { name } => {
            return typed_title("  save as: ".to_owned(), name, "  Enter save  Esc cancel");
        },
        TuiInputMode::ConfirmReplace { name } => {
            return asked_title(
                "  replace `".to_owned().concat(name.as_str()).concat(
                    "`? y/Enter confirm  Esc cancel",
                ),
            );
        },
        TuiInputMode::ConfirmApply => "  apply warning plan? y/Enter confirm  Esc cancel",
        TuiInputMode::RenameProfile { name } => {
            return typed_title("  rename to: ".to_owned(), name, "  Enter save  Esc cancel");
        },
        TuiInputMode::CopyProfile { source, name } => {
            return typed_title(
                "  copy `".to_owned().concat(source.as_str()).concat("` to: "),
                name,
                "  Enter copy  Esc cancel",
            );
        },
        TuiInputMode::ConfirmCopyReplace { name, .. } => {
            return asked_title(
                "  replace `".to_owned().concat(name.as_str()).concat(
                    "` with copy? y/Enter confirm  Esc cancel",
                ),
            );
        },
        TuiInputMode::ConfirmDelete { name } => {
            return asked_title(
                "  delete `".to_owned().concat(name.as_str()).concat(
                    "`? y/Enter confirm  Esc cancel",
                ),
            );
        },
        TuiInputMode::ModeSelect { .. } => "  choose mode with Up/Down  Enter select  Esc cancel",
        TuiInputMode::SnapTarget { .. } => {
            "  choose snap target with Up/Down  Enter select  Esc cancel"
        },
        TuiInputMode::ConfirmQuit => "  discard changes? y/Enter confirm  Esc cancel",
        TuiInputMode::Help => "  help  ?/Esc close",
    };
    let dirty: &str = if model.dirty {
        "  modified"
    } else {
        ""
    };
    let spans: Vec<TitleSpan> = vec![
        brand_span(),
        plain_span("  ".to_owned()),
        plain_span(model.status.clone()),
        notice_span(dirty.to_owned()),
        plain_span(mode.to_owned()),
    ];
    assert(span_views(spans@) =~= title_of(model@));
    spans
}

// ---------------------------------------------------------------------------
// The panels
// ---------------------------------------------------------------------------
/// A line of the list of profiles.
pub open spec fn entry_text(row: ProfileRowView) -> Seq<char> {
    (if row.selected {
        ">"@
    } else {
        " "@
    }) + " "@ + row.name + "  "@ + text::int_text(row.monitor_count as int) + " monitor"@
        + doctor::plural_text(row.monitor_count as int)
}

/// The lines of the list of profiles.
pub open spec fn entries(shown: TuiModelView) -> Seq<Seq<char>> {
    if shown.profiles.len() == 0 {
        seq!["new draft"@]
    } else {
        shown.profiles.map_values(|row: ProfileRowView| entry_text(row))
    }
}

/// The lines of the list of profiles.
pub fn profile_list(model: &TuiModel) -> (result: Vec<String>)
    ensures
        text::texts(result@) == entries(model@),
{
    let mut result: Vec<String> = Vec::new();
    if model.profiles.len() == 0 {
        result.push("new draft".to_owned());
        assert(text::texts(result@) =~= seq!["new draft"@]);
        return result;
    }
    let ghost all = entries(model@);
    let mut i: usize = 0;
    while i < model.profiles.len()
        invariant
            i <= model.profiles@.len(),
            model.profiles@.len() > 0,
            all == entries(model@),
            text::texts(result@) =~= all.take(i as int),
        decreases model.profiles@.len() - i,
    {
        let row: &TuiProfileRow = &model.profiles[i];
        assert(model@.profiles[i as int] == row@);
        let marker: &str = if row.selected {
            ">"
        } else {
            " "
        };
        let line: String = marker.to_owned().concat(" ").concat(row.name.as_str()).concat(
            "  ",
        ).concat(text::decimal(row.monitor_count as i128).as_str()).concat(" monitor").concat(
            plural(row.monitor_count),
        );
        let ghost before = result@;
        assert(line@ == all[i as int]);
        result.push(line);
        assert(text::texts(result@) =~= text::texts(before).push(all[i as int]));
        assert(all.take(i + 1) =~= all.take(i as int).push(all[i as int]));
        i += 1;
    }
    assert(all.take(i as int) =~= all);
    result
}

/// An output in detail.
pub open spec fn output_details(row: MonitorRowView) -> Seq<char> {
    row.output_name + "\nid: "@ + row.id + "\nmode: "@ + row.mode + "  position: "@ + row.position
        + "  scale: "@ + number::short_decimal_text(row.scale) + "  transform: "@ + text::int_text(
        row.transform,
    ) + "  status: "@ + state_text(row.enabled)
}

/// The first selected output in detail.
pub open spec fn selected_details(rows: Seq<MonitorRowView>) -> Seq<char>
    decreases rows.len(),
{
    if rows.len() == 0 {
        "No monitor selected"@
    } else if rows[0].selected {
        output_details(rows[0])
    } else {
        selected_details(rows.skip(1))
    }
}

/// A connected monitor in a few words.
pub open spec fn current_text(row: CurrentRowView) -> Seq<char> {
    row.output_name + " ["@ + (if row.enabled {
        "on"@
    } else {
        "off"@
    }) + "] "@ + row.id
}

/// The panel with the selected output and the connected monitors.
pub open spec fn details_text(shown: TuiModelView) -> Seq<char> {
    selected_details(shown.monitors) + "\ncurrent: "@ + (if shown.current_monitors.len() == 0 {
        "none"@
    } else {
        text::joined(
            shown.current_monitors.map_values(|row: CurrentRowView| current_text(row)),
            "; "@,
        )
    })
}

fn describe_selected(rows: &Vec<TuiMonitorRow>) -> (result: String)
    ensures
        result@ == selected_details(rows@.map_values(|row: TuiMonitorRow| row@)),
{
    let ghost all = rows@.map_values(|row: TuiMonitorRow| row@);
    let mut i: usize = 0;
    assert(all.skip(0) =~= all);
    while i < rows.len()
        invariant
            i <= rows@.len(),
            all == rows@.map_values(|row: TuiMonitorRow| row@),
            selected_details(all) == selected_details(all.skip(i as int)),
        decreases rows@.len() - i,
    {
        let row: &TuiMonitorRow = &rows[i];
        assert(all.skip(i as int)[0] == row@);
        if row.selected {
            return row.output_name.clone().concat("\nid: ").concat(row.id.as_str()).concat(
                "\nmode: ",
            ).concat(row.mode.as_str()).concat("  position: ").concat(
                row.position.as_str(),
            ).concat("  scale: ").concat(row.scale.short_text().as_str()).concat(
                "  transform: ",
            ).concat(text::decimal(row.transform as i128).as_str()).concat("  status: ").concat(
                state(row.enabled),
            );
        }
        assert(all.skip(i as int).skip(1) =~= all.skip(i + 1));
        i += 1;
    }
    "No monitor selected".to_owned()
}

/// The panel with the selected output and the connected monitors.
pub fn details_panel(model: &TuiModel) -> (result: String)
    ensures
        result@ == details_text(model@),
{
    let heading: String = describe_selected(&model.monitors).concat("\ncurrent: ");
    if model.current_monitors.len() == 0 {
        return heading.concat("none");
    }
    let ghost all = model@.current_monitors.map_values(|row: CurrentRowView| current_text(row));
    let mut parts: Vec<String> = Vec::new();
    let mut i: usize = 0;
    while i < model.current_monitors.len()
        invariant
            i <= model.current_monitors@.len(),
            all == model@.current_monitors.map_values(|row: CurrentRowView| current_text(row)),
            text::texts(parts@) =~= all.take(i as int),
        decreases model.current_monitors@.len() - i,
    {
        let row: &TuiCurrentMonitorRow = &model.current_monitors[i];
        assert(model@.current_monitors[i as int] == row@);
        let power: &str = if row.enabled {
            "on"
        } else {
            "off"
        };
        let part: String = row.output_name.clone().concat(" [").concat(power).concat("] ").concat(
            row.id.as_str(),
        );
        let ghost before = parts@;
        assert(part@ == all[i as int]);
        parts.push(part);
        assert(text::texts(parts@) =~= text::texts(before).push(all[i as int]));
        assert(all.take(i + 1) =~= all.take(i as int).push(all[i as int]));
        i += 1;
    }
    assert(all.take(i as int) =~= all);
    heading.concat(text::join(&parts, "; ").as_str())
}

/// The panel with the commands that would be sent.
pub open spec fn preview_text(shown: TuiModelView) -> Seq<char> {
    match shown.apply_plan {
        Some(plan) => plan.batch,
        None => "No profile preview available."@,
    }
}

/// The panel with the commands that would be sent.
pub fn preview_panel(model: &TuiModel) -> (result: String)
    ensures
        result@ == preview_text(model@),
{
    match &model.apply_plan {
        Some(plan) => plan.batch.clone(),
        None => "No profile preview available.".to_owned(),
    }
}

/// The warnings of a plan, one to a line.
pub open spec fn warnings_of(planned: Option<PlanView>) -> Seq<Seq<char>> {
    match planned {
        Some(plan) => Seq::new(plan.warnings.len(), |i: int| "- "@ + plan.warnings[i].message()),
        None => seq![],
    }
}

/// The lines of the panel with the warnings and the keys.
pub open spec fn warning_panel_lines(shown: TuiModelView) -> Seq<Seq<char>> {
    let warnings = warnings_of(shown.apply_plan);
    (if warnings.len() == 0 {
        seq!["No warnings."@]
    } else {
        warnings
    }) + seq![
        "move step: "@ + text::int_text(shown.move_step),
        "n new  s save-as  c copy  R rename  d delete  a apply  space toggle"@,
        "m mode  r rotate  +/- scale  arrows move  H/J/K/L snap  ? help"@,
        "f refresh  A auto-select  [/] profiles  Tab monitors  q quit"@,
    ]
}

fn list_warnings(planned: &Option<ApplyPlan>) -> (result: Vec<String>)
    ensures
        text::texts(result@) == warnings_of(
            match *planned {
                Some(plan) => Some(plan@),
                None => None,
            },
        ),
{
    let mut lines: Vec<String> = Vec::new();
    match planned {
        None => {
            assert(text::texts(lines@) =~= seq![]);
        },
        Some(plan) => {
            let ghost all = warnings_of(Some(plan@));
            let mut i: usize = 0;
            while i < plan.warnings.len()
                invariant
                    i <= plan.warnings@.len(),
                    all == warnings_of(Some(plan@)),
                    text::texts(lines@) =~= all.take(i as int),
                decreases plan.warnings@.len() - i,
            {
                assert(plan@.warnings == plan::warning_views(plan.warnings@));
                assert(plan@.warnings[i as int] == plan.warnings@[i as int]@);
                let line: String = "- ".to_owned().concat(plan.warnings[i].message().as_str());
                let ghost before = lines@;
                assert(line@ == all[i as int]);
                lines.push(line);
                assert(text::texts(lines@) =~= text::texts(before).push(all[i as int]));
                assert(all.take(i + 1) =~= all.take(i as int).push(all[i as int]));
                i += 1;
            }
            assert(all.take(i as int) =~= all);
        },
    }
    lines
}

/// The panel with the warnings and the keys.
pub fn warning_panel(model: &TuiModel) -> (result: String)
    ensures
        result@ == text::joined(warning_panel_lines(model@), "\n"@),
{
    let mut lines: Vec<String> = list_warnings(&model.apply_plan);
    let ghost warnings = text::texts(lines@);
    if lines.len() == 0 {
        lines.push("No warnings.".to_owned());
    }
    lines.push("move step: ".to_owned().concat(text::decimal(model.move_step as i128).as_str()));
    lines.push("n new  s save-as  c copy  R rename  d delete  a apply  space toggle".to_owned());
    lines.push("m mode  r rotate  +/- scale  arrows move  H/J/K/L snap  ? help".to_owned());
    lines.push("f refresh  A auto-select  [/] profiles  Tab monitors  q quit".to_owned());
    assert(text::texts(lines@) =~= warning_panel_lines(model@));
    text::join(&lines, "\n")
}

// ---------------------------------------------------------------------------
// The canvas
// ---------------------------------------------------------------------------
/// The number that `part` spells, or zero.
pub open spec fn coordinate_of(part: Seq<char>) -> i32 {
    match number::bounded_integer(part, i32::MIN as int, i32::MAX as int) {
        Some(n) => n as i32,
        None => 0,
    }
}

/// The output that a row stands for.
pub open spec fn output_of(row: MonitorRowView) -> ProfileOutputView {
    let place = match text::split_at_first(row.position, 'x') {
        Some((x, y)) => (coordinate_of(x), coordinate_of(y)),
        None => (0i32, 0i32),
    };
    ProfileOutputView {
        monitor_id: row.id,
        enabled: row.enabled,
        mode: row.mode,
        x: place.0,
        y: place.1,
        scale: row.scale,
        transform: row.transform as i32,
    }
}

fn read_coordinate(part: &str) -> (result: i32)
    ensures
        result == coordinate_of(part@),
{
    match parse_integer(part, i32::MIN as i64, i32::MAX as i64) {
        Some(n) => n as i32,
        None => 0,
    }
}

/// The output that a row stands for.
pub fn profile_output_from_row(row: &TuiMonitorRow) -> (result: ProfileOutput)
    ensures
        result@ == output_of(row@),
{
    let (x, y): (i32, i32) = match text::split_once(row.position.as_str(), 'x') {
        Some((x, y)) => (read_coordinate(x), read_coordinate(y)),
        None => (0, 0),
    };
    ProfileOutput {
        monitor_id: row.id.clone(),
        enabled: row.enabled,
        mode: row.mode.clone(),
        x,
        y,
        scale: row.scale,
        transform: row.transform,
    }
}

/// The first `width` characters of `value`, or all of them.
pub open spec fn cut(value: Seq<char>, width: int) -> Seq<char> {
    if value.len() <= width {
        value
    } else {
        value.take(width)
    }
}

/// The first `width` characters of `value`, or all of them.
pub fn truncate_to_width(value: &str, width: u16) -> (result: String)
    ensures
        result@ == cut(value@, width as int),
{
    let length: usize = value.unicode_len();
    if length <= width as usize {
        value.to_owned()
    } else {
        let head: &str = value.substring_char(0, width as usize);
        assert(head@ =~= value@.take(width as int));
        head.to_owned()
    }
}

/// An output on the canvas.
#[derive(Debug)]
pub struct CanvasBox {
    pub cells: CellRect,
    pub label: String,
    pub selected: bool,
}

/// What a [`CanvasBox`] holds.
#[verifier::ext_equal]
pub struct BoxView {
    pub cells: CellRect,
    pub label: Seq<char>,
    pub selected: bool,
}

impl View for CanvasBox {
    type V = BoxView;

    open spec fn view(&self) -> BoxView {
        BoxView { cells: self.cells, label: self.label@, selected: self.selected }
    }
}

/// What outputs on the canvas hold.
pub open spec fn box_views(boxes: Seq<CanvasBox>) -> Seq<BoxView> {
    boxes.map_values(|shown: CanvasBox| shown@)
}

/// The outputs that the rows stand for.
pub open spec fn outputs_of(rows: Seq<MonitorRowView>) -> Seq<ProfileOutputView> {
    rows.map_values(|row: MonitorRowView| output_of(row))
}

/// The label of a row on the canvas.
pub open spec fn label_text(row: MonitorRowView) -> Seq<char> {
    (if row.selected {
        "*"@
    } else {
        ""@
    }) + " "@ + row.output_name
}

/// What is drawn of row `i`, if anything.
pub open spec fn box_of(shown: TuiModelView, canvas: CanvasView, i: int) -> Option<BoxView> {
    let row = shown.monitors[i];
    match geometry::place_of(output_of(row), shown.current_monitor_states) {
        None => None,
        Some(place) => {
            let cells = canvas.cells_of(place);
            if cells.width == 0 || cells.height == 0 {
                None
            } else {
                Some(
                    BoxView {
                        cells,
                        label: cut(label_text(row), cells.width as int),
                        selected: row.selected,
                    },
                )
            }
        },
    }
}

/// What is drawn of the first `n` rows.
pub open spec fn boxes_of(shown: TuiModelView, canvas: CanvasView, n: int) -> Seq<BoxView>
    decreases n,
{
    if n <= 0 {
        seq![]
    } else {
        match box_of(shown, canvas, n - 1) {
            Some(drawn) => boxes_of(shown, canvas, n - 1).push(drawn),
            None => boxes_of(shown, canvas, n - 1),
        }
    }
}

/// What is drawn on a canvas that takes `area`, in the order of the rows.
pub open spec fn drawing(shown: TuiModelView, area: CellRect) -> Seq<BoxView> {
    boxes_of(
        shown,
        geometry::canvas_of(outputs_of(shown.monitors), shown.current_monitor_states, area),
        shown.monitors.len() as int,
    )
}

fn collect_outputs(rows: &Vec<TuiMonitorRow>) -> (result: Vec<ProfileOutput>)
    ensures
        store::output_views(result@) == outputs_of(rows@.map_values(|row: TuiMonitorRow| row@)),
{
    let ghost all = outputs_of(rows@.map_values(|row: TuiMonitorRow| row@));
    let mut outputs: Vec<ProfileOutput> = Vec::new();
    let mut i: usize = 0;
    while i < rows.len()
        invariant
            i <= rows@.len(),
            all == outputs_of(rows@.map_values(|row: TuiMonitorRow| row@)),
            store::output_views(outputs@) =~= all.take(i as int),
        decreases rows@.len() - i,
    {
        let output: ProfileOutput = profile_output_from_row(&rows[i]);
        let ghost before = outputs@;
        assert(output@ == all[i as int]);
        outputs.push(output);
        assert(store::output_views(outputs@) =~= store::output_views(before).push(all[i as int]));
        assert(all.take(i + 1) =~= all.take(i as int).push(all[i as int]));
        i += 1;
    }
    assert(all.take(i as int) =~= all);
    outputs
}

/// What is drawn on a canvas that takes `area`, in the order of the rows.
pub fn render_canvas(model: &TuiModel, area: CellRect) -> (result: Vec<CanvasBox>)
    ensures
        box_views(result@) == drawing(model@, area),
{
    let outputs: Vec<ProfileOutput> = collect_outputs(&model.monitors);
    let transform: CanvasTransform = CanvasTransform::new_with_monitors(
        &outputs,
        &model.current_monitor_states,
        area,
    );
    let ghost canvas = transform@;
    let mut boxes: Vec<CanvasBox> = Vec::new();
    let mut i: usize = 0;
    assert(box_views(boxes@) =~= boxes_of(model@, canvas, 0));
    while i < outputs.len()
        invariant
            i <= outputs@.len(),
            outputs@.len() == model.monitors@.len(),
            store::output_views(outputs@) == outputs_of(model@.monitors),
            canvas == transform@,
            box_views(boxes@) == boxes_of(model@, canvas, i as int),
        decreases outputs@.len() - i,
    {
        let row: &TuiMonitorRow = &model.monitors[i];
        assert(model@.monitors[i as int] == row@);
        assert(store::output_views(outputs@)[i as int] == outputs@[i as int]@);
        assert(outputs_of(model@.monitors)[i as int] == output_of(row@));
        let ghost before = boxes@;
        match output_rect_with_monitors(&outputs[i], &model.current_monitor_states) {
            None => {},
            Some(place) => {
                let cells: CellRect = transform.to_cell_rect(place);
                if cells.width != 0 && cells.height != 0 {
                    let marker: &str = if row.selected {
                        "*"
                    } else {
                        ""
                    };
                    let label: String = marker.to_owned().concat(" ").concat(
                        row.output_name.as_str(),
                    );
                    let shown: CanvasBox = CanvasBox {
                        cells,
                        label: truncate_to_width(label.as_str(), cells.width),
                        selected: row.selected,
                    };
                    let ghost drawn = shown@;
                    boxes.push(shown);
                    assert(box_views(boxes@) =~= box_views(before).push(drawn));
                }
            },
        }
        i += 1;
    }
    boxes
}

/// The lines of the help.
pub open spec fn help_lines() -> Seq<Seq<char>> {
    seq![
        "Profiles: [/] browse, n new from current, s save-as, c copy, R rename, d delete"@,
        "Selection: Tab/Shift-Tab monitors, mouse selects profiles and monitors"@,
        "Layout: arrows nudge, H/J/K/L snap left/down/up/right, mouse drag moves"@,
        "Output: Space enable, m mode, r transform, +/- scale"@,
        "Actions: a apply/confirm warnings, A automatic select, f refresh current state"@,
        "Safety: edits stay in a draft; replace, delete, warned apply, and dirty quit confirm"@,
        "Quit: q or Esc. Close help: ? or Esc."@,
    ]
}

/// Where the help is shown, and the help; nothing where there is no room.
pub fn render_help(screen: CellRect) -> (result: Option<(CellRect, String)>)
    ensures
        match result {
            Some((area, help)) => {
                &&& area == screen.middle(76, 22)
                &&& area.width != 0 && area.height != 0
                &&& help@ == text::joined(help_lines(), "\n\n"@)
            },
            None => screen.middle(76, 22).width == 0 || screen.middle(76, 22).height == 0,
        },
{
    let area: CellRect = screen.centered(76, 22);
    if area.width == 0 || area.height == 0 {
        return None;
    }
    let lines: Vec<String> = vec![
        "Profiles: [/] browse, n new from current, s save-as, c copy, R rename, d delete".to_owned(),
        "Selection: Tab/Shift-Tab monitors, mouse selects profiles and monitors".to_owned(),
        "Layout: arrows nudge, H/J/K/L snap left/down/up/right, mouse drag moves".to_owned(),
        "Output: Space enable, m mode, r transform, +/- scale".to_owned(),
        "Actions: a apply/confirm warnings, A automatic select, f refresh current state".to_owned(),
        "Safety: edits stay in a draft; replace, delete, warned apply, and dirty quit confirm".to_owned(),
        "Quit: q or Esc. Close help: ? or Esc.".to_owned(),
    ];
    assert(text::texts(lines@) =~= help_lines());
    Some((area, text::join(&lines, "\n\n")))
}

// ---------------------------------------------------------------------------
// Laws
// ---------------------------------------------------------------------------
/// What is drawn of an output is where the draft places it.
pub proof fn law_rows_keep_their_place(
    profile: ProfileView,
    output: ProfileOutputView,
    selected: bool,
)
    ensures
        output_of(model::monitor_row(profile, output, selected)).x == output.x,
        output_of(model::monitor_row(profile, output, selected)).y == output.y,
{
    let x = text::int_text(output.x as int);
    let y = text::int_text(output.y as int);
    reveal_strlit("x");
    assert("x"@ =~= seq!['x']);
    number::law_written_integers_read_back(output.x as int);
    number::law_written_integers_read_back(output.y as int);
    text::law_split_at_first(x, 'x', y);
}

} // verus!
