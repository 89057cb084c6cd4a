//! Profiles and the store that keeps them.
use vstd::prelude::*;

use crate::error;
use crate::error::Error;
use crate::hyprland::monitor;
use crate::hyprland::monitor::{MonitorState, MonitorView};
use crate::number;
use crate::number::Decimal;
use crate::profile::validation;
use crate::sort;
use crate::sort::Ranked;
use crate::text;

verus! {

/// The saved profiles.
#[derive(Debug, PartialEq)]
pub struct ProfileStore {
    pub profiles: Vec<Profile>,
}

/// A saved layout: which monitors it is for, and how each is set.
#[derive(Debug, PartialEq)]
pub struct Profile {
    pub name: String,
    pub created_at: String,
    pub updated_at: String,
    pub monitors: Vec<ProfileMonitor>,
    pub outputs: Vec<ProfileOutput>,
}

/// What a profile remembers of a monitor.
#[derive(Debug, PartialEq)]
pub struct ProfileMonitor {
    pub id: String,
    pub name_hint: String,
    pub description: String,
    pub make: String,
    pub model: String,
    pub serial: String,
    pub physical_width: i32,
    pub physical_height: i32,
}

/// How a profile sets a monitor.
#[derive(Debug, PartialEq)]
pub struct ProfileOutput {
    pub monitor_id: String,
    pub enabled: bool,
    pub mode: String,
    pub x: i32,
    pub y: i32,
    pub scale: Decimal,
    pub transform: i32,
}

// ---------------------------------------------------------------------------
// Views
// ---------------------------------------------------------------------------
/// What a [`ProfileMonitor`] holds.
#[verifier::ext_equal]
pub struct ProfileMonitorView {
    pub id: Seq<char>,
    pub name_hint: Seq<char>,
    pub description: Seq<char>,
    pub make: Seq<char>,
    pub model: Seq<char>,
    pub serial: Seq<char>,
    pub physical_width: i32,
    pub physical_height: i32,
}

/// What a [`ProfileOutput`] holds; the scale in units.
#[verifier::ext_equal]
pub struct ProfileOutputView {
    pub monitor_id: Seq<char>,
    pub enabled: bool,
    pub mode: Seq<char>,
    pub x: i32,
    pub y: i32,
    pub scale: int,
    pub transform: i32,
}

/// What a [`Profile`] holds.
#[verifier::ext_equal]
pub struct ProfileView {
    pub name: Seq<char>,
    pub created_at: Seq<char>,
    pub updated_at: Seq<char>,
    pub monitors: Seq<ProfileMonitorView>,
    pub outputs: Seq<ProfileOutputView>,
}

impl View for ProfileMonitor {
    type V = ProfileMonitorView;

    open spec fn view(&self) -> ProfileMonitorView {
        ProfileMonitorView {
            id: self.id@,
            name_hint: self.name_hint@,
            description: self.description@,
            make: self.make@,
            model: self.model@,
            serial: self.serial@,
            physical_width: self.physical_width,
            physical_height: self.physical_height,
        }
    }
}

impl View for ProfileOutput {
    type V = ProfileOutputView;

    open spec fn view(&self) -> ProfileOutputView {
        ProfileOutputView {
            monitor_id: self.monitor_id@,
            enabled: self.enabled,
            mode: self.mode@,
            x: self.x,
            y: self.y,
            scale: self.scale.value(),
            transform: self.transform,
        }
    }
}

/// The views of remembered monitors.
pub open spec fn monitor_views(monitors: Seq<ProfileMonitor>) -> Seq<ProfileMonitorView> {
    monitors.map_values(|monitor: ProfileMonitor| monitor@)
}

/// The views of outputs.
pub open spec fn output_views(outputs: Seq<ProfileOutput>) -> Seq<ProfileOutputView> {
    outputs.map_values(|output: ProfileOutput| output@)
}

/// The views of profiles.
pub open spec fn profile_views(profiles: Seq<Profile>) -> Seq<ProfileView> {
    profiles.map_values(|profile: Profile| profile@)
}

impl View for Profile {
    type V = ProfileView;

    open spec fn view(&self) -> ProfileView {
        ProfileView {
            name: self.name@,
            created_at: self.created_at@,
            updated_at: self.updated_at@,
            monitors: monitor_views(self.monitors@),
            outputs: output_views(self.outputs@),
        }
    }
}

impl View for ProfileStore {
    type V = Seq<ProfileView>;

    open spec fn view(&self) -> Seq<ProfileView> {
        profile_views(self.profiles@)
    }
}

// ---------------------------------------------------------------------------
// Copies
// ---------------------------------------------------------------------------
impl Clone for ProfileMonitor {
    fn clone(&self) -> (result: Self)
        ensures
            result@ == self@,
    {
        ProfileMonitor {
            id: self.id.clone(),
            name_hint: self.name_hint.clone(),
            description: self.description.clone(),
            make: self.make.clone(),
            model: self.model.clone(),
            serial: self.serial.clone(),
            physical_width: self.physical_width,
            physical_height: self.physical_height,
        }
    }
}

impl Clone for ProfileOutput {
    fn clone(&self) -> (result: Self)
        ensures
            result@ == self@,
    {
        ProfileOutput {
            monitor_id: self.monitor_id.clone(),
            enabled: self.enabled,
            mode: self.mode.clone(),
            x: self.x,
            y: self.y,
            scale: self.scale,
            transform: self.transform,
        }
    }
}

/// A copy of `monitors`.
pub fn copied_monitors(monitors: &Vec<ProfileMonitor>) -> (result: Vec<ProfileMonitor>)
    ensures
        monitor_views(result@) == monitor_views(monitors@),
{
    let mut result: Vec<ProfileMonitor> = Vec::new();
    let mut i: usize = 0;
    while i < monitors.len()
        invariant
            i <= monitors.len(),
            monitor_views(result@) == monitor_views(monitors@).take(i as int),
        decreases monitors.len() - i,
    {
        let ghost before = result@;
        result.push(monitors[i].clone());
        assert(monitor_views(result@) =~= monitor_views(before).push(monitors@[i as int]@));
        assert(monitor_views(result@) =~= monitor_views(monitors@).take(i + 1));
        i += 1;
    }
    assert(monitor_views(monitors@).take(monitors@.len() as int) =~= monitor_views(monitors@));
    result
}

/// A copy of `outputs`.
pub fn copied_outputs(outputs: &Vec<ProfileOutput>) -> (result: Vec<ProfileOutput>)
    ensures
        output_views(result@) == output_views(outputs@),
{
    let mut result: Vec<ProfileOutput> = Vec::new();
    let mut i: usize = 0;
    while i < outputs.len()
        invariant
            i <= outputs.len(),
            output_views(result@) == output_views(outputs@).take(i as int),
        decreases outputs.len() - i,
    {
        let ghost before = result@;
        result.push(outputs[i].clone());
        assert(output_views(result@) =~= output_views(before).push(outputs@[i as int]@));
        assert(output_views(result@) =~= output_views(outputs@).take(i + 1));
        i += 1;
    }
    assert(output_views(outputs@).take(outputs@.len() as int) =~= output_views(outputs@));
    result
}

impl Clone for Profile {
    fn clone(&self) -> (result: Self)
        ensures
            result@ == self@,
    {
        Profile {
            name: self.name.clone(),
            created_at: self.created_at.clone(),
            updated_at: self.updated_at.clone(),
            monitors: copied_monitors(&self.monitors),
            outputs: copied_outputs(&self.outputs),
        }
    }
}

impl Clone for ProfileStore {
    fn clone(&self) -> (result: Self)
        ensures
            result@ == self@,
    {
        let mut profiles: Vec<Profile> = Vec::new();
        let mut i: usize = 0;
        while i < self.profiles.len()
            invariant
                i <= self.profiles.len(),
                profile_views(profiles@) == self@.take(i as int),
            decreases self.profiles.len() - i,
        {
            let ghost before = profiles@;
            profiles.push(self.profiles[i].clone());
            assert(profile_views(profiles@) =~= profile_views(before).push(
                self.profiles@[i as int]@,
            ));
            assert(profile_views(profiles@) =~= self@.take(i + 1));
            i += 1;
        }
        assert(self@.take(self@.len() as int) =~= self@);
        ProfileStore { profiles }
    }
}

impl Default for ProfileStore {
    fn default() -> (result: Self)
        ensures
            result@ == Seq::<ProfileView>::empty(),
    {
        let result = ProfileStore { profiles: Vec::new() };
        assert(result@ =~= Seq::<ProfileView>::empty());
        result
    }
}

// ---------------------------------------------------------------------------
// Profiles from monitors
// ---------------------------------------------------------------------------
impl ProfileMonitorView {
    /// What is remembered of `monitor`.
    pub open spec fn of(monitor: MonitorView) -> ProfileMonitorView {
        ProfileMonitorView {
            id: monitor.id,
            name_hint: monitor.output_name,
            description: monitor.description,
            make: monitor.make,
            model: monitor.model,
            serial: monitor.serial,
            physical_width: monitor.physical_width,
            physical_height: monitor.physical_height,
        }
    }
}

impl ProfileMonitor {
    /// What is remembered of `monitor`.
    pub fn from(monitor: &MonitorState) -> (result: Self)
        ensures
            result@ == ProfileMonitorView::of(monitor@),
    {
        ProfileMonitor {
            id: monitor.id.clone(),
            name_hint: monitor.output_name.clone(),
            description: monitor.description.clone(),
            make: monitor.make.clone(),
            model: monitor.model.clone(),
            serial: monitor.serial.clone(),
            physical_width: monitor.physical_width,
            physical_height: monitor.physical_height,
        }
    }
}

/// A mode of `width` by `height` pixels at a rate of `refresh_rate` units.
pub open spec fn mode_text(width: int, height: int, refresh_rate: int) -> Seq<char> {
    text::int_text(width) + "x"@ + text::int_text(height) + "@"@ + number::short_decimal_text(
        refresh_rate,
    )
}

/// A mode of `width` by `height` pixels at `refresh_rate`.
pub fn format_mode(width: i32, height: i32, refresh_rate: Decimal) -> (result: String)
    ensures
        result@ == mode_text(width as int, height as int, refresh_rate.value()),
{
    text::decimal(width as i128).concat("x").concat(text::decimal(height as i128).as_str()).concat(
        "@",
    ).concat(refresh_rate.short_text().as_str())
}

impl ProfileOutputView {
    /// The mode that `monitor` runs in; where it has no size, the first that
    /// it offers.
    pub open spec fn mode_of(monitor: MonitorView) -> Seq<char> {
        if monitor.width > 0 && monitor.height > 0 {
            mode_text(monitor.width as int, monitor.height as int, monitor.refresh_rate)
        } else if monitor.available_modes.len() > 0 {
            text::without_suffix(monitor.available_modes[0], "Hz"@)
        } else {
            "preferred"@
        }
    }

    /// How `monitor` is set.
    pub open spec fn of(monitor: MonitorView) -> ProfileOutputView {
        ProfileOutputView {
            monitor_id: monitor.id,
            enabled: monitor.enabled,
            mode: Self::mode_of(monitor),
            x: monitor.x,
            y: monitor.y,
            scale: monitor.scale,
            transform: monitor.transform,
        }
    }
}

impl ProfileOutput {
    /// How `monitor` is set.
    pub fn from(monitor: &MonitorState) -> (result: Self)
        ensures
            result@ == ProfileOutputView::of(monitor@),
    {
        let mode: String = if monitor.width > 0 && monitor.height > 0 {
            format_mode(monitor.width, monitor.height, monitor.refresh_rate)
        } else if monitor.available_modes.len() > 0 {
            assert(monitor@.available_modes[0] == monitor.available_modes@[0]@);
            text::strip_suffix(monitor.available_modes[0].as_str(), "Hz").to_owned()
        } else {
            "preferred".to_owned()
        };
        ProfileOutput {
            monitor_id: monitor.id.clone(),
            enabled: monitor.enabled,
            mode,
            x: monitor.x,
            y: monitor.y,
            scale: monitor.scale,
            transform: monitor.transform,
        }
    }
}

impl ProfileView {
    /// The profile that remembers `monitors` as they are.
    pub open spec fn of_monitors(
        name: Seq<char>,
        monitors: Seq<MonitorView>,
        created_at: Seq<char>,
        updated_at: Seq<char>,
    ) -> ProfileView {
        ProfileView {
            name,
            created_at,
            updated_at,
            monitors: monitors.map_values(|monitor: MonitorView| ProfileMonitorView::of(monitor)),
            outputs: monitors.map_values(|monitor: MonitorView| ProfileOutputView::of(monitor)),
        }
    }
}

impl Profile {
    /// The profile that remembers `monitors` as they are.
    pub fn from_monitors(
        name: String,
        monitors: &Vec<MonitorState>,
        created_at: String,
        updated_at: String,
    ) -> (result: Self)
        ensures
            result@ == ProfileView::of_monitors(
                name@,
                monitor::views(monitors@),
                created_at@,
                updated_at@,
            ),
    {
        let ghost all = monitor::views(monitors@);
        let ghost expected = ProfileView::of_monitors(name@, all, created_at@, updated_at@);
        let mut remembered: Vec<ProfileMonitor> = Vec::new();
        let mut outputs: Vec<ProfileOutput> = Vec::new();
        let mut i: usize = 0;
        while i < monitors.len()
            invariant
                i <= monitors.len(),
                all == monitor::views(monitors@),
                expected.monitors == all.map_values(
                    |monitor: MonitorView| ProfileMonitorView::of(monitor),
                ),
                expected.outputs == all.map_values(
                    |monitor: MonitorView| ProfileOutputView::of(monitor),
                ),
                monitor_views(remembered@) == expected.monitors.take(i as int),
                output_views(outputs@) == expected.outputs.take(i as int),
            decreases monitors.len() - i,
        {
            let ghost remembered_before = remembered@;
            let ghost outputs_before = outputs@;
            assert(all[i as int] == monitors@[i as int]@);
            remembered.push(ProfileMonitor::from(&monitors[i]));
            outputs.push(ProfileOutput::from(&monitors[i]));
            assert(monitor_views(remembered@) =~= monitor_views(remembered_before).push(
                expected.monitors[i as int],
            ));
            assert(output_views(outputs@) =~= output_views(outputs_before).push(
                expected.outputs[i as int],
            ));
            assert(monitor_views(remembered@) =~= expected.monitors.take(i + 1));
            assert(output_views(outputs@) =~= expected.outputs.take(i + 1));
            i += 1;
        }
        assert(expected.monitors.take(all.len() as int) =~= expected.monitors);
        assert(expected.outputs.take(all.len() as int) =~= expected.outputs);
        Profile { name, created_at, updated_at, monitors: remembered, outputs }
    }
}

// ---------------------------------------------------------------------------
// Names
// ---------------------------------------------------------------------------
/// One of `profiles` has the name `name`.
pub open spec fn has_name(profiles: Seq<ProfileView>, name: Seq<char>) -> bool {
    exists|i: int| 0 <= i < profiles.len() && (#[trigger] profiles[i]).name == name
}

/// The position of the first profile with the name `name`.
pub open spec fn position_of(profiles: Seq<ProfileView>, name: Seq<char>) -> Option<int>
    decreases profiles.len(),
{
    if profiles.len() == 0 {
        None
    } else if profiles[0].name == name {
        Some(0)
    } else {
        match position_of(profiles.drop_first(), name) {
            Some(i) => Some(i + 1),
            None => None,
        }
    }
}

/// [`position_of`] is the least position that holds the name.
pub proof fn lemma_position_of(profiles: Seq<ProfileView>, name: Seq<char>)
    ensures
        match position_of(profiles, name) {
            Some(i) => 0 <= i < profiles.len() && profiles[i].name == name && forall|j: int|
                0 <= j < i ==> (#[trigger] profiles[j]).name != name,
            None => forall|j: int| 0 <= j < profiles.len() ==> (#[trigger] profiles[j]).name
                != name,
        },
    decreases profiles.len(),
{
    if profiles.len() > 0 && profiles[0].name != name {
        let rest = profiles.drop_first();
        lemma_position_of(rest, name);
        let bound = match position_of(rest, name) {
            Some(i) => i + 1,
            None => profiles.len() as int,
        };
        assert forall|j: int| 0 <= j < bound implies (#[trigger] profiles[j]).name != name by {
            if j > 0 {
                assert(rest[j - 1].name != name);
            }
        }
    }
}

impl ProfileStore {
    /// The position of the first profile with the name `name`.
    pub fn position(&self, name: &str) -> (result: Option<usize>)
        ensures
            match (position_of(self@, name@), result) {
                (Some(k), Some(i)) => i == k && i < self@.len(),
                (None, None) => true,
                _ => false,
            },
    {
        proof {
            lemma_position_of(self@, name@);
        }
        let mut i: usize = 0;
        while i < self.profiles.len()
            invariant
                i <= self.profiles@.len(),
                match position_of(self@, name@) {
                    Some(k) => i <= k < self@.len() && self@[k].name == name@ && forall|j: int|
                        0 <= j < k ==> (#[trigger] self@[j]).name != name@,
                    None => forall|j: int| 0 <= j < self@.len() ==> (#[trigger] self@[j]).name
                        != name@,
                },
            decreases self.profiles@.len() - i,
        {
            assert(self@[i as int].name == self.profiles@[i as int].name@);
            if text::same(self.profiles[i].name.as_str(), name) {
                return Some(i);
            }
            i += 1;
        }
        None
    }

    /// Whether a profile has the name `name`.
    pub fn has_profile(&self, name: &str) -> (result: bool)
        ensures
            result == has_name(self@, name@),
    {
        proof {
            lemma_position_of(self@, name@);
        }
        self.position(name).is_some()
    }
}

/// A profile saved at `seconds` past the epoch is stamped with this.
pub open spec fn timestamp_text(seconds: int) -> Seq<char> {
    "unix:"@ + text::int_text(seconds)
}

/// The stamp of a profile saved at `seconds` past the epoch.
pub fn timestamp(seconds: u64) -> (result: String)
    ensures
        result@ == timestamp_text(seconds as int),
{
    "unix:".to_owned().concat(text::decimal(seconds as i128).as_str())
}

/// How many of `monitors` are enabled.
pub open spec fn enabled_count(monitors: Seq<MonitorView>) -> nat
    decreases monitors.len(),
{
    if monitors.len() == 0 {
        0
    } else {
        enabled_count(monitors.drop_last()) + (if monitors.last().enabled {
            1nat
        } else {
            0nat
        })
    }
}

/// The name that a layout of `monitors` suggests.
pub open spec fn suggested_name(monitors: Seq<MonitorView>) -> Seq<char> {
    let count = if enabled_count(monitors) == 0 {
        monitors.len()
    } else {
        enabled_count(monitors)
    };
    let prefix = if count <= 1 {
        "laptop"@
    } else {
        "desk"@
    };
    let noun = if count == 1 {
        "monitor"@
    } else {
        "monitors"@
    };
    prefix + "-"@ + text::int_text(count as int) + "-"@ + noun
}

fn count_enabled(monitors: &Vec<MonitorState>) -> (result: usize)
    ensures
        result == enabled_count(monitor::views(monitors@)),
{
    let ghost all = monitor::views(monitors@);
    let mut count: usize = 0;
    let mut i: usize = 0;
    while i < monitors.len()
        invariant
            i <= monitors@.len(),
            all == monitor::views(monitors@),
            count <= i,
            count == enabled_count(all.take(i as int)),
        decreases monitors@.len() - i,
    {
        assert(all.take(i + 1).drop_last() =~= all.take(i as int));
        assert(all.take(i + 1).last() == monitors@[i as int]@);
        if monitors[i].enabled {
            count += 1;
        }
        i += 1;
    }
    assert(all.take(all.len() as int) =~= all);
    count
}

// ---------------------------------------------------------------------------
// Changes
// ---------------------------------------------------------------------------
impl Ranked for Profile {
    open spec fn ahead(a: ProfileView, b: ProfileView) -> bool {
        text::precedes(a.name, b.name)
    }

    fn is_ahead(&self, other: &Self) -> (result: bool) {
        text::comes_before(self.name.as_str(), other.name.as_str())
    }
}

/// `profiles` with `profile` in place of the one with its name, or added, in
/// the order of names.
pub open spec fn stored(profiles: Seq<ProfileView>, profile: ProfileView) -> Seq<ProfileView> {
    sort::sorted::<Profile>(
        match position_of(profiles, profile.name) {
            Some(i) => profiles.update(i, profile),
            None => profiles.push(profile),
        },
    )
}

/// When the profile `name` was first saved, `now` being the answer where it
/// has not been.
pub open spec fn first_saved(
    profiles: Seq<ProfileView>,
    name: Seq<char>,
    now: Seq<char>,
) -> Seq<char> {
    match position_of(profiles, name) {
        Some(i) => profiles[i].created_at,
        None => now,
    }
}

/// What is said where a name is taken.
pub open spec fn taken_text(name: Seq<char>) -> Seq<char> {
    "profile `"@ + name + "` already exists; pass --replace to overwrite it"@
}

/// What is said where there is no profile of a name.
pub open spec fn missing_text(name: Seq<char>) -> Seq<char> {
    "profile `"@ + name + "` does not exist"@
}

/// The name under which a layout is saved.
pub open spec fn chosen_name(
    profiles: Seq<ProfileView>,
    requested: Option<Seq<char>>,
    monitors: Seq<MonitorView>,
) -> Seq<char> {
    match requested {
        Some(name) => name,
        None => text::first_free(suggested_name(monitors), validation::names_of(profiles)),
    }
}

/// Why the current layout is not saved.
pub open spec fn save_current_error(
    profiles: Seq<ProfileView>,
    requested: Option<Seq<char>>,
    monitors: Seq<MonitorView>,
    replace: bool,
) -> Option<Seq<char>> {
    let name = chosen_name(profiles, requested, monitors);
    if requested is Some && validation::name_error(name) is Some {
        validation::name_error(name)
    } else if has_name(profiles, name) && !replace {
        Some(taken_text(name))
    } else {
        None
    }
}

/// Why `profile` is not saved.
pub open spec fn save_error(
    profiles: Seq<ProfileView>,
    profile: ProfileView,
    replace: bool,
) -> Option<Seq<char>> {
    if validation::profile_error(profile) is Some {
        validation::profile_error(profile)
    } else if has_name(profiles, profile.name) && !replace {
        Some(taken_text(profile.name))
    } else {
        None
    }
}

/// `profile` with the stamps that it is saved with.
pub open spec fn stamped(
    profiles: Seq<ProfileView>,
    profile: ProfileView,
    now: Seq<char>,
) -> ProfileView {
    ProfileView {
        created_at: match position_of(profiles, profile.name) {
            Some(i) => profiles[i].created_at,
            None => if text::trimmed(profile.created_at).len() == 0 {
                now
            } else {
                profile.created_at
            },
        },
        updated_at: now,
        ..profile
    }
}

/// Why `old_name` does not become `new_name`.
pub open spec fn rename_error(
    profiles: Seq<ProfileView>,
    old_name: Seq<char>,
    new_name: Seq<char>,
) -> Option<Seq<char>> {
    if validation::name_error(old_name) is Some {
        validation::name_error(old_name)
    } else if validation::name_error(new_name) is Some {
        validation::name_error(new_name)
    } else if old_name == new_name {
        Some("profile `"@ + old_name + "` already has that name"@)
    } else if has_name(profiles, new_name) {
        Some("profile `"@ + new_name + "` already exists"@)
    } else if !has_name(profiles, old_name) {
        Some(missing_text(old_name))
    } else {
        None
    }
}

/// `profiles` with the first `old_name` called `new_name`, in the order of
/// names.
pub open spec fn renamed(
    profiles: Seq<ProfileView>,
    old_name: Seq<char>,
    new_name: Seq<char>,
    now: Seq<char>,
) -> Seq<ProfileView> {
    let i = position_of(profiles, old_name)->0;
    sort::sorted::<Profile>(
        profiles.update(
            i,
            ProfileView { name: new_name, updated_at: now, ..profiles[i] },
        ),
    )
}

/// Why `name` is not deleted.
pub open spec fn delete_error(profiles: Seq<ProfileView>, name: Seq<char>) -> Option<Seq<char>> {
    if validation::name_error(name) is Some {
        validation::name_error(name)
    } else if !has_name(profiles, name) {
        Some(missing_text(name))
    } else {
        None
    }
}

/// The copy of the first `source` under the name `destination`.
pub open spec fn copy_of(
    profiles: Seq<ProfileView>,
    source: Seq<char>,
    destination: Seq<char>,
    now: Seq<char>,
) -> ProfileView {
    ProfileView {
        name: destination,
        created_at: now,
        updated_at: now,
        ..profiles[position_of(profiles, source)->0]
    }
}

/// Why `source` is not copied to `destination`.
pub open spec fn copy_error(
    profiles: Seq<ProfileView>,
    source: Seq<char>,
    destination: Seq<char>,
    replace: bool,
    now: Seq<char>,
) -> Option<Seq<char>> {
    if validation::name_error(source) is Some {
        validation::name_error(source)
    } else if validation::name_error(destination) is Some {
        validation::name_error(destination)
    } else if source == destination {
        Some(
            "destination profile `"@ + destination
                + "` already exists as the source; choose a different name"@,
        )
    } else if !has_name(profiles, source) {
        Some(missing_text(source))
    } else {
        save_error(profiles, copy_of(profiles, source, destination, now), replace)
    }
}

fn about(name: &str, complaint: &str) -> (result: Error)
    ensures
        result.head() == result@,
        result@ == "profile `"@ + name@ + complaint@,
{
    Error::new("profile `".to_owned().concat(name).concat(complaint))
}

impl ProfileStore {
    /// Puts the profiles in the order of their names.
    fn sort_profiles(&mut self)
        ensures
            final(self)@ == sort::sorted::<Profile>(old(self)@),
    {
        let mut taken: Vec<Profile> = Vec::new();
        std::mem::swap(&mut taken, &mut self.profiles);
        assert(sort::held(taken@) =~= old(self)@);
        self.profiles = sort::sort(taken);
        assert(sort::held(self.profiles@) =~= self@);
    }

    /// Puts `profile` in place of the one with its name, or adds it.
    fn put(&mut self, profile: Profile)
        ensures
            final(self)@ == stored(old(self)@, profile@),
    {
        let ghost before = self@;
        match self.position(profile.name.as_str()) {
            Some(i) => {
                let ghost view = profile@;
                self.profiles.set(i, profile);
                assert(self@ =~= before.update(i as int, view));
            },
            None => {
                let ghost view = profile@;
                self.profiles.push(profile);
                assert(self@ =~= before.push(view));
            },
        }
        self.sort_profiles();
    }

    fn names(&self) -> (result: Vec<String>)
        ensures
            text::texts(result@) == validation::names_of(self@),
    {
        let ghost all = validation::names_of(self@);
        let mut names: Vec<String> = Vec::new();
        let mut i: usize = 0;
        while i < self.profiles.len()
            invariant
                i <= self.profiles@.len(),
                all == validation::names_of(self@),
                text::texts(names@) == all.take(i as int),
            decreases self.profiles@.len() - i,
        {
            let ghost before = names@;
            names.push(self.profiles[i].name.clone());
            assert(all[i as int] == self.profiles@[i as int].name@);
            assert(text::texts(names@) =~= text::texts(before).push(all[i as int]));
            assert(text::texts(names@) =~= all.take(i + 1));
            i += 1;
        }
        assert(all.take(all.len() as int) =~= all);
        names
    }

    /// The first of `base`, `base-2`, `base-3`, ... that no profile has.
    pub fn next_available_name(&self, base: &str) -> (result: String)
        ensures
            result@ == text::first_free(base@, validation::names_of(self@)),
    {
        text::unused_name(base, &self.names())
    }

    /// A name for a layout of `monitors` that no profile has.
    pub fn next_generated_name(&self, monitors: &Vec<MonitorState>) -> (result: String)
        ensures
            result@ == chosen_name(self@, None, monitor::views(monitors@)),
    {
        let enabled: usize = count_enabled(monitors);
        let count: usize = if enabled == 0 {
            monitors.len()
        } else {
            enabled
        };
        let noun: &str = if count == 1 {
            "monitor"
        } else {
            "monitors"
        };
        let prefix: &str = if count <= 1 {
            "laptop"
        } else {
            "desk"
        };
        let base: String = prefix.to_owned().concat("-").concat(
            text::decimal(count as i128).as_str(),
        ).concat("-").concat(noun);
        assert(base@ == suggested_name(monitor::views(monitors@)));
        self.next_available_name(base.as_str())
    }

    /// Saves the current layout, under a generated name where none is given.
    pub fn save_current_profile(
        &mut self,
        requested_name: Option<&str>,
        monitors: &Vec<MonitorState>,
        replace: bool,
        now: &str,
    ) -> (result: Result<String, Error>)
        ensures
            ({
                let requested = match requested_name {
                    Some(name) => Some(name@),
                    None => None,
                };
                let all = monitor::views(monitors@);
                let name = chosen_name(old(self)@, requested, all);
                &&& error::refused_as(
                    result,
                    save_current_error(old(self)@, requested, all, replace),
                )
                &&& match result {
                    Ok(saved) => saved@ == name && final(self)@ == stored(
                        old(self)@,
                        ProfileView::of_monitors(
                            name,
                            all,
                            first_saved(old(self)@, name, now@),
                            now@,
                        ),
                    ),
                    Err(_) => final(self)@ == old(self)@,
                }
            }),
            error::plainly(result),
    {
        let name: String = match requested_name {
            Some(requested) => match validation::validate_profile_name(requested) {
                Ok(valid) => valid.to_owned(),
                Err(error) => {
                    return Err(error);
                },
            },
            None => self.next_generated_name(monitors),
        };
        proof {
            lemma_position_of(self@, name@);
        }
        let existing: Option<usize> = self.position(name.as_str());
        if existing.is_some() && !replace {
            return Err(
                about(name.as_str(), "` already exists; pass --replace to overwrite it"),
            );
        }
        let created_at: String = match existing {
            Some(i) => {
                assert(self@[i as int] == self.profiles@[i as int]@);
                self.profiles[i].created_at.clone()
            },
            None => now.to_owned(),
        };
        let profile: Profile = Profile::from_monitors(
            name.clone(),
            monitors,
            created_at,
            now.to_owned(),
        );
        self.put(profile);
        Ok(name)
    }

    /// Saves `profile`.
    pub fn save_profile(&mut self, profile: Profile, replace: bool, now: &str) -> (result: Result<
        String,
        Error,
    >)
        ensures
            error::refused_as(result, save_error(old(self)@, profile@, replace)),
            match result {
                Ok(saved) => saved@ == profile@.name && final(self)@ == stored(
                    old(self)@,
                    stamped(old(self)@, profile@, now@),
                ),
                Err(_) => final(self)@ == old(self)@,
            },
    {
        let mut profile: Profile = profile;
        let ghost given = profile@;
        match validation::validate_profile(&profile) {
            Err(error) => {
                return Err(error);
            },
            Ok(()) => {},
        }
        proof {
            lemma_position_of(self@, given.name);
        }
        let existing: Option<usize> = self.position(profile.name.as_str());
        if existing.is_some() && !replace {
            return Err(
                about(profile.name.as_str(), "` already exists; pass --replace to overwrite it"),
            );
        }
        profile.updated_at = now.to_owned();
        match existing {
            Some(i) => {
                assert(self@[i as int] == self.profiles@[i as int]@);
                profile.created_at = self.profiles[i].created_at.clone();
            },
            None => {
                if text::trim(profile.created_at.as_str()).unicode_len() == 0 {
                    profile.created_at = now.to_owned();
                }
            },
        }
        let name: String = profile.name.clone();
        assert(profile@ == stamped(self@, given, now@));
        self.put(profile);
        Ok(name)
    }

    /// Calls the profile `old_name` `new_name`.
    pub fn rename_profile(&mut self, old_name: &str, new_name: &str, now: &str) -> (result: Result<
        (),
        Error,
    >)
        ensures
            error::refused_as(result, rename_error(old(self)@, old_name@, new_name@)),
            match result {
                Ok(()) => final(self)@ == renamed(old(self)@, old_name@, new_name@, now@),
                Err(_) => final(self)@ == old(self)@,
            },
    {
        match validation::validate_profile_name(old_name) {
            Err(error) => {
                return Err(error);
            },
            Ok(_) => {},
        }
        match validation::validate_profile_name(new_name) {
            Err(error) => {
                return Err(error);
            },
            Ok(_) => {},
        }
        if text::same(old_name, new_name) {
            return Err(about(old_name, "` already has that name"));
        }
        if self.has_profile(new_name) {
            return Err(about(new_name, "` already exists"));
        }
        proof {
            lemma_position_of(self@, old_name@);
        }
        match self.position(old_name) {
            None => Err(about(old_name, "` does not exist")),
            Some(i) => {
                let ghost before = self@;
                assert(before[i as int] == self.profiles@[i as int]@);
                self.profiles[i].name = new_name.to_owned();
                self.profiles[i].updated_at = now.to_owned();
                assert(self@ =~= before.update(
                    i as int,
                    ProfileView { name: new_name@, updated_at: now@, ..before[i as int] },
                ));
                self.sort_profiles();
                Ok(())
            },
        }
    }

    /// Takes the profile `name` out of the store.
    pub fn delete_profile(&mut self, name: &str) -> (result: Result<Profile, Error>)
        ensures
            error::refused_as(result, delete_error(old(self)@, name@)),
            match result {
                Ok(profile) => {
                    let i = position_of(old(self)@, name@)->0;
                    profile@ == old(self)@[i] && final(self)@ == old(self)@.remove(i)
                },
                Err(_) => final(self)@ == old(self)@,
            },
    {
        match validation::validate_profile_name(name) {
            Err(error) => {
                return Err(error);
            },
            Ok(_) => {},
        }
        proof {
            lemma_position_of(self@, name@);
        }
        match self.position(name) {
            None => Err(about(name, "` does not exist")),
            Some(i) => {
                let ghost before = self@;
                assert(before[i as int] == self.profiles@[i as int]@);
                let profile: Profile = self.profiles.remove(i);
                assert(self@ =~= before.remove(i as int));
                Ok(profile)
            },
        }
    }

    /// Saves a copy of the profile `source_name` as `destination_name`.
    pub fn copy_profile(
        &mut self,
        source_name: &str,
        destination_name: &str,
        replace: bool,
        now: &str,
    ) -> (result: Result<(), Error>)
        ensures
            error::refused_as(
                result,
                copy_error(old(self)@, source_name@, destination_name@, replace, now@),
            ),
            match result {
                Ok(()) => final(self)@ == stored(
                    old(self)@,
                    stamped(
                        old(self)@,
                        copy_of(old(self)@, source_name@, destination_name@, now@),
                        now@,
                    ),
                ),
                Err(_) => final(self)@ == old(self)@,
            },
    {
        match validation::validate_profile_name(source_name) {
            Err(error) => {
                return Err(error);
            },
            Ok(_) => {},
        }
        match validation::validate_profile_name(destination_name) {
            Err(error) => {
                return Err(error);
            },
            Ok(_) => {},
        }
        if text::same(source_name, destination_name) {
            return Err(
                Error::new(
                    "destination profile `".to_owned().concat(destination_name).concat(
                        "` already exists as the source; choose a different name",
                    ),
                ),
            );
        }
        proof {
            lemma_position_of(self@, source_name@);
        }
        match self.position(source_name) {
            None => Err(about(source_name, "` does not exist")),
            Some(i) => {
                assert(self@[i as int] == self.profiles@[i as int]@);
                let mut profile: Profile = self.profiles[i].clone();
                profile.name = destination_name.to_owned();
                profile.created_at = now.to_owned();
                profile.updated_at = now.to_owned();
                assert(profile@ == copy_of(self@, source_name@, destination_name@, now@));
                match self.save_profile(profile, replace, now) {
                    Ok(_) => Ok(()),
                    Err(error) => Err(error),
                }
            },
        }
    }
}

} // verus!
