//! Monitors as Hyprland reports them, and the identities given to them.
use vstd::prelude::*;

use crate::number::Decimal;
use crate::text;

verus! {

/// One entry of the compositor's monitor list.
#[derive(Debug, Clone, PartialEq)]
pub struct RawHyprMonitor {
    pub id: i64,
    pub name: String,
    pub description: String,
    pub make: String,
    pub model: String,
    pub serial: String,
    pub width: i32,
    pub height: i32,
    pub physical_width: i32,
    pub physical_height: i32,
    pub refresh_rate: Decimal,
    pub x: i32,
    pub y: i32,
    pub scale: Decimal,
    pub transform: i32,
    pub disabled: bool,
    pub available_modes: Vec<String>,
}

/// A monitor with its stable identity.
#[derive(Debug, PartialEq)]
pub struct MonitorState {
    pub output_name: String,
    pub id: String,
    pub description: String,
    pub make: String,
    pub model: String,
    pub serial: String,
    pub enabled: bool,
    pub x: i32,
    pub y: i32,
    pub width: i32,
    pub height: i32,
    pub refresh_rate: Decimal,
    pub scale: Decimal,
    pub transform: i32,
    pub available_modes: Vec<String>,
    pub physical_width: i32,
    pub physical_height: i32,
}

/// What a [`MonitorState`] holds; numbers of type [`Decimal`] in units.
#[verifier::ext_equal]
pub struct MonitorView {
    pub output_name: Seq<char>,
    pub id: Seq<char>,
    pub description: Seq<char>,
    pub make: Seq<char>,
    pub model: Seq<char>,
    pub serial: Seq<char>,
    pub enabled: bool,
    pub x: i32,
    pub y: i32,
    pub width: i32,
    pub height: i32,
    pub refresh_rate: int,
    pub scale: int,
    pub transform: i32,
    pub available_modes: Seq<Seq<char>>,
    pub physical_width: i32,
    pub physical_height: i32,
}

impl View for MonitorState {
    type V = MonitorView;

    open spec fn view(&self) -> MonitorView {
        MonitorView {
            output_name: self.output_name@,
            id: self.id@,
            description: self.description@,
            make: self.make@,
            model: self.model@,
            serial: self.serial@,
            enabled: self.enabled,
            x: self.x,
            y: self.y,
            width: self.width,
            height: self.height,
            refresh_rate: self.refresh_rate.value(),
            scale: self.scale.value(),
            transform: self.transform,
            available_modes: text::texts(self.available_modes@),
            physical_width: self.physical_width,
            physical_height: self.physical_height,
        }
    }
}

/// The views of monitors.
pub open spec fn views(monitors: Seq<MonitorState>) -> Seq<MonitorView> {
    monitors.map_values(|monitor: MonitorState| monitor@)
}

impl Clone for MonitorState {
    fn clone(&self) -> (result: Self)
        ensures
            result@ == self@,
    {
        MonitorState {
            output_name: self.output_name.clone(),
            id: self.id.clone(),
            description: self.description.clone(),
            make: self.make.clone(),
            model: self.model.clone(),
            serial: self.serial.clone(),
            enabled: self.enabled,
            x: self.x,
            y: self.y,
            width: self.width,
            height: self.height,
            refresh_rate: self.refresh_rate,
            scale: self.scale,
            transform: self.transform,
            available_modes: text::copied(&self.available_modes),
            physical_width: self.physical_width,
            physical_height: self.physical_height,
        }
    }
}

/// How much an identity can be trusted, by what it was made of.
#[derive(Debug, Clone, Copy, PartialEq, Eq, Structural)]
pub enum IdentityProvenance {
    PhysicalSerial,
    PhysicalNoSerial,
    Description,
    ConnectorFallback,
    ConnectorDisambiguated,
    LegacyUntrusted,
}

// ---------------------------------------------------------------------------
// Slugs
// ---------------------------------------------------------------------------
/// The lowercase form of `c`, as `char::to_lowercase` gives it.
pub uninterp spec fn lowercase_of(c: char) -> Seq<char>;

/// `c` with an ASCII capital turned small.
pub open spec fn ascii_lowercase(c: char) -> char {
    if 'A' <= c <= 'Z' {
        (c as u32 + 32) as char
    } else {
        c
    }
}

/// `s` holds no ASCII capital.
pub open spec fn no_capitals(s: Seq<char>) -> bool {
    forall|i: int| 0 <= i < s.len() ==> !('A' <= #[trigger] s[i] <= 'Z')
}

/// Calls `char::to_lowercase`, which gives the Unicode lowercase mapping of the
/// character, one or more characters. The contract names that mapping, and says
/// that it holds no ASCII capital, each of which has a small letter of its own.
#[verifier::external_body]
fn unicode_lowercase(c: char) -> (result: Vec<char>)
    ensures
        result@ == lowercase_of(c),
        no_capitals(result@),
{
    c.to_lowercase().collect()
}

/// The lowercase form of `c`: of an ASCII character at most its small letter.
pub open spec fn lower(c: char) -> Seq<char> {
    if c as u32 <= 0x7f {
        seq![ascii_lowercase(c)]
    } else {
        lowercase_of(c)
    }
}

fn lowercase(c: char) -> (result: Vec<char>)
    ensures
        result@ == lower(c),
        no_capitals(result@),
{
    if 'A' <= c && c <= 'Z' {
        let small: char = ((c as u8) + 32) as char;
        vec![small]
    } else if c as u32 <= 0x7f {
        vec![c]
    } else {
        unicode_lowercase(c)
    }
}

/// The lowercase form of `s`.
pub open spec fn lowercased(s: Seq<char>) -> Seq<char>
    decreases s.len(),
{
    if s.len() == 0 {
        seq![]
    } else {
        lowercased(s.drop_last()) + lower(s.last())
    }
}

/// Whether `c` is a small ASCII letter, a capital one or a digit.
pub open spec fn alphanumeric(c: char) -> bool {
    'a' <= c <= 'z' || 'A' <= c <= 'Z' || '0' <= c <= '9'
}

/// `s` with every run of other characters than ASCII letters and digits
/// replaced by one dash, a run in front left out.
pub open spec fn dashed(s: Seq<char>) -> Seq<char>
    decreases s.len(),
{
    if s.len() == 0 {
        seq![]
    } else {
        let front = dashed(s.drop_last());
        if alphanumeric(s.last()) {
            front.push(s.last())
        } else if front.len() > 0 && front.last() != '-' {
            front.push('-')
        } else {
            front
        }
    }
}

/// `s` without a dash at its end.
pub open spec fn without_dash(s: Seq<char>) -> Seq<char> {
    if s.len() > 0 && s.last() == '-' {
        s.drop_last()
    } else {
        s
    }
}

/// The slug of `s`: its lowercase letters and digits in runs joined by dashes,
/// or `unknown` where there are none.
pub open spec fn slug(s: Seq<char>) -> Seq<char> {
    let runs = without_dash(dashed(lowercased(s)));
    if runs.len() == 0 {
        "unknown"@
    } else {
        runs
    }
}

/// Appends `c` to a slug in the making.
fn push_slug_char(runs: &mut Vec<char>, c: char)
    ensures
        final(runs)@ == (if alphanumeric(c) {
            old(runs)@.push(c)
        } else if old(runs)@.len() > 0 && old(runs)@.last() != '-' {
            old(runs)@.push('-')
        } else {
            old(runs)@
        }),
{
    if ('a' <= c && c <= 'z') || ('A' <= c && c <= 'Z') || ('0' <= c && c <= '9') {
        runs.push(c);
    } else if runs.len() > 0 && runs[runs.len() - 1] != '-' {
        runs.push('-');
    }
}

/// The slug of `input`: small ASCII letters and digits in runs joined by single
/// dashes, and its own slug.
pub fn slug_component(input: &str) -> (result: String)
    ensures
        result@ == slug(input@),
        dash_joined(result@),
        no_capitals(result@),
        slug(result@) == result@,
{
    let chars: Vec<char> = text::chars_of(input);
    let mut runs: Vec<char> = Vec::new();
    let mut i: usize = 0;
    while i < chars.len()
        invariant
            i <= chars.len(),
            chars@ == input@,
            runs@ == dashed(lowercased(input@.take(i as int))),
            no_capitals(runs@),
        decreases chars.len() - i,
    {
        let lowered: Vec<char> = lowercase(chars[i]);
        let ghost before = lowercased(input@.take(i as int));
        assert(input@.take(i + 1).drop_last() =~= input@.take(i as int));
        let mut j: usize = 0;
        assert(before + lowered@.take(0) =~= before);
        while j < lowered.len()
            invariant
                j <= lowered.len(),
                runs@ == dashed(before + lowered@.take(j as int)),
                no_capitals(lowered@),
                no_capitals(runs@),
            decreases lowered.len() - j,
        {
            assert((before + lowered@.take(j + 1)).drop_last() =~= before + lowered@.take(j as int));
            assert((before + lowered@.take(j + 1)).last() == lowered@[j as int]);
            push_slug_char(&mut runs, lowered[j]);
            j += 1;
        }
        assert(lowered@.take(lowered@.len() as int) =~= lowered@);
        assert(input@.take(i + 1).last() == chars@[i as int]);
        i += 1;
    }
    assert(input@.take(input@.len() as int) =~= input@);
    if runs.len() > 0 && runs[runs.len() - 1] == '-' {
        let ghost full = runs@;
        runs.pop();
        assert(runs@ == full.drop_last());
    }
    proof {
        reveal_strlit("unknown");
        law_slug_form(input@);
        law_slug_is_idempotent(slug(input@));
    }
    if runs.len() == 0 {
        "unknown".to_owned()
    } else {
        text::string_of(&runs)
    }
}

// ---------------------------------------------------------------------------
// Identities
// ---------------------------------------------------------------------------
/// A field that says something: not blank, and not the slug of nothing.
pub open spec fn informative(s: Seq<char>) -> bool {
    text::trimmed(s).len() > 0 && slug(s) != "unknown"@
}

/// Decides [`informative`].
pub fn useful(value: &str) -> (result: bool)
    ensures
        result == informative(value@),
{
    let blank: bool = text::trim(value).unicode_len() == 0;
    !blank && !text::same(slug_component(value).as_str(), "unknown")
}

/// The identity of a monitor: by make, model and serial where all are known,
/// else by make and model, else by description, else by the connector.
pub open spec fn stable_id(
    make: Seq<char>,
    model: Seq<char>,
    serial: Seq<char>,
    description: Seq<char>,
    output_name: Seq<char>,
) -> Seq<char> {
    let make = text::trimmed(make);
    let model = text::trimmed(model);
    let serial = text::trimmed(serial);
    let description = text::trimmed(description);
    if informative(make) && informative(model) && informative(serial) {
        slug(make) + ":"@ + slug(model) + ":"@ + slug(serial)
    } else if informative(make) && informative(model) {
        slug(make) + ":"@ + slug(model) + ":no-serial"@
    } else if informative(description) {
        "description:"@ + slug(description)
    } else {
        "output:"@ + slug(output_name)
    }
}

/// The identity of a monitor.
pub fn stable_monitor_id(
    make: &str,
    model: &str,
    serial: &str,
    description: &str,
    output_name: &str,
) -> (result: String)
    ensures
        result@ == stable_id(make@, model@, serial@, description@, output_name@),
{
    let make: &str = text::trim(make);
    let model: &str = text::trim(model);
    let serial: &str = text::trim(serial);
    let description: &str = text::trim(description);
    if useful(make) && useful(model) && useful(serial) {
        return slug_component(make).concat(":").concat(slug_component(model).as_str()).concat(
            ":",
        ).concat(slug_component(serial).as_str());
    }
    if useful(make) && useful(model) {
        return slug_component(make).concat(":").concat(slug_component(model).as_str()).concat(
            ":no-serial",
        );
    }
    if useful(description) {
        return "description:".to_owned().concat(slug_component(description).as_str());
    }
    "output:".to_owned().concat(slug_component(output_name).as_str())
}

/// What the identity `id` was made of, going by the fields beside it.
///
/// An identity counts as physical or as taken from the description only where
/// those fields give it; any other is taken from a connector, by its form, or
/// not to be trusted.
pub open spec fn provenance(
    id: Seq<char>,
    make: Seq<char>,
    model: Seq<char>,
    serial: Seq<char>,
    description: Seq<char>,
) -> IdentityProvenance {
    let physical = informative(text::trimmed(make)) && informative(text::trimmed(model));
    let described = informative(text::trimmed(description));
    let derived = id == stable_id(make, model, serial, description, seq![]);
    if derived && physical && informative(text::trimmed(serial)) {
        IdentityProvenance::PhysicalSerial
    } else if derived && physical {
        IdentityProvenance::PhysicalNoSerial
    } else if derived && described {
        IdentityProvenance::Description
    } else if text::begins(id, "output:"@) {
        IdentityProvenance::ConnectorFallback
    } else if text::holds(id, ":output:"@) {
        IdentityProvenance::ConnectorDisambiguated
    } else {
        IdentityProvenance::LegacyUntrusted
    }
}

/// What the identity `id` was made of.
pub fn infer_identity_provenance(
    id: &str,
    make: &str,
    model: &str,
    serial: &str,
    description: &str,
) -> (result: IdentityProvenance)
    ensures
        result == provenance(id@, make@, model@, serial@, description@),
{
    let physical: bool = useful(text::trim(make)) && useful(text::trim(model));
    let described: bool = useful(text::trim(description));
    let expected: String = stable_monitor_id(make, model, serial, description, "");
    proof {
        reveal_strlit("");
        assert(""@ =~= Seq::<char>::empty());
    }
    let derived: bool = text::same(id, expected.as_str());
    if derived && physical && useful(text::trim(serial)) {
        IdentityProvenance::PhysicalSerial
    } else if derived && physical {
        IdentityProvenance::PhysicalNoSerial
    } else if derived && described {
        IdentityProvenance::Description
    } else if text::starts_with(id, "output:") {
        IdentityProvenance::ConnectorFallback
    } else if text::contains_text(id, ":output:") {
        IdentityProvenance::ConnectorDisambiguated
    } else {
        IdentityProvenance::LegacyUntrusted
    }
}

impl MonitorState {
    /// The monitor that `raw` describes.
    pub open spec fn of_raw(raw: RawHyprMonitor) -> MonitorView {
        MonitorView {
            output_name: raw.name@,
            id: stable_id(raw.make@, raw.model@, raw.serial@, raw.description@, raw.name@),
            description: raw.description@,
            make: raw.make@,
            model: raw.model@,
            serial: raw.serial@,
            enabled: !raw.disabled,
            x: raw.x,
            y: raw.y,
            width: raw.width,
            height: raw.height,
            refresh_rate: raw.refresh_rate.value(),
            scale: raw.scale.value(),
            transform: raw.transform,
            available_modes: text::texts(raw.available_modes@),
            physical_width: raw.physical_width,
            physical_height: raw.physical_height,
        }
    }

    /// The monitor that `raw` describes.
    pub fn from(raw: RawHyprMonitor) -> (result: Self)
        ensures
            result@ == Self::of_raw(raw),
    {
        let id: String = stable_monitor_id(
            raw.make.as_str(),
            raw.model.as_str(),
            raw.serial.as_str(),
            raw.description.as_str(),
            raw.name.as_str(),
        );
        MonitorState {
            output_name: raw.name,
            id,
            description: raw.description,
            make: raw.make,
            model: raw.model,
            serial: raw.serial,
            enabled: !raw.disabled,
            x: raw.x,
            y: raw.y,
            width: raw.width,
            height: raw.height,
            refresh_rate: raw.refresh_rate,
            scale: raw.scale,
            transform: raw.transform,
            available_modes: raw.available_modes,
            physical_width: raw.physical_width,
            physical_height: raw.physical_height,
        }
    }

    /// What the monitor's identity was made of.
    pub fn identity_provenance(&self) -> (result: IdentityProvenance)
        ensures
            result == self@.provenance(),
    {
        infer_identity_provenance(
            self.id.as_str(),
            self.make.as_str(),
            self.model.as_str(),
            self.serial.as_str(),
            self.description.as_str(),
        )
    }
}

impl MonitorView {
    /// What the monitor's identity was made of.
    pub open spec fn provenance(self) -> IdentityProvenance {
        provenance(self.id, self.make, self.model, self.serial, self.description)
    }
}

// ---------------------------------------------------------------------------
// Normalization
// ---------------------------------------------------------------------------
/// How often `id` occurs in `ids`.
pub open spec fn occurrences(ids: Seq<Seq<char>>, id: Seq<char>) -> nat
    decreases ids.len(),
{
    if ids.len() == 0 {
        0
    } else {
        occurrences(ids.drop_last(), id) + (if ids.last() == id {
            1nat
        } else {
            0nat
        })
    }
}

/// The identities that occur once among the first `n`, counted over all.
pub open spec fn singles(ids: Seq<Seq<char>>, n: int) -> Seq<Seq<char>>
    decreases n,
{
    if n <= 0 {
        seq![]
    } else if occurrences(ids, ids[n - 1]) <= 1 {
        singles(ids, n - 1).push(ids[n - 1])
    } else {
        singles(ids, n - 1)
    }
}

/// The first `n` identities once repeated ones have been told apart.
///
/// An identity that occurs once stays. One that is repeated takes the connector
/// behind it, and a number behind that where the result is taken.
pub open spec fn distinct_ids(
    ids: Seq<Seq<char>>,
    outputs: Seq<Seq<char>>,
    n: int,
) -> Seq<Seq<char>>
    decreases n,
{
    if n <= 0 {
        seq![]
    } else {
        let settled = distinct_ids(ids, outputs, n - 1);
        settled.push(
            if occurrences(ids, ids[n - 1]) <= 1 {
                ids[n - 1]
            } else {
                text::first_free(
                    ids[n - 1] + ":output:"@ + slug(outputs[n - 1]),
                    singles(ids, ids.len() as int) + settled,
                )
            },
        )
    }
}

/// The identities of `monitors`.
pub open spec fn ids_of(monitors: Seq<MonitorView>) -> Seq<Seq<char>> {
    monitors.map_values(|monitor: MonitorView| monitor.id)
}

/// The connectors of `monitors`.
pub open spec fn outputs_of(monitors: Seq<MonitorView>) -> Seq<Seq<char>> {
    monitors.map_values(|monitor: MonitorView| monitor.output_name)
}

/// `monitors` with repeated identities told apart.
pub open spec fn disambiguated(monitors: Seq<MonitorView>) -> Seq<MonitorView> {
    let ids = distinct_ids(ids_of(monitors), outputs_of(monitors), monitors.len() as int);
    monitors.map(|i: int, monitor: MonitorView| MonitorView { id: ids[i], ..monitor })
}

/// The monitors that `raw` describes, repeated identities told apart.
pub open spec fn normalized(raw: Seq<RawHyprMonitor>) -> Seq<MonitorView> {
    disambiguated(raw.map_values(|monitor: RawHyprMonitor| MonitorState::of_raw(monitor)))
}

fn count_id(monitors: &Vec<MonitorState>, id: &str) -> (result: usize)
    ensures
        result == occurrences(ids_of(views(monitors@)), id@),
{
    let ghost ids = ids_of(views(monitors@));
    let mut count: usize = 0;
    let mut i: usize = 0;
    while i < monitors.len()
        invariant
            i <= monitors.len(),
            ids == ids_of(views(monitors@)),
            count <= i,
            count == occurrences(ids.take(i as int), id@),
        decreases monitors.len() - i,
    {
        assert(ids.take(i + 1).drop_last() =~= ids.take(i as int));
        assert(ids.take(i + 1).last() == monitors@[i as int].id@);
        if text::same(monitors[i].id.as_str(), id) {
            count += 1;
        }
        i += 1;
    }
    assert(ids.take(ids.len() as int) =~= ids);
    count
}

/// Tells repeated identities apart.
fn disambiguate_duplicate_monitor_ids(monitors: &mut Vec<MonitorState>)
    ensures
        views(final(monitors)@) == disambiguated(views(old(monitors)@)),
{
    let ghost start = views(monitors@);
    let ghost ids = ids_of(start);
    let ghost outputs = outputs_of(start);
    let mut repeated: Vec<bool> = Vec::new();
    let mut used: Vec<String> = Vec::new();
    let mut i: usize = 0;
    while i < monitors.len()
        invariant
            i <= monitors.len(),
            ids == ids_of(views(monitors@)),
            repeated@.len() == i,
            forall|j: int| 0 <= j < i ==> #[trigger] repeated@[j] == (occurrences(ids, ids[j]) > 1),
            text::texts(used@) == singles(ids, i as int),
        decreases monitors.len() - i,
    {
        assert(ids[i as int] == monitors@[i as int].id@);
        let count: usize = count_id(monitors, monitors[i].id.as_str());
        repeated.push(count > 1);
        if count <= 1 {
            let ghost before = used@;
            used.push(monitors[i].id.clone());
            assert(text::texts(used@) =~= text::texts(before).push(ids[i as int]));
        }
        i += 1;
    }
    let ghost reserved = text::texts(used@);
    let size: usize = monitors.len();
    let mut i: usize = 0;
    assert(reserved + distinct_ids(ids, outputs, 0) =~= reserved);
    while i < size
        invariant
            size == monitors@.len() == start.len() == repeated@.len(),
            i <= size,
            ids == ids_of(start),
            outputs == outputs_of(start),
            reserved == singles(ids, ids.len() as int),
            forall|j: int|
                0 <= j < size ==> #[trigger] repeated@[j] == (occurrences(ids, ids[j]) > 1),
            text::texts(used@) == reserved + distinct_ids(ids, outputs, i as int),
            distinct_ids(ids, outputs, i as int).len() == i,
            forall|j: int|
                0 <= j < size ==> #[trigger] monitors@[j]@ == (MonitorView {
                    id: if j < i {
                        distinct_ids(ids, outputs, i as int)[j]
                    } else {
                        ids[j]
                    },
                    ..start[j]
                }),
        decreases size - i,
    {
        let ghost before = monitors@;
        let ghost settled = distinct_ids(ids, outputs, i as int);
        let ghost used_before = used@;
        assert(monitors@[i as int]@.id == ids[i as int]);
        assert(monitors@[i as int]@.output_name == outputs[i as int]);
        if repeated[i] {
            let base: String = monitors[i].id.clone().concat(":output:").concat(
                slug_component(monitors[i].output_name.as_str()).as_str(),
            );
            let candidate: String = text::unused_name(base.as_str(), &used);
            used.push(candidate.clone());
            monitors[i].id = candidate;
        } else {
            used.push(monitors[i].id.clone());
        }
        let ghost next = distinct_ids(ids, outputs, i + 1);
        assert(text::texts(used@) =~= text::texts(used_before).push(next[i as int]));
        assert(text::texts(used@) =~= reserved + next);
        assert forall|j: int| 0 <= j < size implies #[trigger] monitors@[j]@ == (MonitorView {
            id: if j < i + 1 {
                next[j]
            } else {
                ids[j]
            },
            ..start[j]
        }) by {
            assert(before[j]@ == before[j]@);
            if j < i {
                assert(next[j] == settled[j]);
            }
        }
        i += 1;
    }
    assert(views(monitors@) =~= disambiguated(start));
}

/// The monitors that `raw_monitors` describe, each with an identity of its own.
pub fn normalize_monitors(raw_monitors: Vec<RawHyprMonitor>) -> (result: Vec<MonitorState>)
    ensures
        views(result@) == normalized(raw_monitors@),
{
    let ghost all = raw_monitors@;
    let ghost plain = all.map_values(|monitor: RawHyprMonitor| MonitorState::of_raw(monitor));
    let mut rest: Vec<RawHyprMonitor> = raw_monitors;
    let mut monitors: Vec<MonitorState> = Vec::new();
    while rest.len() > 0
        invariant
            rest@.len() <= all.len(),
            rest@ == all.skip(all.len() - rest@.len()),
            plain == all.map_values(|monitor: RawHyprMonitor| MonitorState::of_raw(monitor)),
            views(monitors@) == plain.take(all.len() - rest@.len()),
        decreases rest@.len(),
    {
        let ghost done = all.len() - rest@.len();
        let ghost before = monitors@;
        let raw: RawHyprMonitor = rest.remove(0);
        assert(raw == all[done]);
        monitors.push(MonitorState::from(raw));
        assert(rest@ =~= all.skip(done + 1));
        assert(views(monitors@) =~= views(before).push(plain[done]));
        assert(views(monitors@) =~= plain.take(done + 1));
    }
    assert(plain.take(all.len() as int) =~= plain);
    disambiguate_duplicate_monitor_ids(&mut monitors);
    monitors
}

// ---------------------------------------------------------------------------
// Laws
// ---------------------------------------------------------------------------
/// `s` is not empty, consists of ASCII letters, digits and dashes, and has no
/// dash at either end nor two in a row.
pub open spec fn dash_joined(s: Seq<char>) -> bool {
    &&& s.len() > 0
    &&& forall|i: int| 0 <= i < s.len() ==> alphanumeric(#[trigger] s[i]) || s[i] == '-'
    &&& s[0] != '-'
    &&& s.last() != '-'
    &&& forall|i: int, j: int|
        0 <= i < s.len() && j == i + 1 && j < s.len() && #[trigger] s[i] == '-' ==> #[trigger] s[j]
            != '-'
}

proof fn lemma_dashed(s: Seq<char>)
    ensures
        ({
            let d = dashed(s);
            &&& forall|i: int| 0 <= i < d.len() ==> alphanumeric(#[trigger] d[i]) || d[i] == '-'
            &&& d.len() > 0 ==> d[0] != '-'
            &&& forall|i: int, j: int|
                0 <= i < d.len() && j == i + 1 && j < d.len() && #[trigger] d[i] == '-'
                    ==> #[trigger] d[j] != '-'
        }),
    decreases s.len(),
{
    if s.len() > 0 {
        lemma_dashed(s.drop_last());
    }
}

/// Every slug is made of ASCII letters and digits in runs joined by single
/// dashes.
pub proof fn law_slug_form(s: Seq<char>)
    ensures
        dash_joined(slug(s)),
{
    lemma_dashed(lowercased(s));
    reveal_strlit("unknown");
    let runs = dashed(lowercased(s));
    if runs.len() > 0 && runs.last() == '-' && runs.len() > 1 {
        let i = runs.len() - 2;
        assert(runs[i] != '-') by {
            if runs[i] == '-' {
                assert(runs[i + 1] != '-');
            }
        }
        assert(without_dash(runs).last() == runs[i]);
    }
    assert(forall|i: int|
        0 <= i < without_dash(runs).len() ==> #[trigger] without_dash(runs)[i] == runs[i]);
}

pub(crate) proof fn lemma_lowercased_small(s: Seq<char>)
    requires
        forall|i: int|
            0 <= i < s.len() ==> (#[trigger] s[i]) as u32 <= 0x7f && !('A' <= s[i] <= 'Z'),
    ensures
        lowercased(s) == s,
    decreases s.len(),
{
    if s.len() > 0 {
        lemma_lowercased_small(s.drop_last());
        assert(s.last() == s[s.len() - 1]);
        assert(s =~= s.drop_last() + seq![s.last()]);
    } else {
        assert(s =~= seq![]);
    }
}

pub(crate) proof fn lemma_dashed_fixed(s: Seq<char>)
    requires
        forall|i: int| 0 <= i < s.len() ==> alphanumeric(#[trigger] s[i]) || s[i] == '-',
        s.len() > 0 ==> s[0] != '-',
        forall|i: int, j: int|
            0 <= i < s.len() && j == i + 1 && j < s.len() && #[trigger] s[i] == '-'
                ==> #[trigger] s[j] != '-',
    ensures
        dashed(s) == s,
    decreases s.len(),
{
    if s.len() > 0 {
        let front = s.drop_last();
        assert forall|i: int, j: int|
            0 <= i < front.len() && j == i + 1 && j < front.len() && #[trigger] front[i]
                == '-' implies #[trigger] front[j] != '-' by {
            assert(s[i] == '-');
            assert(s[j] != '-');
        }
        assert forall|i: int| 0 <= i < front.len() implies alphanumeric(#[trigger] front[i])
            || front[i] == '-' by {
            assert(s[i] == front[i]);
        }
        lemma_dashed_fixed(front);
        let last = s.len() - 1;
        if s[last] == '-' {
            assert(front[last - 1] == s[last - 1]);
            if s[last - 1] == '-' {
                assert(s[last] != '-');
            }
        }
        assert(s =~= front.push(s.last()));
    } else {
        assert(s =~= seq![]);
    }
}

/// A text in slug form without capitals is its own slug.
pub proof fn law_slug_is_idempotent(s: Seq<char>)
    requires
        dash_joined(s),
        no_capitals(s),
    ensures
        slug(s) == s,
{
    lemma_lowercased_small(s);
    lemma_dashed_fixed(s);
}

pub(crate) proof fn lemma_distinct_ids_len(ids: Seq<Seq<char>>, outputs: Seq<Seq<char>>, n: int)
    requires
        0 <= n,
    ensures
        distinct_ids(ids, outputs, n).len() == n,
        forall|m: int, i: int|
            0 <= i < m <= n ==> #[trigger] distinct_ids(ids, outputs, m)[i] == distinct_ids(
                ids,
                outputs,
                n,
            )[i],
    decreases n,
{
    if n > 0 {
        lemma_distinct_ids_len(ids, outputs, n - 1);
    }
}

proof fn lemma_singles(ids: Seq<Seq<char>>, n: int)
    requires
        0 <= n <= ids.len(),
    ensures
        forall|i: int|
            0 <= i < n && occurrences(ids, #[trigger] ids[i]) <= 1 ==> singles(ids, n).contains(
                ids[i],
            ),
    decreases n,
{
    if n > 0 {
        lemma_singles(ids, n - 1);
        let front = singles(ids, n - 1);
        let all = singles(ids, n);
        assert forall|i: int| 0 <= i < n && occurrences(ids, #[trigger] ids[i]) <= 1 implies all.contains(
            ids[i],
        ) by {
            if i == n - 1 {
                assert(all.last() == ids[i]);
            } else {
                let k = choose|k: int| 0 <= k < front.len() && front[k] == ids[i];
                assert(all[k] == ids[i]);
            }
        }
    }
}

pub(crate) proof fn lemma_occurrences(ids: Seq<Seq<char>>, i: int)
    requires
        0 <= i < ids.len(),
    ensures
        occurrences(ids, ids[i]) >= 1,
        forall|j: int| 0 <= j < ids.len() && j != i && ids[j] == ids[i] ==> occurrences(ids, ids[i])
            >= 2,
    decreases ids.len(),
{
    let front = ids.drop_last();
    let id = ids[i];
    if i < ids.len() - 1 {
        lemma_occurrences(front, i);
        assert(front[i] == id);
        assert forall|j: int| 0 <= j < ids.len() && j != i && ids[j] == id implies occurrences(
            ids,
            id,
        ) >= 2 by {
            if j < ids.len() - 1 {
                assert(front[j] == id);
            }
        }
    } else {
        assert forall|j: int| 0 <= j < ids.len() && j != i && ids[j] == id implies occurrences(
            ids,
            id,
        ) >= 2 by {
            lemma_occurrences(front, j);
            assert(front[j] == id);
        }
    }
}

/// Normalized monitors have identities of their own, and an identity that
/// occurs once stays as it is.
pub proof fn law_distinct_identities(monitors: Seq<MonitorView>)
    ensures
        disambiguated(monitors).len() == monitors.len(),
        ids_of(disambiguated(monitors)).no_duplicates(),
        forall|i: int|
            0 <= i < monitors.len() && occurrences(ids_of(monitors), monitors[i].id) == 1
                ==> #[trigger] disambiguated(monitors)[i] == monitors[i],
        forall|i: int|
            0 <= i < monitors.len() ==> (#[trigger] disambiguated(monitors)[i]).output_name
                == monitors[i].output_name,
{
    let ids = ids_of(monitors);
    let outputs = outputs_of(monitors);
    let n = monitors.len() as int;
    let all = distinct_ids(ids, outputs, n);
    let reserved = singles(ids, n);
    lemma_distinct_ids_len(ids, outputs, n);
    lemma_singles(ids, n);
    assert(ids_of(disambiguated(monitors)) =~= all);
    assert forall|i: int, j: int| 0 <= i < j < n implies all[i] != all[j] by {
        assert(distinct_ids(ids, outputs, j + 1)[j] == all[j]);
        assert(distinct_ids(ids, outputs, i + 1)[i] == all[i]);
        lemma_distinct_ids_len(ids, outputs, j);
        lemma_distinct_ids_len(ids, outputs, i);
        let settled = distinct_ids(ids, outputs, j);
        assert(settled[i] == distinct_ids(ids, outputs, i + 1)[i]);
        lemma_occurrences(ids, i);
        lemma_occurrences(ids, j);
        if occurrences(ids, ids[j]) > 1 {
            text::law_first_free_is_free(
                ids[j] + ":output:"@ + slug(outputs[j]),
                reserved + settled,
            );
            assert((reserved + settled)[reserved.len() + i] == settled[i]);
        } else if occurrences(ids, ids[i]) > 1 {
            let earlier = distinct_ids(ids, outputs, i);
            text::law_first_free_is_free(
                ids[i] + ":output:"@ + slug(outputs[i]),
                reserved + earlier,
            );
            let k = choose|k: int| 0 <= k < reserved.len() && reserved[k] == ids[j];
            assert((reserved + earlier)[k] == ids[j]);
        }
    }
    assert forall|i: int|
        0 <= i < n && occurrences(ids, monitors[i].id) == 1 implies #[trigger] disambiguated(
        monitors,
    )[i] == monitors[i] by {
        assert(ids[i] == monitors[i].id);
        lemma_distinct_ids_len(ids, outputs, i);
        assert(distinct_ids(ids, outputs, i + 1)[i] == all[i]);
    }
}

/// A copy of `monitors`.
pub fn copied(monitors: &Vec<MonitorState>) -> (result: Vec<MonitorState>)
    ensures
        views(result@) == views(monitors@),
{
    let ghost all = views(monitors@);
    let mut result: Vec<MonitorState> = Vec::new();
    let mut i: usize = 0;
    while i < monitors.len()
        invariant
            i <= monitors@.len(),
            all == views(monitors@),
            views(result@) == all.take(i as int),
        decreases monitors@.len() - i,
    {
        let ghost before = result@;
        result.push(monitors[i].clone());
        assert(views(result@) =~= views(before).push(all[i as int]));
        assert(views(result@) =~= all.take(i + 1));
        i += 1;
    }
    assert(all.take(all.len() as int) =~= all);
    result
}

} // verus!
