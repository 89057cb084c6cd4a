//! Which saved profile fits the monitors that are connected.
use vstd::prelude::*;

use crate::assignment;
use crate::hyprland::monitor;
use crate::hyprland::monitor::{IdentityProvenance, MonitorState, MonitorView};
use crate::number;
use crate::profile::store;
use crate::profile::store::{Profile, ProfileMonitor, ProfileMonitorView, ProfileStore, ProfileView};
use crate::sort;
use crate::sort::Ranked;
use crate::text;

verus! {

/// The score of one trusted identity.
pub const EXACT_ID_SCORE: i32 = 100;

/// The score of one untrusted identity that other fields bear out.
pub const CORROBORATED_LEGACY_ID_SCORE: i32 = 95;

/// The score of one make, model and serial.
pub const PHYSICAL_SERIAL_SCORE: i32 = 90;

/// The score of one description.
pub const DESCRIPTION_SCORE: i32 = 60;

/// The score of one make, model and size.
pub const PHYSICAL_SIZE_SCORE: i32 = 50;

/// The score of one make and model.
pub const MAKE_MODEL_SCORE: i32 = 45;

/// The score of one connector.
pub const OUTPUT_NAME_SCORE: i32 = 20;

/// The least score of a pair that may count as a confident match.
pub const HIGH_CONFIDENCE_PAIR_SCORE: i32 = 60;

/// Whether a profile is chosen by the program or named by the user.
#[derive(Debug, Clone, Copy, PartialEq, Eq, Structural)]
pub enum MonitorMatchMode {
    Automatic,
    Explicit,
}

// ---------------------------------------------------------------------------
// Pairs
// ---------------------------------------------------------------------------
impl ProfileMonitorView {
    /// What the remembered identity was made of.
    pub open spec fn provenance(self) -> IdentityProvenance {
        monitor::provenance(self.id, self.make, self.model, self.serial, self.description)
    }
}

/// Both are of one known make and model.
pub open spec fn makes_agree(saved: ProfileMonitorView, current: MonitorView) -> bool {
    &&& monitor::informative(saved.make)
    &&& monitor::informative(saved.model)
    &&& saved.make == current.make
    &&& saved.model == current.model
}

/// Both are of one known size.
pub open spec fn sizes_agree(saved: ProfileMonitorView, current: MonitorView) -> bool {
    &&& saved.physical_width > 0
    &&& saved.physical_height > 0
    &&& saved.physical_width == current.physical_width
    &&& saved.physical_height == current.physical_height
}

/// Both have one description that says something.
pub open spec fn descriptions_agree(saved: ProfileMonitorView, current: MonitorView) -> bool {
    monitor::informative(saved.description) && saved.description == current.description
}

/// The monitor hangs on the connector that it was saved on.
pub open spec fn connectors_agree(saved: ProfileMonitorView, current: MonitorView) -> bool {
    monitor::informative(saved.name_hint) && saved.name_hint == current.output_name
}

/// Both have one identity, and the raw fields behind it agree too. Identities
/// taken from a connector never count.
pub open spec fn identities_agree(saved: ProfileMonitorView, current: MonitorView) -> bool {
    &&& monitor::informative(saved.id)
    &&& saved.id == current.id
    &&& saved.provenance() == current.provenance()
    &&& match saved.provenance() {
        IdentityProvenance::PhysicalSerial => saved.make == current.make && saved.model
            == current.model && saved.serial == current.serial,
        IdentityProvenance::PhysicalNoSerial => saved.make == current.make && saved.model
            == current.model,
        IdentityProvenance::Description => saved.description == current.description,
        _ => false,
    }
}

/// Both have one identity of unknown making, and other fields bear it out.
pub open spec fn legacy_identities_agree(saved: ProfileMonitorView, current: MonitorView) -> bool {
    &&& saved.id == current.id
    &&& saved.provenance() == IdentityProvenance::LegacyUntrusted
    &&& (makes_agree(saved, current) && saved.serial == current.serial) || descriptions_agree(
        saved,
        current,
    )
}

/// How well a remembered monitor and a connected one fit, and by what.
pub open spec fn pair_match(saved: ProfileMonitorView, current: MonitorView) -> (int, Seq<char>) {
    if identities_agree(saved, current) {
        (EXACT_ID_SCORE as int, "exact monitor id"@)
    } else if legacy_identities_agree(saved, current) {
        (CORROBORATED_LEGACY_ID_SCORE as int, "exact monitor id"@)
    } else if makes_agree(saved, current) && monitor::informative(saved.serial) && saved.serial
        == current.serial {
        (PHYSICAL_SERIAL_SCORE as int, "make/model/serial"@)
    } else if descriptions_agree(saved, current) {
        (DESCRIPTION_SCORE as int, "exact description"@)
    } else if makes_agree(saved, current) && sizes_agree(saved, current) {
        (PHYSICAL_SIZE_SCORE as int, "make/model/physical size"@)
    } else if makes_agree(saved, current) {
        (MAKE_MODEL_SCORE as int, "make/model"@)
    } else if connectors_agree(saved, current) {
        (OUTPUT_NAME_SCORE as int, "output name hint"@)
    } else {
        (0, "no match"@)
    }
}

/// How well a remembered monitor and a connected one fit.
pub open spec fn pair_score(saved: ProfileMonitorView, current: MonitorView) -> int {
    pair_match(saved, current).0
}

fn same_make_model(profile_monitor: &ProfileMonitor, current: &MonitorState) -> (result: bool)
    ensures
        result == makes_agree(profile_monitor@, current@),
{
    monitor::useful(profile_monitor.make.as_str()) && monitor::useful(
        profile_monitor.model.as_str(),
    ) && profile_monitor.make == current.make && profile_monitor.model == current.model
}

fn same_physical_size(profile_monitor: &ProfileMonitor, current: &MonitorState) -> (result: bool)
    ensures
        result == sizes_agree(profile_monitor@, current@),
{
    profile_monitor.physical_width > 0 && profile_monitor.physical_height > 0
        && profile_monitor.physical_width == current.physical_width
        && profile_monitor.physical_height == current.physical_height
}

fn same_description(profile_monitor: &ProfileMonitor, current: &MonitorState) -> (result: bool)
    ensures
        result == descriptions_agree(profile_monitor@, current@),
{
    monitor::useful(profile_monitor.description.as_str()) && profile_monitor.description
        == current.description
}

fn same_connector(profile_monitor: &ProfileMonitor, current: &MonitorState) -> (result: bool)
    ensures
        result == connectors_agree(profile_monitor@, current@),
{
    monitor::useful(profile_monitor.name_hint.as_str()) && profile_monitor.name_hint
        == current.output_name
}

fn stored_provenance(profile_monitor: &ProfileMonitor) -> (result: IdentityProvenance)
    ensures
        result == profile_monitor@.provenance(),
{
    monitor::infer_identity_provenance(
        profile_monitor.id.as_str(),
        profile_monitor.make.as_str(),
        profile_monitor.model.as_str(),
        profile_monitor.serial.as_str(),
        profile_monitor.description.as_str(),
    )
}

fn trusted_exact_identity(profile_monitor: &ProfileMonitor, current: &MonitorState) -> (result:
    bool)
    ensures
        result == identities_agree(profile_monitor@, current@),
{
    if !monitor::useful(profile_monitor.id.as_str()) || profile_monitor.id != current.id {
        return false;
    }
    let stored: IdentityProvenance = stored_provenance(profile_monitor);
    if stored != current.identity_provenance() {
        return false;
    }
    match stored {
        IdentityProvenance::PhysicalSerial => profile_monitor.make == current.make
            && profile_monitor.model == current.model && profile_monitor.serial == current.serial,
        IdentityProvenance::PhysicalNoSerial => profile_monitor.make == current.make
            && profile_monitor.model == current.model,
        IdentityProvenance::Description => profile_monitor.description == current.description,
        IdentityProvenance::ConnectorFallback => false,
        IdentityProvenance::ConnectorDisambiguated => false,
        IdentityProvenance::LegacyUntrusted => false,
    }
}

fn corroborated_legacy_identity(profile_monitor: &ProfileMonitor, current: &MonitorState) -> (result:
    bool)
    ensures
        result == legacy_identities_agree(profile_monitor@, current@),
{
    if profile_monitor.id != current.id || stored_provenance(profile_monitor)
        != IdentityProvenance::LegacyUntrusted {
        return false;
    }
    (same_make_model(profile_monitor, current) && profile_monitor.serial == current.serial)
        || same_description(profile_monitor, current)
}

/// How well a remembered monitor and a connected one fit, and by what.
pub fn profile_monitor_match_score(profile_monitor: &ProfileMonitor, current: &MonitorState) -> (result:
    (i32, &'static str))
    ensures
        result.0 == pair_match(profile_monitor@, current@).0,
        result.1@ == pair_match(profile_monitor@, current@).1,
        0 <= result.0 <= 100,
{
    if trusted_exact_identity(profile_monitor, current) {
        return (EXACT_ID_SCORE, "exact monitor id");
    }
    if corroborated_legacy_identity(profile_monitor, current) {
        return (CORROBORATED_LEGACY_ID_SCORE, "exact monitor id");
    }
    if same_make_model(profile_monitor, current) && monitor::useful(
        profile_monitor.serial.as_str(),
    ) && profile_monitor.serial == current.serial {
        return (PHYSICAL_SERIAL_SCORE, "make/model/serial");
    }
    if same_description(profile_monitor, current) {
        return (DESCRIPTION_SCORE, "exact description");
    }
    if same_make_model(profile_monitor, current) && same_physical_size(profile_monitor, current) {
        return (PHYSICAL_SIZE_SCORE, "make/model/physical size");
    }
    if same_make_model(profile_monitor, current) {
        return (MAKE_MODEL_SCORE, "make/model");
    }
    if same_connector(profile_monitor, current) {
        return (OUTPUT_NAME_SCORE, "output name hint");
    }
    (0, "no match")
}

// ---------------------------------------------------------------------------
// Weights
// ---------------------------------------------------------------------------
/// `n`, or the largest weight where it is larger.
pub open spec fn capped(n: int) -> int {
    number::least(n, i64::MAX as int)
}

/// The number of remembered monitors, as weights count them.
pub open spec fn counted(monitors: int) -> int {
    if monitors <= i64::MAX {
        monitors
    } else {
        i64::MAX as int / 1000
    }
}

/// What a point of score weighs: more than the connectors of all pairs.
pub open spec fn point_weight(monitors: int) -> int {
    capped(counted(monitors) + 1)
}

/// What a pair weighs in itself: more than the scores of all pairs.
pub open spec fn pair_bonus(monitors: int) -> int {
    capped(capped(capped(counted(monitors) * EXACT_ID_SCORE) + 1) * point_weight(monitors))
}

/// The weight of a pair with a score of `score`.
pub open spec fn pair_weight(monitors: int, score: int, tie_breaker: int) -> int {
    capped(
        capped(pair_bonus(monitors) + capped(score * point_weight(monitors))) + tie_breaker,
    )
}

/// Whether the connector speaks for the pair: only where the user named the
/// profile.
pub open spec fn tie_broken(
    saved: ProfileMonitorView,
    current: MonitorView,
    mode: MonitorMatchMode,
) -> int {
    if mode == MonitorMatchMode::Explicit && connectors_agree(saved, current) {
        1
    } else {
        0
    }
}

/// The weight of the remembered monitor `i` on the connected one `j`; columns
/// past the connected monitors leave a remembered one without a partner.
pub open spec fn cell(
    saved: Seq<ProfileMonitorView>,
    current: Seq<MonitorView>,
    mode: MonitorMatchMode,
    i: int,
    j: int,
) -> i64 {
    if j < current.len() && pair_score(saved[i], current[j]) > 0 {
        pair_weight(
            saved.len() as int,
            pair_score(saved[i], current[j]),
            tie_broken(saved[i], current[j], mode),
        ) as i64
    } else {
        0
    }
}

/// The weights of all pairs.
pub open spec fn weights(
    saved: Seq<ProfileMonitorView>,
    current: Seq<MonitorView>,
    mode: MonitorMatchMode,
) -> Seq<Seq<i64>> {
    Seq::new(
        saved.len(),
        |i: int| Seq::new(current.len() + saved.len(), |j: int| cell(saved, current, mode, i, j)),
    )
}

/// `a` pairs remembered and connected monitors one to one as well as can be.
pub open spec fn best_pairing(
    saved: Seq<ProfileMonitorView>,
    current: Seq<MonitorView>,
    mode: MonitorMatchMode,
    a: Seq<usize>,
) -> bool {
    assignment::is_optimal(
        weights(saved, current, mode),
        None,
        (current.len() + saved.len()) as nat,
        a,
    )
}

/// The partner found for a remembered monitor.
#[derive(Debug, Clone, Copy, PartialEq, Eq)]
pub struct ResolvedMonitorMatch {
    pub current_index: usize,
    pub score: i32,
    pub reason: &'static str,
    pub ambiguous: bool,
}

/// What a [`ResolvedMonitorMatch`] holds.
pub struct ResolvedView {
    pub current_index: int,
    pub score: int,
    pub reason: Seq<char>,
    pub ambiguous: bool,
}

impl View for ResolvedMonitorMatch {
    type V = ResolvedView;

    open spec fn view(&self) -> ResolvedView {
        ResolvedView {
            current_index: self.current_index as int,
            score: self.score as int,
            reason: self.reason@,
            ambiguous: self.ambiguous,
        }
    }
}

/// Another pairing as good as the best gives the remembered monitor `i` another
/// partner than `a` does, or none.
pub open spec fn has_alternative(
    saved: Seq<ProfileMonitorView>,
    current: Seq<MonitorView>,
    mode: MonitorMatchMode,
    a: Seq<usize>,
    i: int,
) -> bool {
    exists|b: Seq<usize>| #[trigger] best_pairing(saved, current, mode, b) && b[i] != a[i]
}

/// The partner that the pairing `a` gives the remembered monitor `i`.
pub open spec fn partner(
    saved: Seq<ProfileMonitorView>,
    current: Seq<MonitorView>,
    mode: MonitorMatchMode,
    a: Seq<usize>,
    i: int,
) -> Option<ResolvedView> {
    let j = a[i] as int;
    if j < current.len() && pair_score(saved[i], current[j]) > 0 {
        Some(
            ResolvedView {
                current_index: j,
                score: pair_score(saved[i], current[j]),
                reason: pair_match(saved[i], current[j]).1,
                ambiguous: has_alternative(saved, current, mode, a, i),
            },
        )
    } else {
        None
    }
}

/// The partners that the pairing `a` gives.
pub open spec fn partners(
    saved: Seq<ProfileMonitorView>,
    current: Seq<MonitorView>,
    mode: MonitorMatchMode,
    a: Seq<usize>,
) -> Seq<Option<ResolvedView>> {
    Seq::new(saved.len(), |i: int| partner(saved, current, mode, a, i))
}

/// What a resolved match holds, if there is one.
pub open spec fn resolved_view(resolved: Option<ResolvedMonitorMatch>) -> Option<ResolvedView> {
    match resolved {
        Some(found) => Some(found@),
        None => None,
    }
}

/// What resolved matches hold.
pub open spec fn resolved_views(resolved: Seq<Option<ResolvedMonitorMatch>>) -> Seq<
    Option<ResolvedView>,
> {
    resolved.map_values(|found: Option<ResolvedMonitorMatch>| resolved_view(found))
}

fn cap(n: i128) -> (result: i128)
    requires
        n >= 0,
    ensures
        result == capped(n as int),
        0 <= result <= i64::MAX,
{
    if n <= i64::MAX as i128 {
        n
    } else {
        i64::MAX as i128
    }
}

proof fn lemma_product_of_weights(a: i128, b: i128)
    requires
        0 <= a <= i64::MAX + 1,
        0 <= b <= i64::MAX + 1,
    ensures
        0 <= a * b <= 0x4000_0000_0000_0000_0000_0000_0000_0000,
{
    assert(0 <= a * b <= 0x8000_0000_0000_0000 * 0x8000_0000_0000_0000) by (nonlinear_arith)
        requires
            0 <= a <= 0x8000_0000_0000_0000,
            0 <= b <= 0x8000_0000_0000_0000,
    ;
}

fn weight_of_pair(monitors: usize, score: i32, tie_breaker: i128) -> (result: i64)
    requires
        0 <= score <= 100,
        0 <= tie_breaker <= 1,
    ensures
        result == pair_weight(monitors as int, score as int, tie_breaker as int),
        result >= 0,
{
    let count: i128 = if monitors as i128 <= i64::MAX as i128 {
        monitors as i128
    } else {
        i64::MAX as i128 / 1000
    };
    let point: i128 = cap(count + 1);
    let scores: i128 = cap(cap(count * 100) + 1);
    proof {
        lemma_product_of_weights(scores, point);
        lemma_product_of_weights(score as i128, point);
    }
    let bonus: i128 = cap(scores * point);
    let weight: i128 = cap(cap(bonus + cap(score as i128 * point)) + tie_breaker);
    weight as i64
}

/// The scores of one remembered monitor on every connected one.
struct PairScore {
    score: i32,
    reason: &'static str,
    connector_match: bool,
}

/// `pair` scores `saved` and `current`.
spec fn scores_pair(pair: PairScore, saved: ProfileMonitorView, current: MonitorView) -> bool {
    &&& pair.score == pair_match(saved, current).0
    &&& 0 <= pair.score <= 100
    &&& pair.reason@ == pair_match(saved, current).1
    &&& pair.connector_match == connectors_agree(saved, current)
}

fn scored_pairs(profile_monitor: &ProfileMonitor, current: &Vec<MonitorState>) -> (result: Vec<
    PairScore,
>)
    ensures
        result@.len() == current@.len(),
        forall|j: int|
            0 <= j < current@.len() ==> scores_pair(
                #[trigger] result@[j],
                profile_monitor@,
                monitor::views(current@)[j],
            ),
{
    let mut result: Vec<PairScore> = Vec::new();
    let mut j: usize = 0;
    while j < current.len()
        invariant
            j <= current@.len(),
            result@.len() == j,
            forall|k: int|
                0 <= k < j ==> scores_pair(
                    #[trigger] result@[k],
                    profile_monitor@,
                    monitor::views(current@)[k],
                ),
        decreases current@.len() - j,
    {
        let (score, reason) = profile_monitor_match_score(profile_monitor, &current[j]);
        let connector_match: bool = same_connector(profile_monitor, &current[j]);
        assert(monitor::views(current@)[j as int] == current@[j as int]@);
        result.push(PairScore { score, reason, connector_match });
        j += 1;
    }
    result
}

fn weight_row(
    scores: &Vec<PairScore>,
    monitors: usize,
    mode: MonitorMatchMode,
    Ghost(saved): Ghost<Seq<ProfileMonitorView>>,
    Ghost(current): Ghost<Seq<MonitorView>>,
    Ghost(i): Ghost<int>,
) -> (result: Vec<i64>)
    requires
        monitors == saved.len(),
        scores@.len() == current.len(),
        scores@.len() + monitors <= usize::MAX,
        forall|j: int|
            0 <= j < current.len() ==> scores_pair(#[trigger] scores@[j], saved[i], current[j]),
    ensures
        result@ == Seq::new(
            current.len() + saved.len(),
            |j: int| cell(saved, current, mode, i, j),
        ),
{
    let ghost expected = Seq::new(
        current.len() + saved.len(),
        |j: int| cell(saved, current, mode, i, j),
    );
    let mut row: Vec<i64> = Vec::new();
    let mut j: usize = 0;
    while j < scores.len()
        invariant
            j <= scores@.len(),
            monitors == saved.len(),
            scores@.len() == current.len(),
            expected == Seq::new(
                current.len() + saved.len(),
                |j: int| cell(saved, current, mode, i, j),
            ),
            forall|j: int|
                0 <= j < current.len() ==> scores_pair(#[trigger] scores@[j], saved[i], current[j]),
            row@ == expected.take(j as int),
        decreases scores@.len() - j,
    {
        assert(scores_pair(scores@[j as int], saved[i], current[j as int]));
        let weight: i64 = if scores[j].score > 0 {
            let tie_breaker: i128 = if mode == MonitorMatchMode::Explicit
                && scores[j].connector_match {
                1
            } else {
                0
            };
            weight_of_pair(monitors, scores[j].score, tie_breaker)
        } else {
            0
        };
        assert(weight == expected[j as int]);
        row.push(weight);
        assert(row@ =~= expected.take(j + 1));
        j += 1;
    }
    let total: usize = scores.len() + monitors;
    while j < total
        invariant
            scores@.len() == current.len() <= j <= total == current.len() + saved.len(),
            expected == Seq::new(
                current.len() + saved.len(),
                |j: int| cell(saved, current, mode, i, j),
            ),
            row@ == expected.take(j as int),
        decreases total - j,
    {
        row.push(0);
        assert(row@ =~= expected.take(j + 1));
        j += 1;
    }
    assert(expected.take(total as int) =~= expected);
    row
}

proof fn lemma_weights_have_spares(
    saved: Seq<ProfileMonitorView>,
    current: Seq<MonitorView>,
    mode: MonitorMatchMode,
)
    ensures
        assignment::has_spares(weights(saved, current, mode), current.len() as int),
{
}

/// Finds partners for remembered monitors where the program chooses.
pub fn resolve_monitor_matches(
    profile_monitors: &Vec<ProfileMonitor>,
    current: &Vec<MonitorState>,
) -> (result: Vec<Option<ResolvedMonitorMatch>>)
    requires
        profile_monitors@.len() + current@.len() < usize::MAX,
    ensures
        exists|a: Seq<usize>|
            #![trigger best_pairing(
                store::monitor_views(profile_monitors@),
                monitor::views(current@),
                MonitorMatchMode::Automatic,
                a,
            )]
            best_pairing(
                store::monitor_views(profile_monitors@),
                monitor::views(current@),
                MonitorMatchMode::Automatic,
                a,
            ) && resolved_views(result@) == partners(
                store::monitor_views(profile_monitors@),
                monitor::views(current@),
                MonitorMatchMode::Automatic,
                a,
            ),
{
    resolve_monitor_matches_with_mode(profile_monitors, current, MonitorMatchMode::Automatic)
}

/// Finds partners for remembered monitors: one to one, as many as can be, and
/// among those with as high a score as can be.
pub fn resolve_monitor_matches_with_mode(
    profile_monitors: &Vec<ProfileMonitor>,
    current: &Vec<MonitorState>,
    mode: MonitorMatchMode,
) -> (result: Vec<Option<ResolvedMonitorMatch>>)
    requires
        profile_monitors@.len() + current@.len() < usize::MAX,
    ensures
        exists|a: Seq<usize>|
            #![trigger best_pairing(
                store::monitor_views(profile_monitors@),
                monitor::views(current@),
                mode,
                a,
            )]
            best_pairing(
                store::monitor_views(profile_monitors@),
                monitor::views(current@),
                mode,
                a,
            ) && resolved_views(result@) == partners(
                store::monitor_views(profile_monitors@),
                monitor::views(current@),
                mode,
                a,
            ),
{
    let ghost saved = store::monitor_views(profile_monitors@);
    let ghost connected = monitor::views(current@);
    let ghost expected = weights(saved, connected, mode);
    let count: usize = profile_monitors.len();
    let columns: usize = current.len() + count;
    let mut scores: Vec<Vec<PairScore>> = Vec::new();
    let mut matrix: Vec<Vec<i64>> = Vec::new();
    let mut i: usize = 0;
    while i < count
        invariant
            i <= count == profile_monitors@.len(),
            count + current@.len() < usize::MAX,
            saved == store::monitor_views(profile_monitors@),
            connected == monitor::views(current@),
            expected == weights(saved, connected, mode),
            scores@.len() == i,
            forall|k: int, j: int|
                0 <= k < i && 0 <= j < connected.len() ==> scores_pair(
                    #[trigger] scores@[k]@[j],
                    saved[k],
                    connected[j],
                ),
            forall|k: int| 0 <= k < i ==> (#[trigger] scores@[k])@.len() == connected.len(),
            assignment::cells(matrix@) == expected.take(i as int),
        decreases count - i,
    {
        let row_scores: Vec<PairScore> = scored_pairs(&profile_monitors[i], current);
        assert(saved[i as int] == profile_monitors@[i as int]@);
        let row: Vec<i64> = weight_row(
            &row_scores,
            count,
            mode,
            Ghost(saved),
            Ghost(connected),
            Ghost(i as int),
        );
        let ghost before = matrix@;
        matrix.push(row);
        scores.push(row_scores);
        assert(assignment::cells(matrix@) =~= assignment::cells(before).push(expected[i as int]));
        assert(assignment::cells(matrix@) =~= expected.take(i + 1));
        i += 1;
    }
    assert(expected.take(count as int) =~= expected);
    let (chosen, best_total) = assignment::maximum_weight_assignment(&matrix, columns, None);
    let ghost a = chosen@;
    assert(best_pairing(saved, connected, mode, a));
    proof {
        lemma_weights_have_spares(saved, connected, mode);
    }
    let mut result: Vec<Option<ResolvedMonitorMatch>> = Vec::new();
    let mut i: usize = 0;
    while i < count
        invariant
            i <= count == profile_monitors@.len() == scores@.len() == saved.len() == chosen@.len(),
            columns == current@.len() + count,
            columns < usize::MAX,
            saved == store::monitor_views(profile_monitors@),
            connected == monitor::views(current@),
            expected == weights(saved, connected, mode),
            assignment::has_spares(expected, connected.len() as int),
            assignment::cells(matrix@) == expected,
            a == chosen@,
            best_pairing(saved, connected, mode, a),
            best_total == assignment::total_gain(expected, None, a),
            forall|k: int, j: int|
                0 <= k < count && 0 <= j < connected.len() ==> scores_pair(
                    #[trigger] scores@[k]@[j],
                    saved[k],
                    connected[j],
                ),
            forall|k: int| 0 <= k < count ==> (#[trigger] scores@[k])@.len() == connected.len(),
            resolved_views(result@) == partners(saved, connected, mode, a).take(i as int),
        decreases count - i,
    {
        let ghost before = result@;
        let column: usize = chosen[i];
        let mut found: Option<ResolvedMonitorMatch> = None;
        if column < current.len() {
            assert(scores@[i as int]@.len() == connected.len());
            assert(scores_pair(
                scores@[i as int]@[column as int],
                saved[i as int],
                connected[column as int],
            ));
            let score: i32 = scores[i][column].score;
            if score > 0 {
                let (other, alternative_total) = assignment::maximum_weight_assignment(
                    &matrix,
                    columns,
                    Some((i, column)),
                );
                proof {
                    assignment::lemma_alternative(
                        expected,
                        connected.len() as int,
                        a,
                        i,
                        other@,
                    );
                    assert(has_alternative(saved, connected, mode, a, i as int) <==> exists|
                        c: Seq<usize>,
                    | #[trigger]
                        assignment::is_optimal(expected, None, columns as nat, c) && c[i as int]
                            != a[i as int]) by {
                        if exists|c: Seq<usize>| #[trigger]
                            assignment::is_optimal(expected, None, columns as nat, c)
                                && c[i as int] != a[i as int] {
                            let c = choose|c: Seq<usize>| #[trigger]
                                assignment::is_optimal(expected, None, columns as nat, c)
                                    && c[i as int] != a[i as int];
                            assert(best_pairing(saved, connected, mode, c));
                        }
                        if has_alternative(saved, connected, mode, a, i as int) {
                            let b = choose|b: Seq<usize>| #[trigger]
                                best_pairing(saved, connected, mode, b) && b[i as int]
                                    != a[i as int];
                            assert(assignment::is_optimal(expected, None, columns as nat, b));
                        }
                    }
                }
                found = Some(
                    ResolvedMonitorMatch {
                        current_index: column,
                        score,
                        reason: scores[i][column].reason,
                        ambiguous: alternative_total == best_total,
                    },
                );
            }
        }
        assert(resolved_view(found) == partner(saved, connected, mode, a, i as int));
        result.push(found);
        assert(resolved_views(result@) =~= resolved_views(before).push(
            partner(saved, connected, mode, a, i as int),
        ));
        assert(resolved_views(result@) =~= partners(saved, connected, mode, a).take(i + 1));
        i += 1;
    }
    assert(partners(saved, connected, mode, a).take(count as int) =~= partners(
        saved,
        connected,
        mode,
        a,
    ));
    result
}

// ---------------------------------------------------------------------------
// Profiles
// ---------------------------------------------------------------------------
/// How far a profile fits the connected monitors.
#[derive(Debug, Clone, Copy, PartialEq, Eq, Structural)]
pub enum MatchConfidence {
    Exact,
    High,
    Partial,
    Ambiguous,
    Unmatched,
}

impl MatchConfidence {
    /// The word for it.
    pub open spec fn word(self) -> Seq<char> {
        match self {
            MatchConfidence::Exact => "exact"@,
            MatchConfidence::High => "high"@,
            MatchConfidence::Partial => "partial"@,
            MatchConfidence::Ambiguous => "ambiguous"@,
            MatchConfidence::Unmatched => "none"@,
        }
    }

    /// The word for it.
    pub fn as_str(self) -> (result: &'static str)
        ensures
            result@ == self.word(),
    {
        match self {
            MatchConfidence::Exact => "exact",
            MatchConfidence::High => "high",
            MatchConfidence::Partial => "partial",
            MatchConfidence::Ambiguous => "ambiguous",
            MatchConfidence::Unmatched => "none",
        }
    }

    /// Good enough to be applied without being asked for.
    pub open spec fn eligible(self) -> bool {
        self is Exact || self is High
    }

    /// Whether it is good enough to be applied without being asked for.
    pub fn is_auto_apply_eligible(self) -> (result: bool)
        ensures
            result == self.eligible(),
    {
        match self {
            MatchConfidence::Exact => true,
            MatchConfidence::High => true,
            _ => false,
        }
    }

    /// Where it stands among candidates, the highest first.
    pub open spec fn standing(self) -> int {
        match self {
            MatchConfidence::Exact => 5,
            MatchConfidence::High => 4,
            MatchConfidence::Ambiguous => 3,
            MatchConfidence::Partial => 2,
            MatchConfidence::Unmatched => 1,
        }
    }

    fn rank(self) -> (result: u8)
        ensures
            result == self.standing(),
    {
        match self {
            MatchConfidence::Exact => 5,
            MatchConfidence::High => 4,
            MatchConfidence::Ambiguous => 3,
            MatchConfidence::Partial => 2,
            MatchConfidence::Unmatched => 1,
        }
    }
}

/// How a profile fits the connected monitors.
#[derive(Debug, PartialEq, Eq)]
pub struct ProfileMatch {
    pub profile_name: String,
    pub confidence: MatchConfidence,
    pub score: i32,
    pub matched_monitors: usize,
    pub profile_monitors: usize,
    pub current_monitors: usize,
    pub reasons: Vec<String>,
}

/// What a [`ProfileMatch`] holds.
#[verifier::ext_equal]
pub struct ProfileMatchView {
    pub profile_name: Seq<char>,
    pub confidence: MatchConfidence,
    pub score: int,
    pub matched_monitors: int,
    pub profile_monitors: int,
    pub current_monitors: int,
    pub reasons: Seq<Seq<char>>,
}

impl View for ProfileMatch {
    type V = ProfileMatchView;

    open spec fn view(&self) -> ProfileMatchView {
        ProfileMatchView {
            profile_name: self.profile_name@,
            confidence: self.confidence,
            score: self.score as int,
            matched_monitors: self.matched_monitors as int,
            profile_monitors: self.profile_monitors as int,
            current_monitors: self.current_monitors as int,
            reasons: text::texts(self.reasons@),
        }
    }
}

impl Clone for ProfileMatch {
    fn clone(&self) -> (result: Self)
        ensures
            result@ == self@,
    {
        ProfileMatch {
            profile_name: self.profile_name.clone(),
            confidence: self.confidence,
            score: self.score,
            matched_monitors: self.matched_monitors,
            profile_monitors: self.profile_monitors,
            current_monitors: self.current_monitors,
            reasons: text::copied(&self.reasons),
        }
    }
}

/// How many of the first `n` have a partner.
pub open spec fn matched_count(found: Seq<Option<ResolvedView>>, n: int) -> int
    decreases n,
{
    if n <= 0 {
        0
    } else {
        matched_count(found, n - 1) + (if found[n - 1] is Some {
            1int
        } else {
            0int
        })
    }
}

/// The scores of the first `n` added up.
pub open spec fn score_sum(found: Seq<Option<ResolvedView>>, n: int) -> int
    decreases n,
{
    if n <= 0 {
        0
    } else {
        score_sum(found, n - 1) + (match found[n - 1] {
            Some(pair) => pair.score,
            None => 0,
        })
    }
}

/// Some partner could as well have been another.
pub open spec fn any_ambiguous(found: Seq<Option<ResolvedView>>) -> bool {
    exists|i: int| 0 <= i < found.len() && (#[trigger] found[i] matches Some(pair) && pair.ambiguous)
}

/// Every remembered monitor has a partner of at least `least` points.
pub open spec fn all_score(found: Seq<Option<ResolvedView>>, least: int) -> bool {
    forall|i: int|
        0 <= i < found.len() ==> (#[trigger] found[i] matches Some(pair) && pair.score >= least)
}

/// How far a profile with these partners fits `connected` monitors.
pub open spec fn confidence_of(found: Seq<Option<ResolvedView>>, connected: int) -> MatchConfidence {
    if matched_count(found, found.len() as int) == 0 {
        MatchConfidence::Unmatched
    } else if any_ambiguous(found) {
        MatchConfidence::Ambiguous
    } else if found.len() == connected && all_score(found, EXACT_ID_SCORE as int) {
        MatchConfidence::Exact
    } else if found.len() == connected && all_score(found, HIGH_CONFIDENCE_PAIR_SCORE as int) {
        MatchConfidence::High
    } else {
        MatchConfidence::Partial
    }
}

/// What a remembered monitor is called.
pub open spec fn monitor_label(saved: ProfileMonitorView) -> Seq<char> {
    if monitor::informative(saved.name_hint) {
        text::sanitized(saved.name_hint, false)
    } else {
        text::sanitized(saved.id, false)
    }
}

/// What is said of a remembered monitor.
pub open spec fn pair_reason(
    saved: ProfileMonitorView,
    current: Seq<MonitorView>,
    found: Option<ResolvedView>,
) -> Seq<char> {
    match found {
        None => monitor_label(saved) + " did not match any current monitor"@,
        Some(pair) => monitor_label(saved) + " matched "@ + text::sanitized(
            current[pair.current_index].output_name,
            false,
        ) + " by "@ + pair.reason,
    }
}

/// What is said of the match as a whole.
pub open spec fn summary_reason(
    confidence: MatchConfidence,
    matched: int,
    monitors: int,
) -> Seq<char> {
    let ratio = text::int_text(matched) + "/"@ + text::int_text(monitors);
    match confidence {
        MatchConfidence::Exact => ratio + " monitor identities matched exactly"@,
        MatchConfidence::High => ratio + " monitor identities matched with high confidence"@,
        MatchConfidence::Partial => ratio
            + " profile monitors matched; automatic apply is not eligible"@,
        MatchConfidence::Ambiguous =>
            "multiple current monitors matched equally; automatic apply is not eligible"@,
        MatchConfidence::Unmatched => "no monitor identities matched"@,
    }
}

/// How `profile` fits `current`, going by the partners `found`.
pub open spec fn match_with(
    profile: ProfileView,
    current: Seq<MonitorView>,
    found: Seq<Option<ResolvedView>>,
) -> ProfileMatchView {
    let matched = matched_count(found, found.len() as int);
    let confidence = confidence_of(found, current.len() as int);
    ProfileMatchView {
        profile_name: profile.name,
        confidence,
        score: score_sum(found, found.len() as int),
        matched_monitors: matched,
        profile_monitors: profile.monitors.len() as int,
        current_monitors: current.len() as int,
        reasons: seq![summary_reason(confidence, matched, profile.monitors.len() as int)]
            + Seq::new(
            profile.monitors.len(),
            |i: int| pair_reason(profile.monitors[i], current, found[i]),
        ),
    }
}

/// `m` is how `profile` fits `current` by some best pairing.
pub open spec fn is_match(
    m: ProfileMatchView,
    profile: ProfileView,
    current: Seq<MonitorView>,
) -> bool {
    exists|a: Seq<usize>| #[trigger]
        best_pairing(profile.monitors, current, MonitorMatchMode::Automatic, a) && m == match_with(
            profile,
            current,
            partners(profile.monitors, current, MonitorMatchMode::Automatic, a),
        )
}

/// So many remembered and connected monitors can be counted and scored.
pub open spec fn countable(saved: nat, connected: nat) -> bool {
    saved + connected < usize::MAX && 100 * saved <= i32::MAX
}

fn profile_monitor_label(profile_monitor: &ProfileMonitor) -> (result: String)
    ensures
        result@ == monitor_label(profile_monitor@),
{
    if monitor::useful(profile_monitor.name_hint.as_str()) {
        text::sanitize_terminal_text(profile_monitor.name_hint.as_str())
    } else {
        text::sanitize_terminal_text(profile_monitor.id.as_str())
    }
}

fn reason_for(
    profile_monitor: &ProfileMonitor,
    current: &Vec<MonitorState>,
    found: &Option<ResolvedMonitorMatch>,
) -> (result: String)
    requires
        *found matches Some(pair) ==> pair.current_index < current@.len(),
    ensures
        result@ == pair_reason(profile_monitor@, monitor::views(current@), resolved_view(*found)),
{
    match found {
        None => profile_monitor_label(profile_monitor).concat(
            " did not match any current monitor",
        ),
        Some(pair) => {
            assert(monitor::views(current@)[pair.current_index as int]
                == current@[pair.current_index as int]@);
            profile_monitor_label(profile_monitor).concat(" matched ").concat(
                text::sanitize_terminal_text(
                    current[pair.current_index].output_name.as_str(),
                ).as_str(),
            ).concat(" by ").concat(pair.reason)
        },
    }
}

fn summary_for(confidence: MatchConfidence, matched: usize, monitors: usize) -> (result: String)
    ensures
        result@ == summary_reason(confidence, matched as int, monitors as int),
{
    let ratio: String = text::decimal(matched as i128).concat("/").concat(
        text::decimal(monitors as i128).as_str(),
    );
    match confidence {
        MatchConfidence::Exact => ratio.concat(" monitor identities matched exactly"),
        MatchConfidence::High => ratio.concat(
            " monitor identities matched with high confidence",
        ),
        MatchConfidence::Partial => ratio.concat(
            " profile monitors matched; automatic apply is not eligible",
        ),
        MatchConfidence::Ambiguous =>
            "multiple current monitors matched equally; automatic apply is not eligible".to_owned(),
        MatchConfidence::Unmatched => "no monitor identities matched".to_owned(),
    }
}

/// How `profile` fits the connected monitors.
#[verifier::spinoff_prover]
#[verifier::rlimit(80)]
pub fn match_profile(profile: &Profile, current: &Vec<MonitorState>) -> (result: ProfileMatch)
    requires
        countable(profile@.monitors.len(), current@.len()),
    ensures
        is_match(result@, profile@, monitor::views(current@)),
{
    let resolved: Vec<Option<ResolvedMonitorMatch>> = resolve_monitor_matches(
        &profile.monitors,
        current,
    );
    let ghost saved = profile@.monitors;
    let ghost connected = monitor::views(current@);
    let ghost a = choose|a: Seq<usize>|
        #![trigger best_pairing(saved, connected, MonitorMatchMode::Automatic, a)]
        best_pairing(saved, connected, MonitorMatchMode::Automatic, a) && resolved_views(resolved@)
            == partners(saved, connected, MonitorMatchMode::Automatic, a);
    let ghost found = partners(saved, connected, MonitorMatchMode::Automatic, a);
    let count: usize = profile.monitors.len();
    let same_size: bool = count == current.len();
    let mut score: i32 = 0;
    let mut matched: usize = 0;
    let mut ambiguous: bool = false;
    let mut all_exact: bool = same_size;
    let mut all_high: bool = same_size;
    let mut reasons: Vec<String> = Vec::new();
    let ghost expected = Seq::new(saved.len(), |i: int| pair_reason(saved[i], connected, found[i]));
    let mut i: usize = 0;
    assert(resolved@.len() == resolved_views(resolved@).len());
    while i < count
        invariant
            i <= count == profile.monitors@.len() == saved.len() == found.len() == resolved@.len(),
            saved == profile@.monitors,
            connected == monitor::views(current@),
            100 * count <= i32::MAX,
            found == partners(saved, connected, MonitorMatchMode::Automatic, a),
            resolved_views(resolved@) == found,
            expected == Seq::new(
                saved.len(),
                |i: int| pair_reason(saved[i], connected, found[i]),
            ),
            0 <= score <= 100 * i,
            score == score_sum(found, i as int),
            matched <= i,
            matched == matched_count(found, i as int),
            ambiguous == exists|k: int|
                0 <= k < i && (#[trigger] found[k] matches Some(pair) && pair.ambiguous),
            all_exact == (same_size && forall|k: int|
                0 <= k < i ==> (#[trigger] found[k] matches Some(pair) && pair.score
                    >= EXACT_ID_SCORE)),
            all_high == (same_size && forall|k: int|
                0 <= k < i ==> (#[trigger] found[k] matches Some(pair) && pair.score
                    >= HIGH_CONFIDENCE_PAIR_SCORE)),
            text::texts(reasons@) == expected.take(i as int),
        decreases count - i,
    {
        let ghost before = reasons@;
        assert(found[i as int] == resolved_view(resolved@[i as int]));
        assert(saved[i as int] == profile.monitors@[i as int]@);
        reasons.push(reason_for(&profile.monitors[i], current, &resolved[i]));
        assert(text::texts(reasons@) =~= text::texts(before).push(expected[i as int]));
        assert(text::texts(reasons@) =~= expected.take(i + 1));
        match &resolved[i] {
            None => {
                all_exact = false;
                all_high = false;
            },
            Some(pair) => {
                ambiguous = ambiguous || pair.ambiguous;
                score = score + pair.score;
                matched = matched + 1;
                all_exact = all_exact && pair.score == EXACT_ID_SCORE;
                all_high = all_high && pair.score >= HIGH_CONFIDENCE_PAIR_SCORE;
            },
        }
        i += 1;
    }
    assert(expected.take(count as int) =~= expected);
    let confidence: MatchConfidence = if matched == 0 {
        MatchConfidence::Unmatched
    } else if ambiguous {
        MatchConfidence::Ambiguous
    } else if all_exact {
        MatchConfidence::Exact
    } else if all_high {
        MatchConfidence::High
    } else {
        MatchConfidence::Partial
    };
    assert(confidence == confidence_of(found, connected.len() as int));
    let mut summary: Vec<String> = Vec::new();
    summary.push(summary_for(confidence, matched, count));
    let ghost head = summary@;
    let ghost tail = reasons@;
    summary.append(&mut reasons);
    assert(text::texts(summary@) =~= seq![
        summary_reason(confidence, matched as int, count as int),
    ] + expected) by {
        assert(text::texts(summary@) =~= text::texts(head) + text::texts(tail));
    }
    ProfileMatch {
        profile_name: profile.name.clone(),
        confidence,
        score,
        matched_monitors: matched,
        profile_monitors: count,
        current_monitors: current.len(),
        reasons: summary,
    }
}

// ---------------------------------------------------------------------------
// Choosing among profiles
// ---------------------------------------------------------------------------
impl Ranked for ProfileMatch {
    open spec fn ahead(a: ProfileMatchView, b: ProfileMatchView) -> bool {
        if a.confidence.standing() != b.confidence.standing() {
            a.confidence.standing() > b.confidence.standing()
        } else if a.score != b.score {
            a.score > b.score
        } else if a.matched_monitors != b.matched_monitors {
            a.matched_monitors > b.matched_monitors
        } else {
            text::precedes(a.profile_name, b.profile_name)
        }
    }

    fn is_ahead(&self, other: &Self) -> (result: bool) {
        let mine: u8 = self.confidence.rank();
        let theirs: u8 = other.confidence.rank();
        if mine != theirs {
            mine > theirs
        } else if self.score != other.score {
            self.score > other.score
        } else if self.matched_monitors != other.matched_monitors {
            self.matched_monitors > other.matched_monitors
        } else {
            text::comes_before(self.profile_name.as_str(), other.profile_name.as_str())
        }
    }
}

/// The profile that fits best, if one does.
#[derive(Debug, PartialEq, Eq)]
pub struct BestProfileMatch {
    pub selected: Option<ProfileMatch>,
    pub candidates: Vec<ProfileMatch>,
    pub ambiguous: bool,
}

/// What a [`BestProfileMatch`] holds.
#[verifier::ext_equal]
pub struct BestMatchView {
    pub selected: Option<ProfileMatchView>,
    pub candidates: Seq<ProfileMatchView>,
    pub ambiguous: bool,
}

impl View for BestProfileMatch {
    type V = BestMatchView;

    open spec fn view(&self) -> BestMatchView {
        BestMatchView {
            selected: match self.selected {
                Some(selected) => Some(selected@),
                None => None,
            },
            candidates: sort::held(self.candidates@),
            ambiguous: self.ambiguous,
        }
    }
}

/// Nothing but the name tells two candidates apart.
pub open spec fn tie(left: ProfileMatchView, right: ProfileMatchView) -> bool {
    &&& left.confidence == right.confidence
    &&& left.score == right.score
    &&& left.matched_monitors == right.matched_monitors
    &&& left.confidence != MatchConfidence::Unmatched
}

/// The first of `candidates` is matched ambiguously, or not the only one that
/// fits as well.
pub open spec fn undecided(candidates: Seq<ProfileMatchView>) -> bool {
    &&& candidates.len() > 0
    &&& candidates[0].confidence == MatchConfidence::Ambiguous || exists|i: int|
        1 <= i < candidates.len() && tie(candidates[0], #[trigger] candidates[i])
}

/// The choice among `candidates`, which stand in order.
pub open spec fn best_of(candidates: Seq<ProfileMatchView>) -> BestMatchView {
    BestMatchView {
        selected: if undecided(candidates) || candidates.len() == 0
            || candidates[0].confidence == MatchConfidence::Unmatched {
            None
        } else {
            Some(candidates[0])
        },
        candidates,
        ambiguous: undecided(candidates),
    }
}

/// `matches` is how each of `profiles` fits `current`.
pub open spec fn are_matches(
    matches: Seq<ProfileMatchView>,
    profiles: Seq<ProfileView>,
    current: Seq<MonitorView>,
) -> bool {
    &&& matches.len() == profiles.len()
    &&& forall|k: int|
        0 <= k < profiles.len() ==> is_match(#[trigger] matches[k], profiles[k], current)
}

/// The monitors of each of `profiles` can be counted and scored.
pub open spec fn all_countable(profiles: Seq<ProfileView>, connected: nat) -> bool {
    forall|k: int|
        0 <= k < profiles.len() ==> countable((#[trigger] profiles[k]).monitors.len(), connected)
}

fn profile_tie(left: &ProfileMatch, right: &ProfileMatch) -> (result: bool)
    ensures
        result == tie(left@, right@),
{
    left.confidence == right.confidence && left.score == right.score && left.matched_monitors
        == right.matched_monitors && left.confidence != MatchConfidence::Unmatched
}

/// Chooses the profile that fits the connected monitors best.
pub fn best_profile_match(store: &ProfileStore, current: &Vec<MonitorState>) -> (result:
    BestProfileMatch)
    requires
        all_countable(store@, current@.len()),
    ensures
        exists|matches: Seq<ProfileMatchView>| #[trigger]
            are_matches(matches, store@, monitor::views(current@)) && result@ == best_of(
                sort::sorted::<ProfileMatch>(matches),
            ),
{
    let ghost connected = monitor::views(current@);
    let mut matches: Vec<ProfileMatch> = Vec::new();
    let mut k: usize = 0;
    while k < store.profiles.len()
        invariant
            k <= store.profiles@.len(),
            all_countable(store@, current@.len()),
            connected == monitor::views(current@),
            matches@.len() == k,
            forall|j: int|
                0 <= j < k ==> is_match(
                    #[trigger] sort::held(matches@)[j],
                    store@[j],
                    connected,
                ),
        decreases store.profiles@.len() - k,
    {
        let ghost before = matches@;
        assert(store@[k as int] == store.profiles@[k as int]@);
        matches.push(match_profile(&store.profiles[k], current));
        assert forall|j: int| 0 <= j < k + 1 implies is_match(
            #[trigger] sort::held(matches@)[j],
            store@[j],
            connected,
        ) by {
            if j < k {
                assert(sort::held(matches@)[j] == sort::held(before)[j]);
            }
        }
        k += 1;
    }
    let ghost plain = sort::held(matches@);
    assert(are_matches(plain, store@, connected));
    let candidates: Vec<ProfileMatch> = sort::sort(matches);
    let ghost ordered = sort::held(candidates@);
    let mut ambiguous: bool = false;
    let mut selected: Option<ProfileMatch> = None;
    if candidates.len() > 0 {
        let best: &ProfileMatch = &candidates[0];
        assert(ordered[0] == best@);
        if best.confidence == MatchConfidence::Ambiguous {
            ambiguous = true;
        }
        let mut i: usize = 1;
        while i < candidates.len()
            invariant
                1 <= i <= candidates@.len(),
                ordered == sort::held(candidates@),
                best@ == ordered[0],
                ambiguous == (best.confidence == MatchConfidence::Ambiguous || exists|j: int|
                    1 <= j < i && tie(ordered[0], #[trigger] ordered[j])),
            decreases candidates@.len() - i,
        {
            assert(ordered[i as int] == candidates@[i as int]@);
            if profile_tie(best, &candidates[i]) {
                ambiguous = true;
            }
            i += 1;
        }
        if !ambiguous && best.confidence != MatchConfidence::Unmatched {
            selected = Some(best.clone());
        }
    }
    let result = BestProfileMatch { selected, candidates, ambiguous };
    assert(result@ =~= best_of(ordered));
    result
}

/// What is done about the connected monitors.
#[derive(Debug, PartialEq, Eq)]
pub enum AutoApplyDecision {
    Apply { profile_name: String, confidence: String, reason: String },
    Ambiguous { reason: String },
    MissingFallback { profile_name: String },
    NoProfiles,
    NotEligible { reason: String },
    NoMatch,
}

/// What an [`AutoApplyDecision`] holds.
pub enum DecisionView {
    Apply { profile_name: Seq<char>, confidence: Seq<char>, reason: Seq<char> },
    Ambiguous { reason: Seq<char> },
    MissingFallback { profile_name: Seq<char> },
    NoProfiles,
    NotEligible { reason: Seq<char> },
    NoMatch,
}

impl View for AutoApplyDecision {
    type V = DecisionView;

    open spec fn view(&self) -> DecisionView {
        match self {
            AutoApplyDecision::Apply { profile_name, confidence, reason } => DecisionView::Apply {
                profile_name: profile_name@,
                confidence: confidence@,
                reason: reason@,
            },
            AutoApplyDecision::Ambiguous { reason } => DecisionView::Ambiguous { reason: reason@ },
            AutoApplyDecision::MissingFallback { profile_name } => DecisionView::MissingFallback {
                profile_name: profile_name@,
            },
            AutoApplyDecision::NoProfiles => DecisionView::NoProfiles,
            AutoApplyDecision::NotEligible { reason } => DecisionView::NotEligible {
                reason: reason@,
            },
            AutoApplyDecision::NoMatch => DecisionView::NoMatch,
        }
    }
}

impl Clone for AutoApplyDecision {
    fn clone(&self) -> (result: Self)
        ensures
            result@ == self@,
    {
        match self {
            AutoApplyDecision::Apply { profile_name, confidence, reason } =>
                AutoApplyDecision::Apply {
                profile_name: profile_name.clone(),
                confidence: confidence.clone(),
                reason: reason.clone(),
            },
            AutoApplyDecision::Ambiguous { reason } => AutoApplyDecision::Ambiguous {
                reason: reason.clone(),
            },
            AutoApplyDecision::MissingFallback { profile_name } =>
                AutoApplyDecision::MissingFallback { profile_name: profile_name.clone() },
            AutoApplyDecision::NoProfiles => AutoApplyDecision::NoProfiles,
            AutoApplyDecision::NotEligible { reason } => AutoApplyDecision::NotEligible {
                reason: reason.clone(),
            },
            AutoApplyDecision::NoMatch => AutoApplyDecision::NoMatch,
        }
    }
}

impl DecisionView {
    /// The profile to be applied.
    pub open spec fn profile_name(self) -> Option<Seq<char>> {
        match self {
            DecisionView::Apply { profile_name, .. } => Some(profile_name),
            _ => None,
        }
    }
}

impl AutoApplyDecision {
    /// The profile to be applied.
    pub fn profile_name(&self) -> (result: Option<&str>)
        ensures
            match result {
                Some(name) => self@.profile_name() == Some(name@),
                None => self@.profile_name() is None,
            },
    {
        match self {
            AutoApplyDecision::Apply { profile_name, .. } => Some(profile_name.as_str()),
            _ => None,
        }
    }
}

/// The first of `reasons`, or `fallback`.
pub open spec fn leading_reason(reasons: Seq<Seq<char>>, fallback: Seq<char>) -> Seq<char> {
    if reasons.len() > 0 {
        reasons[0]
    } else {
        fallback
    }
}

/// `fallback` without surrounding whitespace, unless nothing is left of it.
pub open spec fn named_fallback(fallback: Option<Seq<char>>) -> Option<Seq<char>> {
    match fallback {
        Some(name) if text::trimmed(name).len() > 0 => Some(text::trimmed(name)),
        _ => None,
    }
}

/// `decided` is what is done where `current` is connected.
pub open spec fn is_decision(
    decided: DecisionView,
    profiles: Seq<ProfileView>,
    current: Seq<MonitorView>,
    fallback: Option<Seq<char>>,
) -> bool {
    exists|matches: Seq<ProfileMatchView>| #[trigger]
        are_matches(matches, profiles, current) && decided == decision(
            profiles,
            best_of(sort::sorted::<ProfileMatch>(matches)),
            fallback,
        )
}

/// What is done: the best profile is applied where it is good enough; else,
/// unless the match is ambiguous, the fallback profile is.
pub open spec fn decision(
    profiles: Seq<ProfileView>,
    best: BestMatchView,
    fallback: Option<Seq<char>>,
) -> DecisionView {
    if profiles.len() == 0 {
        DecisionView::NoProfiles
    } else if best.selected matches Some(selected) && selected.confidence.eligible() {
        let selected = best.selected->0;
        DecisionView::Apply {
            profile_name: selected.profile_name,
            confidence: selected.confidence.word(),
            reason: leading_reason(selected.reasons, "profile matched"@),
        }
    } else if best.ambiguous {
        DecisionView::Ambiguous {
            reason: if best.candidates.len() > 0 {
                leading_reason(
                    best.candidates[0].reasons,
                    "multiple profiles or monitors matched equally"@,
                )
            } else {
                "multiple profiles or monitors matched equally"@
            },
        }
    } else {
        match named_fallback(fallback) {
            Some(name) => if store::has_name(profiles, name) {
                DecisionView::Apply {
                    profile_name: name,
                    confidence: "fallback"@,
                    reason:
                        "no exact or high-confidence match; fallback_profile is configured"@,
                }
            } else {
                DecisionView::MissingFallback { profile_name: name }
            },
            None => match best.selected {
                Some(selected) => DecisionView::NotEligible {
                    reason: leading_reason(
                        selected.reasons,
                        "profile match is not eligible for automatic apply"@,
                    ),
                },
                None => DecisionView::NoMatch,
            },
        }
    }
}

fn first_reason(reasons: &Vec<String>, fallback: &str) -> (result: String)
    ensures
        result@ == leading_reason(text::texts(reasons@), fallback@),
{
    if reasons.len() > 0 {
        assert(text::texts(reasons@)[0] == reasons@[0]@);
        reasons[0].clone()
    } else {
        fallback.to_owned()
    }
}

fn best_ambiguous_reason(best_match: &BestProfileMatch) -> (result: String)
    ensures
        result@ == (if best_match@.candidates.len() > 0 {
            leading_reason(
                best_match@.candidates[0].reasons,
                "multiple profiles or monitors matched equally"@,
            )
        } else {
            "multiple profiles or monitors matched equally"@
        }),
{
    if best_match.candidates.len() > 0 {
        assert(best_match@.candidates[0] == best_match.candidates@[0]@);
        first_reason(
            &best_match.candidates[0].reasons,
            "multiple profiles or monitors matched equally",
        )
    } else {
        "multiple profiles or monitors matched equally".to_owned()
    }
}

/// Decides what is done about the connected monitors.
pub fn decide_auto_apply(
    store: &ProfileStore,
    best_match: &BestProfileMatch,
    fallback_profile: Option<&str>,
) -> (result: AutoApplyDecision)
    ensures
        result@ == decision(
            store@,
            best_match@,
            match fallback_profile {
                Some(name) => Some(name@),
                None => None,
            },
        ),
{
    if store.profiles.len() == 0 {
        return AutoApplyDecision::NoProfiles;
    }
    match &best_match.selected {
        Some(selected) => {
            if selected.confidence.is_auto_apply_eligible() {
                return AutoApplyDecision::Apply {
                    profile_name: selected.profile_name.clone(),
                    confidence: selected.confidence.as_str().to_owned(),
                    reason: first_reason(&selected.reasons, "profile matched"),
                };
            }
        },
        None => {},
    }
    if best_match.ambiguous {
        return AutoApplyDecision::Ambiguous { reason: best_ambiguous_reason(best_match) };
    }
    match fallback_profile {
        Some(fallback) => {
            let name: &str = text::trim(fallback);
            if name.unicode_len() > 0 {
                return if store.has_profile(name) {
                    AutoApplyDecision::Apply {
                        profile_name: name.to_owned(),
                        confidence: "fallback".to_owned(),
                        reason:
                            "no exact or high-confidence match; fallback_profile is configured".to_owned(),
                    }
                } else {
                    AutoApplyDecision::MissingFallback { profile_name: name.to_owned() }
                };
            }
        },
        None => {},
    }
    match &best_match.selected {
        Some(selected) => AutoApplyDecision::NotEligible {
            reason: first_reason(
                &selected.reasons,
                "profile match is not eligible for automatic apply",
            ),
        },
        None => AutoApplyDecision::NoMatch,
    }
}

/// The decision in three lines, the profile behind `label`.
pub open spec fn decision_text(decided: DecisionView, label: Seq<char>) -> Seq<char> {
    match decided {
        DecisionView::Apply { profile_name, confidence, reason } => label + ": "@ + profile_name
            + "\nConfidence: "@ + confidence + "\nReason: "@ + reason,
        DecisionView::Ambiguous { reason } => label
            + ": ambiguous\nConfidence: ambiguous\nReason: "@ + reason,
        DecisionView::MissingFallback { profile_name } => label
            + ": none\nConfidence: none\nReason: fallback_profile `"@ + profile_name
            + "` does not exist"@,
        DecisionView::NoProfiles => label
            + ": none\nConfidence: none\nReason: no profiles saved"@,
        DecisionView::NotEligible { reason } => label + ": none\nConfidence: none\nReason: "@
            + reason,
        DecisionView::NoMatch => label
            + ": none\nConfidence: none\nReason: no useful profile match"@,
    }
}

/// Tells the decision in three lines.
pub fn format_auto_apply_decision(decision: &AutoApplyDecision, profile_label: &str) -> (result:
    String)
    ensures
        result@ == decision_text(decision@, profile_label@),
{
    let label: String = profile_label.to_owned();
    match decision {
        AutoApplyDecision::Apply { profile_name, confidence, reason } => label.concat(": ").concat(
            profile_name.as_str(),
        ).concat("\nConfidence: ").concat(confidence.as_str()).concat("\nReason: ").concat(
            reason.as_str(),
        ),
        AutoApplyDecision::Ambiguous { reason } => label.concat(
            ": ambiguous\nConfidence: ambiguous\nReason: ",
        ).concat(reason.as_str()),
        AutoApplyDecision::MissingFallback { profile_name } => label.concat(
            ": none\nConfidence: none\nReason: fallback_profile `",
        ).concat(profile_name.as_str()).concat("` does not exist"),
        AutoApplyDecision::NoProfiles => label.concat(
            ": none\nConfidence: none\nReason: no profiles saved",
        ),
        AutoApplyDecision::NotEligible { reason } => label.concat(
            ": none\nConfidence: none\nReason: ",
        ).concat(reason.as_str()),
        AutoApplyDecision::NoMatch => label.concat(
            ": none\nConfidence: none\nReason: no useful profile match",
        ),
    }
}

} // verus!
