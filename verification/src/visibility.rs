//! Whether the mesh can see this node.
//!
//! A node that takes itself to be serving may be invisible to the entry node, and
//! then no request ever reaches it. An audit asks the entry node for its status
//! at a steady pace, looks for the own node id in it, and escalates when the node
//! stays unseen: first by joining again, then by asking to be restarted.

use vstd::prelude::*;
use vstd::utf8::{decode_utf8, encode_utf8, is_char_boundary};

use crate::clock::current_unix_secs;
use crate::json::{
    field_trees, object, opt_number_tree, opt_number_value, opt_text_tree, opt_text_value,
    push_field, text_list_tree, text_list_value, Json, JsonTree,
};
use crate::text::{
    copy_texts, decimal, decimal_text, opt_text, same_text, texts, trim_end_char, without_trailing,
};

verus! {

/// Seconds between two probes.
pub const AUDIT_INTERVAL_SECS: u64 = 30;

/// Seconds before the first probe.
pub const INITIAL_DELAY_SECS: u64 = 15;

/// Hard cap on a single probe, in seconds.
pub const PROBE_TIMEOUT_SECS: u64 = 8;

/// Failed probes in a row before a soft reconnect.
pub const SOFT_RECONNECT_THRESHOLD: u32 = 3;

/// Failed probes in a row before a hard reset.
pub const HARD_RESET_THRESHOLD: u32 = 8;

/// Time between two soft reconnects: a minute.
pub const SOFT_RECONNECT_COOLDOWN_NANOS: u128 = 60_000_000_000;

/// Time between two hard resets: five minutes.
pub const HARD_RESET_COOLDOWN_NANOS: u128 = 300_000_000_000;

/// The exit code that asks the supervisor for a restart.
pub const RESTART_EXIT_CODE: u8 = 75;

/// The longest error text that is reported, in bytes.
pub const REPORTED_ERROR_BYTES: usize = 1024;

/// The outcome of one probe.
#[derive(Debug, Clone, Copy, PartialEq, Eq, Structural)]
pub enum MeshVisibilityState {
    /// No probe has run yet.
    Unknown,
    /// The entry node lists this node, or is this node.
    Visible,
    /// The entry node answered and does not list this node.
    Invisible,
    /// The entry node could not be reached.
    EntryUnreachable,
}

impl MeshVisibilityState {
    /// The states that count towards escalation.
    pub open spec fn is_failure(self) -> bool {
        self == MeshVisibilityState::Invisible || self == MeshVisibilityState::EntryUnreachable
    }

    /// Whether the state counts towards escalation.
    pub fn counts_as_invisible(self) -> (r: bool)
        ensures
            r == self.is_failure(),
    {
        match self {
            MeshVisibilityState::Invisible | MeshVisibilityState::EntryUnreachable => true,
            _ => false,
        }
    }

    /// The word for the state.
    pub open spec fn word(self) -> Seq<char> {
        match self {
            MeshVisibilityState::Unknown => "unknown"@,
            MeshVisibilityState::Visible => "visible"@,
            MeshVisibilityState::Invisible => "invisible"@,
            MeshVisibilityState::EntryUnreachable => "entry_unreachable"@,
        }
    }

    /// The word under which the state is reported.
    pub fn label(self) -> (r: &'static str)
        ensures
            r@ == self.word(),
    {
        match self {
            MeshVisibilityState::Unknown => "unknown",
            MeshVisibilityState::Visible => "visible",
            MeshVisibilityState::Invisible => "invisible",
            MeshVisibilityState::EntryUnreachable => "entry_unreachable",
        }
    }
}

/// What the audit knows, for everyone to read.
#[derive(Debug, Clone)]
pub struct MeshVisibilitySnapshot {
    pub state: MeshVisibilityState,
    /// Time of the last probe, in Unix seconds.
    pub last_check_unix: Option<u64>,
    /// Time of the last probe that found the node visible.
    pub last_visible_unix: Option<u64>,
    /// Failed probes since the last successful one.
    pub consecutive_invisible_count: u32,
    /// Why the last probe failed.
    pub last_error: Option<String>,
    pub entry_url: String,
    /// A soft reconnect was tried since the node was last visible.
    pub soft_reconnect_triggered: bool,
    /// A hard reset was decided on since the node was last visible.
    pub hard_reset_triggered: bool,
}

impl MeshVisibilitySnapshot {
    /// The snapshot before the first probe.
    pub fn new(entry_url: String) -> (s: MeshVisibilitySnapshot)
        ensures
            s.state == MeshVisibilityState::Unknown,
            s.last_check_unix is None,
            s.last_visible_unix is None,
            s.consecutive_invisible_count == 0,
            s.last_error is None,
            s.entry_url@ == entry_url@,
            !s.soft_reconnect_triggered,
            !s.hard_reset_triggered,
    {
        MeshVisibilitySnapshot {
            state: MeshVisibilityState::Unknown,
            last_check_unix: None,
            last_visible_unix: None,
            consecutive_invisible_count: 0,
            last_error: None,
            entry_url,
            soft_reconnect_triggered: false,
            hard_reset_triggered: false,
        }
    }
}

/// Where and as whom the node reports its snapshot.
#[derive(Debug, Clone)]
pub struct PeerReportConfig {
    /// Base address of the receiving site.
    pub url: String,
    pub hostname: Option<String>,
    pub version: Option<String>,
}

/// What one probe found.
#[derive(Debug)]
pub struct ProbeOutcome {
    pub state: MeshVisibilityState,
    pub error: Option<String>,
    /// The join token that the entry node advertises.
    pub fresh_token: Option<String>,
}

/// What came back from the entry node.
pub enum EntryReply {
    /// No client could be built.
    NoClient { error: String },
    /// The request failed.
    NoAnswer { error: String },
    /// The answer was not a success.
    Refused { status: String },
    /// The answer was no document.
    NotJson { error: String },
    /// The entry node's status.
    Document { body: Json },
}

/// The address of an endpoint below a base address.
pub open spec fn endpoint_text(base: Seq<char>, path: Seq<char>) -> Seq<char> {
    without_trailing(base, '/') + path
}

/// The address of the entry node's status.
pub fn status_endpoint(entry_url: &str) -> (r: String)
    ensures
        r@ == endpoint_text(entry_url@, "/api/status"@),
{
    trim_end_char(entry_url, '/').concat("/api/status")
}

/// The address to which reports go.
pub fn report_endpoint(base: &str) -> (r: String)
    ensures
        r@ == endpoint_text(base@, "/api/peer-report"@),
{
    trim_end_char(base, '/').concat("/api/peer-report")
}

/// A text field of a document.
pub open spec fn text_field(body: JsonTree, key: Seq<char>) -> Option<Seq<char>> {
    match body.field(key) {
        Some(value) => value.text(),
        None => None,
    }
}

/// The peers that a status lists.
pub open spec fn listed_peers(body: JsonTree) -> Seq<JsonTree> {
    match body.field("peers"@) {
        Some(value) => match value.items() {
            Some(items) => items,
            None => Seq::empty(),
        },
        None => Seq::empty(),
    }
}

/// The entry node's id, empty if the status names none.
pub open spec fn entry_id(body: JsonTree) -> Seq<char> {
    match text_field(body, "node_id"@) {
        Some(id) => id,
        None => Seq::empty(),
    }
}

/// The status shows the node: as the entry node itself or as one of its peers.
pub open spec fn shows_node(body: JsonTree, my_id: Seq<char>) -> bool {
    entry_id(body) == my_id || exists|i: int|
        0 <= i < listed_peers(body).len() && text_field(#[trigger] listed_peers(body)[i], "id"@)
            == Some(my_id)
}

/// What a status that does not show the node is reported as.
pub open spec fn unlisted_error(peers: nat, my_id: Seq<char>) -> Seq<char> {
    "Entry returned "@ + decimal(peers) + " peer(s) but my node_id "@ + my_id
        + " is not among them"@
}

/// The outcome that a reply amounts to.
pub open spec fn is_probe_outcome(
    outcome: ProbeOutcome,
    reply: EntryReply,
    entry_url: Seq<char>,
    my_id: Seq<char>,
) -> bool {
    match reply {
        EntryReply::Document { body } => {
            &&& opt_text(outcome.fresh_token) == text_field(body.tree(), "token"@)
            &&& if shows_node(body.tree(), my_id) {
                outcome.state == MeshVisibilityState::Visible && outcome.error is None
            } else {
                &&& outcome.state == MeshVisibilityState::Invisible
                &&& opt_text(outcome.error) == Some(
                    unlisted_error(listed_peers(body.tree()).len(), my_id),
                )
            }
        },
        _ => {
            &&& outcome.state == MeshVisibilityState::EntryUnreachable
            &&& outcome.fresh_token is None
            &&& opt_text(outcome.error) == Some(
                match reply {
                    EntryReply::NoClient { error } => "Failed to build http client: "@ + error@,
                    EntryReply::NoAnswer { error } => "Probe to "@ + endpoint_text(
                        entry_url,
                        "/api/status"@,
                    ) + " failed: "@ + error@,
                    EntryReply::Refused { status } => "Probe returned HTTP "@ + status@,
                    EntryReply::NotJson { error } => "Probe response was not JSON: "@ + error@,
                    EntryReply::Document { .. } => Seq::empty(),
                },
            )
        },
    }
}

/// Whether one of the listed peers has the id.
fn lists_peer(peers: &Vec<Json>, my_id: &str) -> (r: bool)
    ensures
        r == exists|i: int|
            0 <= i < peers@.len() && text_field((#[trigger] peers@[i]).tree(), "id"@) == Some(
                my_id@,
            ),
{
    let mut i: usize = 0;
    while i < peers.len()
        invariant
            i <= peers.len(),
            forall|j: int|
                0 <= j < i ==> text_field((#[trigger] peers@[j]).tree(), "id"@) != Some(my_id@),
        decreases peers.len() - i,
    {
        if let Some(id) = peers[i].get("id") {
            if let Some(id) = id.as_text() {
                if same_text(id, my_id) {
                    assert(text_field(peers@[i as int].tree(), "id"@) == Some(my_id@));
                    return true;
                }
            }
        }
        i = i + 1;
    }
    false
}

/// Reads the token that a status advertises.
pub fn advertised_token(body: &Json) -> (r: Option<String>)
    ensures
        opt_text(r) == text_field(body.tree(), "token"@),
{
    match body.get("token") {
        Some(token) => match token.as_text() {
            Some(text) => Some(text.to_owned()),
            None => None,
        },
        None => None,
    }
}

/// Judges the entry node's reply to a probe.
pub fn judge_reply(reply: &EntryReply, entry_url: &str, my_id: &str) -> (outcome: ProbeOutcome)
    ensures
        is_probe_outcome(outcome, *reply, entry_url@, my_id@),
{
    let error = match reply {
        EntryReply::NoClient { error } => "Failed to build http client: ".to_owned().concat(
            error.as_str(),
        ),
        EntryReply::NoAnswer { error } => "Probe to ".to_owned().concat(
            status_endpoint(entry_url).as_str(),
        ).concat(" failed: ").concat(error.as_str()),
        EntryReply::Refused { status } => "Probe returned HTTP ".to_owned().concat(
            status.as_str(),
        ),
        EntryReply::NotJson { error } => "Probe response was not JSON: ".to_owned().concat(
            error.as_str(),
        ),
        EntryReply::Document { body } => return judge_status(body, my_id),
    };
    ProbeOutcome {
        state: MeshVisibilityState::EntryUnreachable,
        error: Some(error),
        fresh_token: None,
    }
}

/// Judges the entry node's status.
fn judge_status(body: &Json, my_id: &str) -> (outcome: ProbeOutcome)
    ensures
        is_probe_outcome(
            outcome,
            EntryReply::Document { body: *body },
            Seq::empty(),
            my_id@,
        ),
{
    let fresh_token = advertised_token(body);
    let is_entry = match body.get("node_id") {
        Some(id) => match id.as_text() {
            Some(id) => same_text(id, my_id),
            None => my_id.is_empty(),
        },
        None => my_id.is_empty(),
    };
    assert(is_entry == (entry_id(body.tree()) == my_id@)) by {
        assert(my_id@.len() == 0 ==> my_id@ =~= Seq::empty());
    }
    if is_entry {
        return ProbeOutcome { state: MeshVisibilityState::Visible, error: None, fresh_token };
    }
    let ghost listed = listed_peers(body.tree());
    let mut count: usize = 0;
    let mut found = false;
    match body.get("peers") {
        Some(Json::Array(peers)) => {
            proof {
                assert(listed.len() == peers@.len());
                assert forall|i: int| 0 <= i < listed.len() implies #[trigger] listed[i]
                    == peers@[i].tree() by {}
            }
            count = peers.len();
            found = lists_peer(peers, my_id);
            proof {
                if found {
                    let i = choose|i: int|
                        0 <= i < peers@.len() && text_field((#[trigger] peers@[i]).tree(), "id"@)
                            == Some(my_id@);
                    assert(text_field(listed[i], "id"@) == Some(my_id@));
                } else {
                    assert forall|i: int| 0 <= i < listed.len() implies text_field(
                        #[trigger] listed[i],
                        "id"@,
                    ) != Some(my_id@) by {
                        assert(text_field(peers@[i].tree(), "id"@) != Some(my_id@));
                    }
                }
            }
        },
        _ => {},
    }
    if found {
        ProbeOutcome { state: MeshVisibilityState::Visible, error: None, fresh_token }
    } else {
        let error = "Entry returned ".to_owned().concat(
            decimal_text(count as u128).as_str(),
        ).concat(" peer(s) but my node_id ").concat(my_id).concat(" is not among them");
        ProbeOutcome { state: MeshVisibilityState::Invisible, error: Some(error), fresh_token }
    }
}

/// The failed probes in a row after one more probe.
pub open spec fn next_count(count: u32, state: MeshVisibilityState) -> u32 {
    match state {
        MeshVisibilityState::Visible => 0,
        MeshVisibilityState::Unknown => count,
        _ => if count < u32::MAX {
            (count + 1) as u32
        } else {
            count
        },
    }
}

/// The snapshot after one more probe.
pub open spec fn is_updated(
    after: MeshVisibilitySnapshot,
    before: MeshVisibilitySnapshot,
    outcome: ProbeOutcome,
    now: u64,
) -> bool {
    &&& after.state == outcome.state
    &&& after.last_check_unix == Some(now)
    &&& after.entry_url == before.entry_url
    &&& after.consecutive_invisible_count == next_count(
        before.consecutive_invisible_count,
        outcome.state,
    )
    &&& match outcome.state {
        MeshVisibilityState::Visible => {
            &&& after.last_visible_unix == Some(now)
            &&& after.last_error is None
            &&& !after.soft_reconnect_triggered
            &&& !after.hard_reset_triggered
        },
        MeshVisibilityState::Unknown => {
            &&& after.last_visible_unix == before.last_visible_unix
            &&& after.last_error == before.last_error
            &&& after.soft_reconnect_triggered == before.soft_reconnect_triggered
            &&& after.hard_reset_triggered == before.hard_reset_triggered
        },
        _ => {
            &&& after.last_visible_unix == before.last_visible_unix
            &&& opt_text(after.last_error) == opt_text(outcome.error)
            &&& after.soft_reconnect_triggered == before.soft_reconnect_triggered
            &&& after.hard_reset_triggered == before.hard_reset_triggered
        },
    }
}

/// Records a probe that ended at the given time and returns the failed probes in
/// a row.
pub fn update_snapshot_at(snapshot: &mut MeshVisibilitySnapshot, outcome: &ProbeOutcome, now: u64) -> (
    count: u32)
    ensures
        is_updated(*final(snapshot), *old(snapshot), *outcome, now),
        count == final(snapshot).consecutive_invisible_count,
{
    snapshot.state = outcome.state;
    snapshot.last_check_unix = Some(now);
    match outcome.state {
        MeshVisibilityState::Visible => {
            snapshot.last_visible_unix = Some(now);
            snapshot.consecutive_invisible_count = 0;
            snapshot.last_error = None;
            snapshot.soft_reconnect_triggered = false;
            snapshot.hard_reset_triggered = false;
        },
        MeshVisibilityState::Invisible | MeshVisibilityState::EntryUnreachable => {
            snapshot.consecutive_invisible_count = snapshot.consecutive_invisible_count.saturating_add(
                1,
            );
            snapshot.last_error = crate::text::copy_opt(&outcome.error);
        },
        MeshVisibilityState::Unknown => {},
    }
    snapshot.consecutive_invisible_count
}

/// Records a probe that ended just now.
pub fn update_snapshot(snapshot: &mut MeshVisibilitySnapshot, outcome: &ProbeOutcome) -> (count:
    u32)
    ensures
        final(snapshot).last_check_unix is Some,
        is_updated(
            *final(snapshot),
            *old(snapshot),
            *outcome,
            final(snapshot).last_check_unix->0,
        ),
        count == final(snapshot).consecutive_invisible_count,
{
    update_snapshot_at(snapshot, outcome, current_unix_secs())
}

/// What the audit does after a probe.
#[derive(Debug, Clone, Copy, PartialEq, Eq, Structural)]
pub enum AuditAction {
    /// Wait for the next probe.
    Wait,
    /// Join the mesh again.
    SoftReconnect,
    /// Exit, to be started again.
    HardReset,
}

/// What the audit remembers between two probes. Times are nanoseconds of a clock
/// that never goes back.
#[derive(Debug)]
pub struct AuditMemory {
    pub last_soft_reconnect: Option<u128>,
    pub last_hard_reset: Option<u128>,
    /// The token that the entry node advertised last.
    pub cached_fresh_token: Option<String>,
}

/// Enough time has gone by since the last time, if there was one.
pub open spec fn cooled_down(last: Option<u128>, now: u128, cooldown: u128) -> bool {
    match last {
        Some(t) => now - t >= cooldown,
        None => true,
    }
}

/// A hard reset goes before a soft reconnect; each has its threshold and its
/// cooldown.
pub open spec fn escalation(
    count: u32,
    last_soft: Option<u128>,
    last_hard: Option<u128>,
    now: u128,
) -> AuditAction {
    if count >= HARD_RESET_THRESHOLD && cooled_down(last_hard, now, HARD_RESET_COOLDOWN_NANOS) {
        AuditAction::HardReset
    } else if count >= SOFT_RECONNECT_THRESHOLD && cooled_down(
        last_soft,
        now,
        SOFT_RECONNECT_COOLDOWN_NANOS,
    ) {
        AuditAction::SoftReconnect
    } else {
        AuditAction::Wait
    }
}

/// What the audit decides by: the failed probes in a row, and when it last acted.
pub struct AuditView {
    pub failures: u32,
    pub last_soft: Option<u128>,
    pub last_hard: Option<u128>,
}

/// What the audit decides by, out of its memory and the snapshot.
pub open spec fn audit_view(memory: AuditMemory, snapshot: MeshVisibilitySnapshot) -> AuditView {
    AuditView {
        failures: snapshot.consecutive_invisible_count,
        last_soft: memory.last_soft_reconnect,
        last_hard: memory.last_hard_reset,
    }
}

/// What the audit does after a probe.
pub open spec fn next_action(v: AuditView, state: MeshVisibilityState, now: u128) -> AuditAction {
    escalation(next_count(v.failures, state), v.last_soft, v.last_hard, now)
}

/// What the audit decides by after a probe.
pub open spec fn after_probe(v: AuditView, state: MeshVisibilityState, now: u128) -> AuditView {
    let action = next_action(v, state, now);
    AuditView {
        failures: next_count(v.failures, state),
        last_soft: if action == AuditAction::SoftReconnect {
            Some(now)
        } else {
            v.last_soft
        },
        last_hard: if action == AuditAction::HardReset {
            Some(now)
        } else {
            v.last_hard
        },
    }
}

/// What the audit decides by after a run of probes, each with its time.
pub open spec fn after_probes(
    v: AuditView,
    probes: Seq<(MeshVisibilityState, u128)>,
) -> AuditView
    decreases probes.len(),
{
    if probes.len() == 0 {
        v
    } else {
        after_probe(after_probes(v, probes.drop_last()), probes.last().0, probes.last().1)
    }
}

/// Whether enough time has gone by.
fn has_cooled_down(last: Option<u128>, now: u128, cooldown: u128) -> (r: bool)
    requires
        cooldown > 0,
    ensures
        r == cooled_down(last, now, cooldown),
{
    match last {
        Some(t) => now.saturating_sub(t) >= cooldown,
        None => true,
    }
}

/// One round of the audit: records a probe, decides what to do, and marks it in
/// the snapshot and in the memory.
pub fn audit_step(
    memory: &mut AuditMemory,
    snapshot: &mut MeshVisibilitySnapshot,
    outcome: &ProbeOutcome,
    now_unix: u64,
    now_nanos: u128,
) -> (action: AuditAction)
    ensures
        action == next_action(
            audit_view(*old(memory), *old(snapshot)),
            outcome.state,
            now_nanos,
        ),
        audit_view(*final(memory), *final(snapshot)) == after_probe(
            audit_view(*old(memory), *old(snapshot)),
            outcome.state,
            now_nanos,
        ),
        exists|recorded: MeshVisibilitySnapshot|
            is_updated(recorded, *old(snapshot), *outcome, now_unix) && *final(snapshot) == (
            MeshVisibilitySnapshot {
                soft_reconnect_triggered: recorded.soft_reconnect_triggered || action
                    == AuditAction::SoftReconnect,
                hard_reset_triggered: recorded.hard_reset_triggered || action
                    == AuditAction::HardReset,
                ..recorded
            }),
        opt_text(final(memory).cached_fresh_token) == (if outcome.fresh_token is Some {
            opt_text(outcome.fresh_token)
        } else {
            opt_text(old(memory).cached_fresh_token)
        }),
{
    if let Some(token) = &outcome.fresh_token {
        memory.cached_fresh_token = Some(token.clone());
    }
    let count = update_snapshot_at(snapshot, outcome, now_unix);
    let ghost recorded = *snapshot;
    if count >= HARD_RESET_THRESHOLD && has_cooled_down(
        memory.last_hard_reset,
        now_nanos,
        HARD_RESET_COOLDOWN_NANOS,
    ) {
        snapshot.hard_reset_triggered = true;
        memory.last_hard_reset = Some(now_nanos);
        assert(is_updated(recorded, *old(snapshot), *outcome, now_unix));
        AuditAction::HardReset
    } else if count >= SOFT_RECONNECT_THRESHOLD && has_cooled_down(
        memory.last_soft_reconnect,
        now_nanos,
        SOFT_RECONNECT_COOLDOWN_NANOS,
    ) {
        snapshot.soft_reconnect_triggered = true;
        memory.last_soft_reconnect = Some(now_nanos);
        assert(is_updated(recorded, *old(snapshot), *outcome, now_unix));
        AuditAction::SoftReconnect
    } else {
        assert(is_updated(recorded, *old(snapshot), *outcome, now_unix));
        AuditAction::Wait
    }
}

/// The failed probes in a row after a run of probes.
pub open spec fn count_after(count: u32, states: Seq<MeshVisibilityState>) -> u32
    decreases states.len(),
{
    if states.len() == 0 {
        count
    } else {
        next_count(count_after(count, states.drop_last()), states.last())
    }
}

/// The counter counts the failed probes since the node was last visible, whether
/// it was unseen or the entry node was out of reach.
pub proof fn law_counter_counts_failures(
    count: u32,
    before: Seq<MeshVisibilityState>,
    failures: Seq<MeshVisibilityState>,
)
    requires
        failures.len() <= u32::MAX,
        forall|i: int| 0 <= i < failures.len() ==> (#[trigger] failures[i]).is_failure(),
    ensures
        count_after(count, before.push(MeshVisibilityState::Visible) + failures)
            == failures.len(),
    decreases failures.len(),
{
    let all = before.push(MeshVisibilityState::Visible) + failures;
    if failures.len() == 0 {
        assert(all =~= before.push(MeshVisibilityState::Visible));
    } else {
        assert(all.drop_last() =~= before.push(MeshVisibilityState::Visible)
            + failures.drop_last());
        assert forall|i: int| 0 <= i < failures.drop_last().len() implies (
        #[trigger] failures.drop_last()[i]).is_failure() by {
            assert(failures.drop_last()[i] == failures[i]);
        }
        law_counter_counts_failures(count, before, failures.drop_last());
        assert(all.last() == failures[failures.len() - 1]);
    }
}

/// A node that was just seen is left alone; fewer failures than the thresholds
/// trigger nothing.
pub proof fn law_no_action_while_visible(
    count: u32,
    last_soft: Option<u128>,
    last_hard: Option<u128>,
    now: u128,
)
    ensures
        escalation(
            next_count(count, MeshVisibilityState::Visible),
            last_soft,
            last_hard,
            now,
        ) == AuditAction::Wait,
        count < SOFT_RECONNECT_THRESHOLD ==> escalation(count, last_soft, last_hard, now)
            == AuditAction::Wait,
        count < HARD_RESET_THRESHOLD ==> escalation(count, last_soft, last_hard, now)
            != AuditAction::HardReset,
{
}

/// Two soft reconnects lie at least a cooldown apart, and so do two hard resets.
pub proof fn law_cooldowns_hold(count: u32, last: u128, other: Option<u128>, now: u128)
    ensures
        escalation(count, Some(last), other, now) == AuditAction::SoftReconnect ==> now - last
            >= SOFT_RECONNECT_COOLDOWN_NANOS,
        escalation(count, other, Some(last), now) == AuditAction::HardReset ==> now - last
            >= HARD_RESET_COOLDOWN_NANOS,
{
}

/// The tokens to try: the cached one, or else the fetched one, then the ones from
/// the start.
pub open spec fn candidate_tokens(
    cached: Option<Seq<char>>,
    fetched: Option<Seq<char>>,
    fallback: Seq<Seq<char>>,
) -> Seq<Seq<char>> {
    match cached {
        Some(token) => seq![token] + fallback,
        None => match fetched {
            Some(token) => seq![token] + fallback,
            None => fallback,
        },
    }
}

/// Lists the tokens to try in a soft reconnect. `fetched` counts only if no token
/// is cached.
pub fn join_candidates(
    cached: &Option<String>,
    fetched: &Option<String>,
    fallback_tokens: &[String],
) -> (r: Vec<String>)
    ensures
        texts(r@) == candidate_tokens(
            opt_text(*cached),
            opt_text(*fetched),
            texts(fallback_tokens@),
        ),
{
    let mut r: Vec<String> = Vec::new();
    if let Some(token) = cached {
        r.push(token.clone());
    } else if let Some(token) = fetched {
        r.push(token.clone());
    }
    let ghost first = texts(r@);
    let mut rest = copy_texts(fallback_tokens);
    let ghost tail = rest@;
    r.append(&mut rest);
    proof {
        assert(texts(r@) =~= first + texts(tail));
        match opt_text(*cached) {
            Some(token) => {
                assert(first =~= seq![token]);
            },
            None => {
                match opt_text(*fetched) {
                    Some(token) => {
                        assert(first =~= seq![token]);
                    },
                    None => {
                        assert(texts(r@) =~= texts(tail));
                    },
                }
            },
        }
    }
    r
}

/// An error text as it is reported: cut after a number of bytes if it is longer.
pub open spec fn reported_error(error: Seq<char>) -> Seq<char> {
    if encode_utf8(error).len() > REPORTED_ERROR_BYTES {
        decode_utf8(encode_utf8(error).take(REPORTED_ERROR_BYTES as int))
            + "\u{2026}[truncated]"@
    } else {
        error
    }
}

/// Cuts a long error text. The cut must not fall inside a character.
pub fn clamp_error(error: &str) -> (r: String)
    requires
        encode_utf8(error@).len() > REPORTED_ERROR_BYTES ==> is_char_boundary(
            encode_utf8(error@),
            REPORTED_ERROR_BYTES as int,
        ),
    ensures
        r@ == reported_error(error@),
{
    broadcast use vstd::utf8::encode_utf8_decode_utf8;

    if error.as_bytes().len() > REPORTED_ERROR_BYTES {
        let (kept, _) = error.split_at(REPORTED_ERROR_BYTES);
        proof {
            assert(encode_utf8(kept@) =~= encode_utf8(error@).take(REPORTED_ERROR_BYTES as int));
        }
        kept.to_owned().concat("\u{2026}[truncated]")
    } else {
        error.to_owned()
    }
}

/// The snapshot as it is reported, with its error text cut.
pub open spec fn snapshot_fields(s: MeshVisibilitySnapshot) -> Seq<(Seq<char>, JsonTree)> {
    seq![
        ("state"@, JsonTree::Text(s.state.word())),
        ("last_check_unix"@, opt_number_tree(s.last_check_unix)),
        ("last_visible_unix"@, opt_number_tree(s.last_visible_unix)),
        (
            "consecutive_invisible_count"@,
            JsonTree::Number(s.consecutive_invisible_count as u64),
        ),
        (
            "last_error"@,
            opt_text_tree(
                match opt_text(s.last_error) {
                    Some(error) => Some(reported_error(error)),
                    None => None,
                },
            ),
        ),
        ("entry_url"@, JsonTree::Text(s.entry_url@)),
        ("soft_reconnect_triggered"@, JsonTree::Flag(s.soft_reconnect_triggered)),
        ("hard_reset_triggered"@, JsonTree::Flag(s.hard_reset_triggered)),
    ]
}

/// The body of a report.
pub open spec fn report_tree(
    node_id: Seq<char>,
    config: PeerReportConfig,
    serving_models: Seq<Seq<char>>,
    s: MeshVisibilitySnapshot,
) -> JsonTree {
    JsonTree::Object(
        seq![
            ("node_id"@, JsonTree::Text(node_id)),
            ("hostname"@, opt_text_tree(opt_text(config.hostname))),
            ("version"@, opt_text_tree(opt_text(config.version))),
            ("serving_models"@, text_list_tree(serving_models)),
            ("mesh_visibility"@, JsonTree::Object(snapshot_fields(s))),
        ],
    )
}

/// The error text of the snapshot can be cut without splitting a character.
pub open spec fn error_can_be_cut(s: MeshVisibilitySnapshot) -> bool {
    s.last_error matches Some(error) && encode_utf8(error@).len() > REPORTED_ERROR_BYTES
        ==> is_char_boundary(encode_utf8(s.last_error->0@), REPORTED_ERROR_BYTES as int)
}

/// Puts a report together.
pub fn report_body(
    node_id: &str,
    config: &PeerReportConfig,
    serving_models: &[String],
    snapshot: &MeshVisibilitySnapshot,
) -> (r: Json)
    requires
        error_can_be_cut(*snapshot),
    ensures
        r.tree() == report_tree(node_id@, *config, texts(serving_models@), *snapshot),
{
    let last_error = match &snapshot.last_error {
        Some(error) => Some(clamp_error(error.as_str())),
        None => None,
    };
    let mut inner: Vec<(String, Json)> = Vec::new();
    push_field(&mut inner, "state", Json::Text(snapshot.state.label().to_owned()));
    push_field(&mut inner, "last_check_unix", opt_number_value(snapshot.last_check_unix));
    push_field(&mut inner, "last_visible_unix", opt_number_value(snapshot.last_visible_unix));
    push_field(
        &mut inner,
        "consecutive_invisible_count",
        Json::Number(snapshot.consecutive_invisible_count as u64),
    );
    push_field(&mut inner, "last_error", opt_text_value(&last_error));
    push_field(&mut inner, "entry_url", Json::Text(snapshot.entry_url.clone()));
    push_field(
        &mut inner,
        "soft_reconnect_triggered",
        Json::Flag(snapshot.soft_reconnect_triggered),
    );
    push_field(&mut inner, "hard_reset_triggered", Json::Flag(snapshot.hard_reset_triggered));
    assert(field_trees(inner@) =~= snapshot_fields(*snapshot));
    let mut fields: Vec<(String, Json)> = Vec::new();
    push_field(&mut fields, "node_id", Json::Text(node_id.to_owned()));
    push_field(&mut fields, "hostname", opt_text_value(&config.hostname));
    push_field(&mut fields, "version", opt_text_value(&config.version));
    push_field(&mut fields, "serving_models", text_list_value(serving_models));
    push_field(&mut fields, "mesh_visibility", object(inner));
    assert(field_trees(fields@) =~= report_tree(
        node_id@,
        *config,
        texts(serving_models@),
        *snapshot,
    )->Object_0);
    object(fields)
}

/// The audit ends with the hard reset that it decides on. Until then, however it got
/// there, the failures alone decide: eight in a row always end in a hard reset, three
/// to seven in a soft reconnect unless there was one less than its cooldown ago, and
/// fewer in nothing.
pub proof fn law_eight_failures_end_in_a_hard_reset(
    start: AuditView,
    probes: Seq<(MeshVisibilityState, u128)>,
    state: MeshVisibilityState,
    now: u128,
)
    requires
        start.last_hard is None,
        forall|i: int|
            0 <= i < probes.len() ==> next_action(
                after_probes(start, #[trigger] probes.take(i)),
                probes[i].0,
                probes[i].1,
            ) != AuditAction::HardReset,
    ensures
        ({
            let here = after_probes(start, probes);
            let failures = next_count(here.failures, state);
            let action = next_action(here, state, now);
            &&& here.last_hard is None
            &&& failures >= HARD_RESET_THRESHOLD <==> action == AuditAction::HardReset
            &&& SOFT_RECONNECT_THRESHOLD <= failures < HARD_RESET_THRESHOLD ==> (action
                == AuditAction::SoftReconnect <==> cooled_down(
                here.last_soft,
                now,
                SOFT_RECONNECT_COOLDOWN_NANOS,
            ))
            &&& failures < SOFT_RECONNECT_THRESHOLD ==> action == AuditAction::Wait
        }),
    decreases probes.len(),
{
    if probes.len() > 0 {
        let head = probes.drop_last();
        let n = probes.len() - 1;
        assert forall|i: int| 0 <= i < head.len() implies next_action(
            after_probes(start, #[trigger] head.take(i)),
            head[i].0,
            head[i].1,
        ) != AuditAction::HardReset by {
            assert(head.take(i) =~= probes.take(i));
            assert(head[i] == probes[i]);
        }
        law_eight_failures_end_in_a_hard_reset(start, head, state, now);
        assert(probes.take(n) =~= head);
    }
}

/// A node that the entry node lists is visible wherever it stands among the peers.
pub proof fn law_listed_node_is_visible(
    outcome: ProbeOutcome,
    body: Json,
    entry_url: Seq<char>,
    my_id: Seq<char>,
    items: Seq<JsonTree>,
    i: int,
)
    requires
        is_probe_outcome(outcome, EntryReply::Document { body }, entry_url, my_id),
        body.tree().field("peers"@) == Some(JsonTree::Array(items)),
        0 <= i < items.len(),
        items[i].field("id"@) == Some(JsonTree::Text(my_id)),
    ensures
        outcome.state == MeshVisibilityState::Visible,
        outcome.error is None,
{
    assert(listed_peers(body.tree()) == items);
    assert(text_field(listed_peers(body.tree())[i], "id"@) == Some(my_id));
}

/// The entry node sees itself.
pub proof fn law_entry_node_is_visible(
    outcome: ProbeOutcome,
    body: Json,
    entry_url: Seq<char>,
    my_id: Seq<char>,
)
    requires
        is_probe_outcome(outcome, EntryReply::Document { body }, entry_url, my_id),
        body.tree().field("node_id"@) == Some(JsonTree::Text(my_id)),
    ensures
        outcome.state == MeshVisibilityState::Visible,
        outcome.error is None,
{
}

/// A node that is neither the entry node nor among its peers is invisible, and the
/// error says how many peers there are.
pub proof fn law_unlisted_node_is_invisible(
    outcome: ProbeOutcome,
    body: Json,
    entry_url: Seq<char>,
    my_id: Seq<char>,
)
    requires
        is_probe_outcome(outcome, EntryReply::Document { body }, entry_url, my_id),
        my_id.len() > 0,
        body.tree().field("node_id"@) != Some(JsonTree::Text(my_id)),
        body.tree().field("peers"@) matches Some(JsonTree::Array(items)) ==> forall|i: int|
            0 <= i < items.len() ==> (#[trigger] items[i]).field("id"@) != Some(
                JsonTree::Text(my_id),
            ),
    ensures
        outcome.state == MeshVisibilityState::Invisible,
        opt_text(outcome.error) == Some(
            "Entry returned "@ + decimal(
                match body.tree().field("peers"@) {
                    Some(JsonTree::Array(items)) => items.len(),
                    _ => 0,
                },
            ) + " peer(s) but my node_id "@ + my_id + " is not among them"@,
        ),
{
    let items = listed_peers(body.tree());
    if shows_node(body.tree(), my_id) {
        if entry_id(body.tree()) != my_id {
            let i = choose|i: int|
                0 <= i < listed_peers(body.tree()).len() && text_field(
                    #[trigger] listed_peers(body.tree())[i],
                    "id"@,
                ) == Some(my_id);
            assert(items[i].field("id"@) == Some(JsonTree::Text(my_id)));
        }
    }
}

/// In what order the entry node lists its peers does not matter.
pub proof fn law_peer_order_does_not_matter(
    x: ProbeOutcome,
    y: ProbeOutcome,
    a: Json,
    b: Json,
    entry_url: Seq<char>,
    my_id: Seq<char>,
    before: Seq<JsonTree>,
    after: Seq<JsonTree>,
)
    requires
        is_probe_outcome(x, EntryReply::Document { body: a }, entry_url, my_id),
        is_probe_outcome(y, EntryReply::Document { body: b }, entry_url, my_id),
        a.tree().field("node_id"@) == b.tree().field("node_id"@),
        a.tree().field("peers"@) == Some(JsonTree::Array(before)),
        b.tree().field("peers"@) == Some(JsonTree::Array(after)),
        before.to_multiset() == after.to_multiset(),
    ensures
        x.state == y.state,
        opt_text(x.error) == opt_text(y.error),
{
    broadcast use vstd::seq_lib::group_to_multiset_ensures;

    let (p, q) = (listed_peers(a.tree()), listed_peers(b.tree()));
    assert(p == before && q == after);
    assert(before.len() == before.to_multiset().len());
    assert(after.len() == after.to_multiset().len());
    lemma_other_order(before, after, my_id);
    lemma_other_order(after, before, my_id);
    assert(shows_node(a.tree(), my_id) == shows_node(b.tree(), my_id));
}

proof fn lemma_other_order(before: Seq<JsonTree>, after: Seq<JsonTree>, my_id: Seq<char>)
    requires
        before.to_multiset() == after.to_multiset(),
    ensures
        (exists|i: int|
            0 <= i < before.len() && text_field(#[trigger] before[i], "id"@) == Some(my_id)) ==> (
        exists|i: int|
            0 <= i < after.len() && text_field(#[trigger] after[i], "id"@) == Some(my_id)),
{
    broadcast use vstd::seq_lib::group_to_multiset_ensures;

    if exists|i: int|
        0 <= i < before.len() && text_field(#[trigger] before[i], "id"@) == Some(my_id) {
        let i = choose|i: int|
            0 <= i < before.len() && text_field(#[trigger] before[i], "id"@) == Some(my_id);
        assert(before.contains(before[i]));
        assert(before.to_multiset().count(before[i]) > 0);
        assert(after.to_multiset().count(before[i]) > 0);
        let k = choose|k: int| 0 <= k < after.len() && after[k] == before[i];
        assert(text_field(after[k], "id"@) == Some(my_id));
    }
}

/// Further peers never hide a node.
pub proof fn law_further_peers_hide_nobody(
    x: ProbeOutcome,
    y: ProbeOutcome,
    a: Json,
    b: Json,
    entry_url: Seq<char>,
    my_id: Seq<char>,
    peers: Seq<JsonTree>,
    before: Seq<JsonTree>,
    behind: Seq<JsonTree>,
)
    requires
        is_probe_outcome(x, EntryReply::Document { body: a }, entry_url, my_id),
        is_probe_outcome(y, EntryReply::Document { body: b }, entry_url, my_id),
        a.tree().field("node_id"@) == b.tree().field("node_id"@),
        a.tree().field("peers"@) == Some(JsonTree::Array(peers)),
        b.tree().field("peers"@) == Some(JsonTree::Array(before + peers + behind)),
    ensures
        x.state == MeshVisibilityState::Visible ==> y.state == MeshVisibilityState::Visible,
{
    let (p, q) = (listed_peers(a.tree()), listed_peers(b.tree()));
    assert(p == peers && q == before + peers + behind);
    if x.state == MeshVisibilityState::Visible && entry_id(a.tree()) != my_id {
        let i = choose|i: int|
            0 <= i < p.len() && text_field(#[trigger] listed_peers(a.tree())[i], "id"@) == Some(
                my_id,
            );
        assert(q[before.len() + i] == p[i]);
        assert(text_field(listed_peers(b.tree())[before.len() + i], "id"@) == Some(my_id));
    }
}

/// The entry node's token is passed on whether the node is seen or not. An entry node
/// that gives no document is out of reach.
pub proof fn law_probe_reads_the_reply(
    outcome: ProbeOutcome,
    reply: EntryReply,
    entry_url: Seq<char>,
    my_id: Seq<char>,
    token: Seq<char>,
)
    requires
        is_probe_outcome(outcome, reply, entry_url, my_id),
    ensures
        (reply matches EntryReply::Document { body } && body.tree().field("token"@) == Some(
            JsonTree::Text(token),
        )) ==> opt_text(outcome.fresh_token) == Some(token),
        (reply matches EntryReply::Document { body } && body.tree().field("token"@) is None)
            ==> outcome.fresh_token is None,
        !(reply is Document) <==> outcome.state == MeshVisibilityState::EntryUnreachable,
        !(reply is Document) ==> outcome.error is Some && outcome.fresh_token is None,
{
}

/// A probe that sees the node clears everything that failures left behind. A failed
/// one leaves the time of the last sight as it was and is counted.
pub proof fn law_sight_clears_failures(
    after: MeshVisibilitySnapshot,
    before: MeshVisibilitySnapshot,
    outcome: ProbeOutcome,
    now: u64,
)
    requires
        is_updated(after, before, outcome, now),
    ensures
        after.state == outcome.state && after.last_check_unix == Some(now),
        outcome.state == MeshVisibilityState::Visible ==> {
            &&& after.consecutive_invisible_count == 0
            &&& after.last_visible_unix == Some(now)
            &&& after.last_error is None
            &&& !after.soft_reconnect_triggered && !after.hard_reset_triggered
        },
        outcome.state == MeshVisibilityState::Invisible || outcome.state
            == MeshVisibilityState::EntryUnreachable ==> {
            &&& before.consecutive_invisible_count < u32::MAX ==> after.consecutive_invisible_count
                == before.consecutive_invisible_count + 1
            &&& after.last_visible_unix == before.last_visible_unix
            &&& opt_text(after.last_error) == opt_text(outcome.error)
            &&& after.soft_reconnect_triggered == before.soft_reconnect_triggered
            &&& after.hard_reset_triggered == before.hard_reset_triggered
        },
{
}

/// Three failures in a row make the node join again, at most once a minute, and eight
/// make it start over, at most once in five minutes.
pub proof fn law_escalation_steps(failures: u32, last: u128, now: u128)
    ensures
        failures < 3 ==> escalation(failures, None, None, now) == AuditAction::Wait,
        3 <= failures < 8 ==> escalation(failures, None, None, now) == AuditAction::SoftReconnect,
        failures >= 8 ==> escalation(failures, None, None, now) == AuditAction::HardReset,
        3 <= failures < 8 ==> (escalation(failures, Some(last), None, now)
            == AuditAction::SoftReconnect <==> now - last >= 60_000_000_000),
        failures >= 8 ==> (escalation(failures, None, Some(last), now) == AuditAction::HardReset
            <==> now - last >= 300_000_000_000),
        failures >= 8 && now - last < 300_000_000_000 ==> escalation(failures, None, Some(last), now)
            == AuditAction::SoftReconnect,
{
}

/// The tokens from the start are always tried, in their order and after a newer one.
/// The cached token goes before a fetched one.
pub proof fn law_join_candidates(
    cached: Option<Seq<char>>,
    fetched: Option<Seq<char>>,
    fallback: Seq<Seq<char>>,
    i: int,
)
    requires
        0 <= i < fallback.len(),
    ensures
        ({
            let tokens = candidate_tokens(cached, fetched, fallback);
            &&& tokens[tokens.len() - fallback.len() + i] == fallback[i]
            &&& tokens.len() == fallback.len() + (if cached is Some || fetched is Some {
                1int
            } else {
                0
            })
            &&& cached matches Some(token) ==> tokens[0] == token
            &&& cached is None && fetched is Some ==> tokens[0] == fetched->0
        }),
{
}

/// A slash at the end of a base address does not change the endpoints below it.
pub proof fn law_trailing_slash_does_not_matter(base: Seq<char>, path: Seq<char>)
    ensures
        endpoint_text(base.push('/'), path) == endpoint_text(base, path),
        base.len() > 0 && base.last() != '/' ==> endpoint_text(base, path) == base + path,
{
    assert(base.push('/').drop_last() =~= base);
    let to = crate::text::law_trailing(base, '/');
    if base.len() > 0 && base.last() != '/' {
        assert(base.take(base.len() as int) =~= base);
    }
}

/// Every part of a report stands under its own name, and so does every part of the
/// snapshot in it.
pub proof fn law_report_names_its_parts(
    node_id: Seq<char>,
    config: PeerReportConfig,
    serving_models: Seq<Seq<char>>,
    s: MeshVisibilitySnapshot,
)
    ensures
        ({
            let report = report_tree(node_id, config, serving_models, s);
            let inner = JsonTree::Object(snapshot_fields(s));
            &&& report.field("node_id"@) == Some(JsonTree::Text(node_id))
            &&& report.field("hostname"@) == Some(opt_text_tree(opt_text(config.hostname)))
            &&& report.field("version"@) == Some(opt_text_tree(opt_text(config.version)))
            &&& report.field("serving_models"@) == Some(text_list_tree(serving_models))
            &&& report.field("mesh_visibility"@) == Some(inner)
            &&& inner.field("state"@) == Some(JsonTree::Text(s.state.word()))
            &&& inner.field("last_check_unix"@) == Some(opt_number_tree(s.last_check_unix))
            &&& inner.field("last_visible_unix"@) == Some(opt_number_tree(s.last_visible_unix))
            &&& inner.field("consecutive_invisible_count"@) == Some(
                JsonTree::Number(s.consecutive_invisible_count as u64),
            )
            &&& inner.field("entry_url"@) == Some(JsonTree::Text(s.entry_url@))
            &&& inner.field("soft_reconnect_triggered"@) == Some(
                JsonTree::Flag(s.soft_reconnect_triggered),
            )
            &&& inner.field("hard_reset_triggered"@) == Some(
                JsonTree::Flag(s.hard_reset_triggered),
            )
            &&& s.last_error is None ==> inner.field("last_error"@) == Some(JsonTree::Null)
        }),
{
    reveal_strlit("node_id");
    reveal_strlit("hostname");
    reveal_strlit("version");
    reveal_strlit("serving_models");
    reveal_strlit("mesh_visibility");
    reveal_strlit("state");
    reveal_strlit("last_check_unix");
    reveal_strlit("last_visible_unix");
    reveal_strlit("consecutive_invisible_count");
    reveal_strlit("last_error");
    reveal_strlit("entry_url");
    reveal_strlit("soft_reconnect_triggered");
    reveal_strlit("hard_reset_triggered");
    assert("node_id"@.len() == 7 && "hostname"@.len() == 8 && "version"@.len() == 7);
    assert("serving_models"@.len() == 14 && "mesh_visibility"@.len() == 15);
    assert("node_id"@[0] != "version"@[0]);
    assert("state"@.len() == 5 && "last_check_unix"@.len() == 15);
    assert("last_visible_unix"@.len() == 17 && "consecutive_invisible_count"@.len() == 27);
    assert("last_error"@.len() == 10 && "entry_url"@.len() == 9);
    assert("soft_reconnect_triggered"@.len() == 24 && "hard_reset_triggered"@.len() == 20);
    let outer = report_tree(node_id, config, serving_models, s)->Object_0;
    let fields = snapshot_fields(s);
    assert(outer[0].0 == "node_id"@ && outer[1].0 == "hostname"@ && outer[2].0 == "version"@);
    assert(outer[3].0 == "serving_models"@ && outer[4].0 == "mesh_visibility"@);
    assert(fields[0].0 == "state"@ && fields[1].0 == "last_check_unix"@);
    assert(fields[2].0 == "last_visible_unix"@ && fields[3].0 == "consecutive_invisible_count"@);
    assert(fields[4].0 == "last_error"@ && fields[5].0 == "entry_url"@);
    assert(fields[6].0 == "soft_reconnect_triggered"@ && fields[7].0 == "hard_reset_triggered"@);
    crate::json::law_first_field_counts(outer, "node_id"@, 0);
    crate::json::law_first_field_counts(outer, "hostname"@, 1);
    crate::json::law_first_field_counts(outer, "version"@, 2);
    crate::json::law_first_field_counts(outer, "serving_models"@, 3);
    crate::json::law_first_field_counts(outer, "mesh_visibility"@, 4);
    crate::json::law_first_field_counts(fields, "state"@, 0);
    crate::json::law_first_field_counts(fields, "last_check_unix"@, 1);
    crate::json::law_first_field_counts(fields, "last_visible_unix"@, 2);
    crate::json::law_first_field_counts(fields, "consecutive_invisible_count"@, 3);
    crate::json::law_first_field_counts(fields, "last_error"@, 4);
    crate::json::law_first_field_counts(fields, "entry_url"@, 5);
    crate::json::law_first_field_counts(fields, "soft_reconnect_triggered"@, 6);
    crate::json::law_first_field_counts(fields, "hard_reset_triggered"@, 7);
}

/// An error of up to 1024 bytes is reported as it is. A longer one is reported up to
/// there, with a mark that it was cut.
pub proof fn law_long_errors_are_cut(error: Seq<char>, kept: Seq<char>, rest: Seq<u8>)
    ensures
        encode_utf8(error).len() <= 1024 ==> reported_error(error) == error,
        encode_utf8(error) == encode_utf8(kept) + rest && encode_utf8(kept).len() == 1024
            && rest.len() > 0 ==> reported_error(error) == kept + "\u{2026}[truncated]"@,
{
    broadcast use vstd::utf8::encode_utf8_decode_utf8;

    if encode_utf8(error) == encode_utf8(kept) + rest && encode_utf8(kept).len() == 1024
        && rest.len() > 0 {
        assert(encode_utf8(error).take(1024) =~= encode_utf8(kept));
    }
}

/// Only a node that is unseen or whose entry node is out of reach counts as failed, and
/// every state is reported under its own word.
pub proof fn law_states_and_their_words(state: MeshVisibilityState)
    ensures
        state is Unknown ==> state.word() == "unknown"@ && !state.is_failure(),
        state is Visible ==> state.word() == "visible"@ && !state.is_failure(),
        state is Invisible ==> state.word() == "invisible"@ && state.is_failure(),
        state is EntryUnreachable ==> state.word() == "entry_unreachable"@ && state.is_failure(),
{
}

/// What the audit does is remembered: after joining again it does not do so for a
/// minute, and after deciding to start over not for five. While it waits, it forgets
/// neither. A probe that ran to no result changes no count.
pub proof fn law_actions_are_remembered(
    v: AuditView,
    state: MeshVisibilityState,
    now: u128,
    next: MeshVisibilityState,
    later: u128,
)
    requires
        now <= later,
    ensures
        next_action(v, state, now) == AuditAction::SoftReconnect && later - now < 60_000_000_000
            ==> next_action(after_probe(v, state, now), next, later) != AuditAction::SoftReconnect,
        next_action(v, state, now) == AuditAction::HardReset && later - now < 300_000_000_000
            ==> next_action(after_probe(v, state, now), next, later) != AuditAction::HardReset,
        next_action(v, state, now) == AuditAction::Wait ==> after_probe(v, state, now).last_soft
            == v.last_soft && after_probe(v, state, now).last_hard == v.last_hard,
        next_action(v, state, now) != AuditAction::SoftReconnect ==> after_probe(
            v,
            state,
            now,
        ).last_soft == v.last_soft,
        next_action(v, state, now) != AuditAction::HardReset ==> after_probe(
            v,
            state,
            now,
        ).last_hard == v.last_hard,
        after_probe(v, MeshVisibilityState::Visible, now).failures == 0,
        after_probe(v, MeshVisibilityState::Unknown, now).failures == v.failures,
        v.failures < u32::MAX ==> after_probe(v, MeshVisibilityState::Invisible, now).failures
            == v.failures + 1,
        v.failures < u32::MAX ==> after_probe(
            v,
            MeshVisibilityState::EntryUnreachable,
            now,
        ).failures == v.failures + 1,
{
}

} // verus!
