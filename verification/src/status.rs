//! What a node shows of itself and of its peers.

use vstd::prelude::*;

use crate::baseline::NativeBaselineEntry;
use crate::gigabytes::{units_of_bytes, Gigabytes};
use crate::gpus::{
    build_gpus, expanded, is_gpu_list, name_parts, number_column, GpuEntry,
};
use crate::model_ad::{ModelAdStatus, ModelAdSummary};
use crate::peers::{
    any_nonblank, any_says_something, nonblank, says_something, ModelRuntimeDescriptor,
    ModelTiming, NodeCapability, NodeRole, OwnershipStatus, OwnershipSummary, PeerInfo,
};
use crate::split::{
    classify_peer_split_role, peer_split, serving_mode, serving_mode_from_classification,
    MoeShardPayload, PeerSplitClassification, SplitGroupPayload,
};
use crate::text::{copy_opt, copy_texts, nonempty, opt_text, same_text, texts};
use crate::text_map::TextMap;

verus! {

/// What a node is doing.
#[derive(Debug, Clone, Copy, PartialEq, Eq, Structural)]
pub enum NodeState {
    Client,
    Standby,
    Loading,
    Serving,
}

impl NodeState {
    /// The word for the state.
    pub open spec fn alias(self) -> Seq<char> {
        match self {
            NodeState::Client => "Client"@,
            NodeState::Standby => "Standby"@,
            NodeState::Loading => "Loading"@,
            NodeState::Serving => "Serving"@,
        }
    }

    /// The word under which the state is shown.
    pub fn node_status_alias(self) -> (r: &'static str)
        ensures
            r@ == self.alias(),
    {
        match self {
            NodeState::Client => "Client",
            NodeState::Standby => "Standby",
            NodeState::Loading => "Loading",
            NodeState::Serving => "Serving",
        }
    }
}

/// The local node's state. Only declared work counts, and it counts as served
/// once the runtime is ready.
pub open spec fn local_state(
    is_client: bool,
    is_host: bool,
    ready: bool,
    worker_activity: bool,
    model_name: Seq<char>,
) -> NodeState {
    let work = (is_host || worker_activity) && says_something(model_name);
    if is_client {
        NodeState::Client
    } else if work && ready {
        NodeState::Serving
    } else if work {
        NodeState::Loading
    } else {
        NodeState::Standby
    }
}

/// Derives the local node's state.
pub fn derive_local_node_state(
    is_client: bool,
    effective_is_host: bool,
    effective_llama_ready: bool,
    has_local_worker_activity: bool,
    display_model_name: &str,
) -> (r: NodeState)
    ensures
        r == local_state(
            is_client,
            effective_is_host,
            effective_llama_ready,
            has_local_worker_activity,
            display_model_name@,
        ),
{
    let work = (effective_is_host || has_local_worker_activity) && nonblank(display_model_name);
    if is_client {
        NodeState::Client
    } else if effective_llama_ready && work {
        NodeState::Serving
    } else if work {
        NodeState::Loading
    } else {
        NodeState::Standby
    }
}

/// The peer describes a model that it runs.
pub open spec fn has_runtime(list: Seq<ModelRuntimeDescriptor>) -> bool {
    exists|i: int| 0 <= i < list.len() && says_something((#[trigger] list[i]).model_name@)
}

/// The peer describes a model that it runs and that is ready.
pub open spec fn has_ready_runtime(list: Seq<ModelRuntimeDescriptor>) -> bool {
    exists|i: int|
        0 <= i < list.len() && (#[trigger] list[i]).ready && says_something(list[i].model_name@)
}

/// A peer's state. Runtime descriptors decide if there are any; then hosted
/// models prove serving; a peer that announces hosted models but has none is
/// still loading what it wants to serve; older peers are taken at their word.
pub open spec fn peer_state(p: PeerInfo) -> NodeState {
    if p.role is Client {
        NodeState::Client
    } else if has_ready_runtime(p.served_model_runtime@) {
        NodeState::Serving
    } else if has_runtime(p.served_model_runtime@) {
        NodeState::Loading
    } else if any_says_something(texts(p.hosted_models@)) {
        NodeState::Serving
    } else if p.hosted_models_known && any_says_something(texts(p.serving_models@)) {
        NodeState::Loading
    } else if any_says_something(texts(p.serving_models@)) || any_says_something(p.routable()) {
        NodeState::Serving
    } else {
        NodeState::Standby
    }
}

/// Derives a peer's state.
pub fn derive_peer_state(peer: &PeerInfo) -> (r: NodeState)
    ensures
        r == peer_state(*peer),
{
    if let NodeRole::Client = peer.role {
        return NodeState::Client;
    }
    let list = &peer.served_model_runtime;
    let mut described = false;
    let mut ready = false;
    let mut i: usize = 0;
    while i < list.len()
        invariant
            i <= list.len(),
            list == peer.served_model_runtime,
            described == exists|j: int|
                0 <= j < i && says_something((#[trigger] list@[j]).model_name@),
            ready == exists|j: int|
                0 <= j < i && (#[trigger] list@[j]).ready && says_something(list@[j].model_name@),
        decreases list.len() - i,
    {
        if nonblank(list[i].model_name.as_str()) {
            assert(says_something(list@[i as int].model_name@));
            described = true;
            if list[i].ready {
                ready = true;
            }
        }
        i = i + 1;
    }
    if ready {
        return NodeState::Serving;
    }
    if described {
        return NodeState::Loading;
    }
    if any_nonblank(peer.hosted_models.as_slice()) {
        return NodeState::Serving;
    }
    let serving = any_nonblank(peer.serving_models.as_slice());
    if peer.hosted_models_known && serving {
        return NodeState::Loading;
    }
    if serving || any_nonblank(peer.routable_models().as_slice()) {
        return NodeState::Serving;
    }
    NodeState::Standby
}

/// A peer that announces hosted models is shown as serving only on proof: a ready
/// runtime or a hosted model.
pub proof fn law_serving_needs_proof(p: PeerInfo)
    requires
        p.hosted_models_known,
        peer_state(p) == NodeState::Serving,
    ensures
        has_ready_runtime(p.served_model_runtime@) || any_says_something(texts(p.hosted_models@)),
{
}

/// A peer without models stands by, and a client is a client whatever it
/// announces.
pub proof fn law_idle_peers_stand_by(p: PeerInfo)
    ensures
        p.role is Client <==> peer_state(p) == NodeState::Client,
        !(p.role is Client) && !has_runtime(p.served_model_runtime@) && !any_says_something(
            texts(p.hosted_models@),
        ) && !any_says_something(texts(p.serving_models@)) ==> peer_state(p) == NodeState::Standby,
{
    if has_ready_runtime(p.served_model_runtime@) {
        let list = p.served_model_runtime@;
        let i = choose|i: int|
            0 <= i < list.len() && (#[trigger] list[i]).ready && says_something(
                list[i].model_name@,
            );
        assert(says_something(list[i].model_name@));
    }
}

/// Whose node it is, as it is shown.
#[derive(Debug)]
pub struct OwnershipPayload {
    pub owner_id: Option<String>,
    pub cert_id: Option<String>,
    pub status: String,
    pub verified: bool,
    pub expires_at_unix_ms: Option<u64>,
    pub node_label: Option<String>,
    pub hostname_hint: Option<String>,
}

/// The word for an ownership status.
pub open spec fn ownership_word(status: OwnershipStatus) -> Seq<char> {
    match status {
        OwnershipStatus::Verified => "verified"@,
        OwnershipStatus::Unsigned => "unsigned"@,
        OwnershipStatus::Expired => "expired"@,
        OwnershipStatus::InvalidSignature => "invalid_signature"@,
        OwnershipStatus::MismatchedNodeId => "mismatched_node_id"@,
        OwnershipStatus::RevokedOwner => "revoked_owner"@,
        OwnershipStatus::RevokedCert => "revoked_cert"@,
        OwnershipStatus::RevokedNodeId => "revoked_node_id"@,
        OwnershipStatus::UnsupportedProtocol => "unsupported_protocol"@,
        OwnershipStatus::UntrustedOwner => "untrusted_owner"@,
    }
}

/// The payload shows the summary.
pub open spec fn shows_ownership(r: OwnershipPayload, s: OwnershipSummary) -> bool {
    &&& opt_text(r.owner_id) == opt_text(s.owner_id)
    &&& opt_text(r.cert_id) == opt_text(s.cert_id)
    &&& r.status@ == ownership_word(s.status)
    &&& r.verified == s.verified
    &&& r.expires_at_unix_ms == s.expires_at_unix_ms
    &&& opt_text(r.node_label) == opt_text(s.node_label)
    &&& opt_text(r.hostname_hint) == opt_text(s.hostname_hint)
}

/// Shows whose node it is.
pub fn build_ownership_payload(summary: &OwnershipSummary) -> (r: OwnershipPayload)
    ensures
        shows_ownership(r, *summary),
{
    let status = match summary.status {
        OwnershipStatus::Verified => "verified",
        OwnershipStatus::Unsigned => "unsigned",
        OwnershipStatus::Expired => "expired",
        OwnershipStatus::InvalidSignature => "invalid_signature",
        OwnershipStatus::MismatchedNodeId => "mismatched_node_id",
        OwnershipStatus::RevokedOwner => "revoked_owner",
        OwnershipStatus::RevokedCert => "revoked_cert",
        OwnershipStatus::RevokedNodeId => "revoked_node_id",
        OwnershipStatus::UnsupportedProtocol => "unsupported_protocol",
        OwnershipStatus::UntrustedOwner => "untrusted_owner",
    };
    OwnershipPayload {
        owner_id: copy_opt(&summary.owner_id),
        cert_id: copy_opt(&summary.cert_id),
        status: status.to_owned(),
        verified: summary.verified,
        expires_at_unix_ms: summary.expires_at_unix_ms,
        node_label: copy_opt(&summary.node_label),
        hostname_hint: copy_opt(&summary.hostname_hint),
    }
}

/// What came of checking a peer's advertisement, as it is shown.
#[derive(Debug)]
pub struct ModelAdPayload {
    pub status: String,
    pub verified: bool,
    pub owner_id: Option<String>,
    pub issued_at_unix_ms: Option<u64>,
    pub model_count: usize,
}

/// The word for an advertisement status.
pub open spec fn ad_word(status: ModelAdStatus) -> Seq<char> {
    match status {
        ModelAdStatus::Verified => "verified"@,
        ModelAdStatus::Unsigned => "unsigned"@,
        ModelAdStatus::InvalidSignature => "invalid_signature"@,
        ModelAdStatus::MismatchedNodeId => "mismatched_node_id"@,
        ModelAdStatus::Stale => "stale"@,
        ModelAdStatus::RevokedOwner => "revoked_owner"@,
        ModelAdStatus::UntrustedOwner => "untrusted_owner"@,
        ModelAdStatus::UnsupportedProtocol => "unsupported_protocol"@,
    }
}

/// The payload shows the summary.
pub open spec fn shows_model_ad(r: ModelAdPayload, s: ModelAdSummary) -> bool {
    &&& r.status@ == ad_word(s.status)
    &&& r.verified == s.verified
    &&& opt_text(r.owner_id) == opt_text(s.owner_id)
    &&& r.issued_at_unix_ms == s.issued_at_unix_ms
    &&& r.model_count == s.model_count
}

/// Shows what came of checking a peer's advertisement.
pub fn build_model_ad_payload(summary: &ModelAdSummary) -> (r: ModelAdPayload)
    ensures
        shows_model_ad(r, *summary),
{
    let status = match summary.status {
        ModelAdStatus::Verified => "verified",
        ModelAdStatus::Unsigned => "unsigned",
        ModelAdStatus::InvalidSignature => "invalid_signature",
        ModelAdStatus::MismatchedNodeId => "mismatched_node_id",
        ModelAdStatus::Stale => "stale",
        ModelAdStatus::RevokedOwner => "revoked_owner",
        ModelAdStatus::UntrustedOwner => "untrusted_owner",
        ModelAdStatus::UnsupportedProtocol => "unsupported_protocol",
    };
    ModelAdPayload {
        status: status.to_owned(),
        verified: summary.verified,
        owner_id: copy_opt(&summary.owner_id),
        issued_at_unix_ms: summary.issued_at_unix_ms,
        model_count: summary.model_count,
    }
}

/// A node's hardware, as it is shown.
#[derive(Debug)]
pub struct NodeCapabilityPayload {
    pub backend: String,
    pub vendor: String,
    pub compute_class: String,
    pub vram_total_mb: u64,
    pub vram_free_mb: u64,
    pub can_serve_max_gb: u64,
    pub loaded_models: Vec<String>,
}

/// Everything but the memory figures is shown as it is.
pub open spec fn shows_labels(r: NodeCapabilityPayload, c: NodeCapability) -> bool {
    &&& r.backend@ == c.backend@
    &&& r.vendor@ == c.vendor@
    &&& r.compute_class@ == c.compute_class@
    &&& r.can_serve_max_gb == c.can_serve_max_gb
    &&& texts(r.loaded_models@) == texts(c.loaded_models@)
}

/// The smaller of two figures.
pub open spec fn least(a: u64, b: u64) -> u64 {
    if a <= b {
        a
    } else {
        b
    }
}

/// The shown total memory: capped by the usable memory, or the usable memory if
/// the total is not known.
pub open spec fn shown_total_mb(c: NodeCapability, usable_bytes: u64) -> u64 {
    let usable_mb = usable_bytes / 1_048_576;
    if usable_bytes == 0 {
        c.vram_total_mb
    } else if c.vram_total_mb > 0 {
        least(c.vram_total_mb, usable_mb)
    } else {
        usable_mb
    }
}

/// The payload shows the hardware with its memory capped by what is usable.
pub open spec fn shows_capability(
    r: NodeCapabilityPayload,
    c: NodeCapability,
    usable_bytes: u64,
) -> bool {
    &&& shows_labels(r, c)
    &&& r.vram_total_mb == shown_total_mb(c, usable_bytes)
    &&& r.vram_free_mb == (if usable_bytes == 0 {
        c.vram_free_mb
    } else {
        least(c.vram_free_mb, shown_total_mb(c, usable_bytes))
    })
}

impl NodeCapabilityPayload {
    /// Shows a node's hardware as it is.
    pub fn from_capability(c: &NodeCapability) -> (r: NodeCapabilityPayload)
        ensures
            shows_labels(r, *c),
            r.vram_total_mb == c.vram_total_mb,
            r.vram_free_mb == c.vram_free_mb,
    {
        NodeCapabilityPayload {
            backend: c.backend.clone(),
            vendor: c.vendor.clone(),
            compute_class: c.compute_class.clone(),
            vram_total_mb: c.vram_total_mb,
            vram_free_mb: c.vram_free_mb,
            can_serve_max_gb: c.can_serve_max_gb,
            loaded_models: copy_texts(c.loaded_models.as_slice()),
        }
    }

    /// Shows a node's hardware with its memory capped by what is usable.
    pub fn from_capability_with_usable_vram(c: &NodeCapability, usable_vram_bytes: u64) -> (r:
        NodeCapabilityPayload)
        ensures
            shows_capability(r, *c, usable_vram_bytes),
    {
        let mut payload = NodeCapabilityPayload::from_capability(c);
        if usable_vram_bytes > 0 {
            let usable_mb: u64 = usable_vram_bytes / 1_048_576;
            if payload.vram_total_mb == 0 || usable_mb < payload.vram_total_mb {
                payload.vram_total_mb = usable_mb;
            }
            if payload.vram_total_mb < payload.vram_free_mb {
                payload.vram_free_mb = payload.vram_total_mb;
            }
        }
        payload
    }
}

/// Nothing is known of the hardware.
pub open spec fn shows_no_capability(r: NodeCapabilityPayload) -> bool {
    &&& r.backend@.len() == 0
    &&& r.vendor@.len() == 0
    &&& r.compute_class@.len() == 0
    &&& r.vram_total_mb == 0
    &&& r.vram_free_mb == 0
    &&& r.can_serve_max_gb == 0
    &&& r.loaded_models@.len() == 0
}

impl Default for NodeCapabilityPayload {
    fn default() -> (r: NodeCapabilityPayload)
        ensures
            shows_no_capability(r),
    {
        NodeCapabilityPayload {
            backend: String::new(),
            vendor: String::new(),
            compute_class: String::new(),
            vram_total_mb: 0,
            vram_free_mb: 0,
            can_serve_max_gb: 0,
            loaded_models: Vec::new(),
        }
    }
}

/// With usable memory known, no shown figure exceeds it.
pub proof fn law_shown_memory_is_usable(r: NodeCapabilityPayload, c: NodeCapability, usable: u64)
    requires
        shows_capability(r, c, usable),
        usable > 0,
    ensures
        r.vram_total_mb <= usable / 1_048_576,
        r.vram_free_mb <= r.vram_total_mb,
{
}

/// The verifier's latest verdict on one model of one peer. The agreement is a
/// double precision number, held as its bit pattern.
#[derive(Debug)]
pub struct VerifyVerdictRecord {
    pub peer_id: String,
    pub model: String,
    pub verdict: String,
    pub agreement: u64,
    pub compared_tokens: usize,
    pub mode: String,
    pub reason: Option<String>,
    pub checked_at_unix_secs: u64,
}

/// A verdict as it is shown.
#[derive(Debug)]
pub struct VerifyPayload {
    pub verdict: String,
    pub agreement: u64,
    pub compared_tokens: usize,
    pub mode: String,
    pub reason: Option<String>,
    pub checked_at_unix_secs: u64,
}

/// The mathematical content of a [`VerifyPayload`].
pub struct VerifyView {
    pub verdict: Seq<char>,
    pub agreement: u64,
    pub compared_tokens: usize,
    pub mode: Seq<char>,
    pub reason: Option<Seq<char>>,
    pub checked_at_unix_secs: u64,
}

impl View for VerifyPayload {
    type V = VerifyView;

    open spec fn view(&self) -> VerifyView {
        VerifyView {
            verdict: self.verdict@,
            agreement: self.agreement,
            compared_tokens: self.compared_tokens,
            mode: self.mode@,
            reason: opt_text(self.reason),
            checked_at_unix_secs: self.checked_at_unix_secs,
        }
    }
}

/// What is shown of a verdict.
pub open spec fn shown_verdict(rec: VerifyVerdictRecord) -> VerifyView {
    VerifyView {
        verdict: rec.verdict@,
        agreement: rec.agreement,
        compared_tokens: rec.compared_tokens,
        mode: rec.mode@,
        reason: opt_text(rec.reason),
        checked_at_unix_secs: rec.checked_at_unix_secs,
    }
}

/// Shows a verdict.
pub fn build_verify_payload(rec: &VerifyVerdictRecord) -> (r: VerifyPayload)
    ensures
        r@ == shown_verdict(*rec),
{
    VerifyPayload {
        verdict: rec.verdict.clone(),
        agreement: rec.agreement,
        compared_tokens: rec.compared_tokens,
        mode: rec.mode.clone(),
        reason: copy_opt(&rec.reason),
        checked_at_unix_secs: rec.checked_at_unix_secs,
    }
}

/// The reputation of one model of one peer, with its grade. The score is a double
/// precision number, held as its bit pattern.
#[derive(Debug)]
pub struct ReputationScore {
    pub peer_id: String,
    pub model: String,
    pub grade: String,
    pub score: u64,
    pub samples: u64,
    pub matches: u64,
    pub mismatches: u64,
    pub last_verdict: String,
    pub updated_at_unix_secs: u64,
}

/// A reputation as it is shown.
#[derive(Debug)]
pub struct ReputationPayload {
    pub grade: String,
    pub score: u64,
    pub samples: u64,
    pub matches: u64,
    pub mismatches: u64,
    pub last_verdict: String,
    pub updated_at_unix_secs: u64,
}

/// The mathematical content of a [`ReputationPayload`].
pub struct ReputationView {
    pub grade: Seq<char>,
    pub score: u64,
    pub samples: u64,
    pub matches: u64,
    pub mismatches: u64,
    pub last_verdict: Seq<char>,
    pub updated_at_unix_secs: u64,
}

impl View for ReputationPayload {
    type V = ReputationView;

    open spec fn view(&self) -> ReputationView {
        ReputationView {
            grade: self.grade@,
            score: self.score,
            samples: self.samples,
            matches: self.matches,
            mismatches: self.mismatches,
            last_verdict: self.last_verdict@,
            updated_at_unix_secs: self.updated_at_unix_secs,
        }
    }
}

/// What is shown of a reputation.
pub open spec fn shown_reputation(s: ReputationScore) -> ReputationView {
    ReputationView {
        grade: s.grade@,
        score: s.score,
        samples: s.samples,
        matches: s.matches,
        mismatches: s.mismatches,
        last_verdict: s.last_verdict@,
        updated_at_unix_secs: s.updated_at_unix_secs,
    }
}

/// Shows a reputation.
pub fn build_reputation_payload(s: &ReputationScore) -> (r: ReputationPayload)
    ensures
        r@ == shown_reputation(*s),
{
    ReputationPayload {
        grade: s.grade.clone(),
        score: s.score,
        samples: s.samples,
        matches: s.matches,
        mismatches: s.mismatches,
        last_verdict: s.last_verdict.clone(),
        updated_at_unix_secs: s.updated_at_unix_secs,
    }
}

/// The verdicts on one peer, by model.
pub open spec fn verdicts_on(records: Seq<VerifyVerdictRecord>, peer_id: Seq<char>) -> Map<
    Seq<char>,
    VerifyView,
>
    decreases records.len(),
{
    if records.len() == 0 {
        Map::empty()
    } else {
        let before = verdicts_on(records.drop_last(), peer_id);
        if records.last().peer_id@ == peer_id {
            before.insert(records.last().model@, shown_verdict(records.last()))
        } else {
            before
        }
    }
}

/// The reputation of one peer, by model.
pub open spec fn reputation_of(records: Seq<ReputationScore>, peer_id: Seq<char>) -> Map<
    Seq<char>,
    ReputationView,
>
    decreases records.len(),
{
    if records.len() == 0 {
        Map::empty()
    } else {
        let before = reputation_of(records.drop_last(), peer_id);
        if records.last().peer_id@ == peer_id {
            before.insert(records.last().model@, shown_reputation(records.last()))
        } else {
            before
        }
    }
}

/// Shown verdicts as content.
pub open spec fn verdict_contents(map: Map<Seq<char>, VerifyPayload>) -> Map<Seq<char>, VerifyView> {
    map.map_values(|v: VerifyPayload| v@)
}

/// Shown reputations as content.
pub open spec fn reputation_contents(map: Map<Seq<char>, ReputationPayload>) -> Map<
    Seq<char>,
    ReputationView,
> {
    map.map_values(|v: ReputationPayload| v@)
}

/// Collects the verdicts on one peer.
fn collect_verdicts(records: &[VerifyVerdictRecord], peer_id: &str) -> (r: TextMap<VerifyPayload>)
    ensures
        verdict_contents(r@) == verdicts_on(records@, peer_id@),
{
    let mut r: TextMap<VerifyPayload> = TextMap::new();
    let mut i: usize = 0;
    assert(verdict_contents(r@) =~= verdicts_on(records@.take(0), peer_id@));
    while i < records.len()
        invariant
            i <= records.len(),
            verdict_contents(r@) == verdicts_on(records@.take(i as int), peer_id@),
        decreases records.len() - i,
    {
        assert(records@.take(i + 1).drop_last() =~= records@.take(i as int));
        if same_text(records[i].peer_id.as_str(), peer_id) {
            let ghost before = r@;
            let shown = build_verify_payload(&records[i]);
            r.insert(records[i].model.clone(), shown);
            assert(verdict_contents(r@) =~= verdict_contents(before).insert(
                records@[i as int].model@,
                shown@,
            ));
        }
        i = i + 1;
    }
    assert(records@.take(i as int) =~= records@);
    r
}

/// Collects the reputation of one peer.
fn collect_reputation(records: &[ReputationScore], peer_id: &str) -> (r: TextMap<ReputationPayload>)
    ensures
        reputation_contents(r@) == reputation_of(records@, peer_id@),
{
    let mut r: TextMap<ReputationPayload> = TextMap::new();
    let mut i: usize = 0;
    assert(reputation_contents(r@) =~= reputation_of(records@.take(0), peer_id@));
    while i < records.len()
        invariant
            i <= records.len(),
            reputation_contents(r@) == reputation_of(records@.take(i as int), peer_id@),
        decreases records.len() - i,
    {
        assert(records@.take(i + 1).drop_last() =~= records@.take(i as int));
        if same_text(records[i].peer_id.as_str(), peer_id) {
            let ghost before = r@;
            let shown = build_reputation_payload(&records[i]);
            r.insert(records[i].model.clone(), shown);
            assert(reputation_contents(r@) =~= reputation_contents(before).insert(
                records@[i as int].model@,
                shown@,
            ));
        }
        i = i + 1;
    }
    assert(records@.take(i as int) =~= records@);
    r
}

/// Figures by model; of several for one model the last counts. A model without a
/// figure has not been measured.
pub open spec fn figures(pairs: Seq<(Seq<char>, u64)>) -> Map<Seq<char>, u64>
    decreases pairs.len(),
{
    if pairs.len() == 0 {
        Map::empty()
    } else {
        figures(pairs.drop_last()).insert(pairs.last().0, pairs.last().1)
    }
}

/// The content of a list of pairs.
pub open spec fn pair_views(pairs: Seq<(String, u64)>) -> Seq<(Seq<char>, u64)> {
    pairs.map_values(|p: (String, u64)| (p.0@, p.1))
}

/// Collects figures by model.
pub fn collect_figures(pairs: &[(String, u64)]) -> (r: TextMap<u64>)
    ensures
        r@ == figures(pair_views(pairs@)),
{
    let mut r: TextMap<u64> = TextMap::new();
    let ghost all = pair_views(pairs@);
    let mut i: usize = 0;
    while i < pairs.len()
        invariant
            i <= pairs.len(),
            all == pair_views(pairs@),
            r@ == figures(all.take(i as int)),
        decreases pairs.len() - i,
    {
        assert(all.take(i + 1).drop_last() =~= all.take(i as int));
        assert(all.take(i + 1).last() == (pairs@[i as int].0@, pairs@[i as int].1));
        r.insert(pairs[i].0.clone(), pairs[i].1);
        i = i + 1;
    }
    assert(all.take(i as int) =~= all);
    r
}

/// A peer as it is shown.
#[derive(Debug)]
pub struct PeerPayload {
    pub id: String,
    pub owner: OwnershipPayload,
    pub model_ad: ModelAdPayload,
    pub verify_by_model: TextMap<VerifyPayload>,
    pub reputation_by_model: TextMap<ReputationPayload>,
    pub role: String,
    pub state: NodeState,
    pub models: Vec<String>,
    pub available_models: Vec<String>,
    pub requested_models: Vec<String>,
    pub vram_gb: Gigabytes,
    pub serving_models: Vec<String>,
    pub hosted_models: Vec<String>,
    pub hosted_models_known: bool,
    pub version: Option<String>,
    pub rtt_ms: Option<u32>,
    pub inflight_requests: u64,
    pub system_ram_bytes: u64,
    pub hostname: Option<String>,
    pub is_soc: Option<bool>,
    pub gpus: Vec<GpuEntry>,
    pub capability: NodeCapabilityPayload,
    pub measured_tps_p50_by_model: TextMap<u64>,
    pub measured_ttft_ms_p50_by_model: TextMap<u64>,
    pub native_tps_p50_by_model: TextMap<u64>,
    pub native_ttft_ms_p50_by_model: TextMap<u64>,
    pub first_joined_mesh_ts: Option<u64>,
    pub serving_mode: Option<String>,
    pub split_role: Option<String>,
    pub split_group: Option<SplitGroupPayload>,
    pub moe_shard: Option<MoeShardPayload>,
}

/// The word for a role.
pub open spec fn role_word(role: NodeRole) -> Seq<char> {
    match role {
        NodeRole::Worker => "Worker"@,
        NodeRole::Host { .. } => "Host"@,
        NodeRole::Client => "Client"@,
    }
}

/// What a peer announces is shown as it is.
pub open spec fn shows_announcement(r: PeerPayload, p: PeerInfo) -> bool {
    &&& r.id@ == p.short_id@
    &&& r.role@ == role_word(p.role)
    &&& texts(r.models@) == texts(p.models@)
    &&& texts(r.available_models@) == texts(p.available_models@)
    &&& texts(r.requested_models@) == texts(p.requested_models@)
    &&& texts(r.serving_models@) == texts(p.serving_models@)
    &&& texts(r.hosted_models@) == texts(p.hosted_models@)
    &&& r.hosted_models_known == p.hosted_models_known
    &&& opt_text(r.version) == opt_text(p.version)
    &&& r.rtt_ms == p.rtt_ms
    &&& r.inflight_requests == p.inflight_requests
    &&& r.system_ram_bytes == p.system_ram_bytes
    &&& opt_text(r.hostname) == opt_text(p.hostname)
    &&& r.is_soc == p.is_soc
    &&& r.first_joined_mesh_ts == p.first_joined_mesh_ts
}

/// What is derived from what a peer announces.
pub open spec fn shows_derived(
    r: PeerPayload,
    p: PeerInfo,
    verdicts: Seq<VerifyVerdictRecord>,
    reputation: Seq<ReputationScore>,
) -> bool {
    &&& shows_ownership(r.owner, p.owner_summary)
    &&& shows_model_ad(r.model_ad, p.model_ad)
    &&& verdict_contents(r.verify_by_model@) == verdicts_on(verdicts, p.id@)
    &&& reputation_contents(r.reputation_by_model@) == reputation_of(reputation, p.id@)
    &&& r.state == peer_state(p)
    &&& r.vram_gb.units() == units_of_bytes(p.fast_memory() as u64)
    &&& is_gpu_list(
        r.gpus@,
        nonempty(expanded(name_parts(opt_text(p.gpu_name)))),
        number_column(opt_text(p.gpu_vram)),
        number_column(opt_text(p.gpu_reserved_bytes)),
        p.gpu_mem_bandwidth_gbps@,
        p.gpu_compute_tflops_fp32@,
        p.gpu_compute_tflops_fp16@,
    )
    &&& shows_capability(r.capability, p.capability, p.fast_memory() as u64)
    &&& r.measured_tps_p50_by_model@ == figures(timing_rates(p.model_timings@))
    &&& r.measured_ttft_ms_p50_by_model@ == figures(timing_latencies(p.model_timings@))
    &&& r.native_tps_p50_by_model@ == figures(native_rates(p.native_baselines@))
    &&& r.native_ttft_ms_p50_by_model@ == figures(native_latencies(p.native_baselines@))
}

/// Measured rates, by model.
pub open spec fn timing_rates(list: Seq<ModelTiming>) -> Seq<(Seq<char>, u64)> {
    Seq::new(list.len(), |i: int| (list[i].model@, list[i].measured_tps_p50))
}

/// Measured latencies, by model.
pub open spec fn timing_latencies(list: Seq<ModelTiming>) -> Seq<(Seq<char>, u64)> {
    Seq::new(list.len(), |i: int| (list[i].model@, list[i].measured_ttft_ms_p50))
}

/// Native rates, by model.
pub open spec fn native_rates(list: Seq<NativeBaselineEntry>) -> Seq<(Seq<char>, u64)> {
    Seq::new(list.len(), |i: int| (list[i].model@, list[i].native_tps_p50))
}

/// Native latencies, by model.
pub open spec fn native_latencies(list: Seq<NativeBaselineEntry>) -> Seq<(Seq<char>, u64)> {
    Seq::new(list.len(), |i: int| (list[i].model@, list[i].native_ttft_ms_p50))
}

/// The split of a peer is shown as the classifier found it.
pub open spec fn shows_split(r: PeerPayload, p: PeerInfo, all: Seq<PeerInfo>) -> bool {
    let split = PeerSplitClassification {
        role: r.split_role,
        group: r.split_group,
        moe_shard: r.moe_shard,
    };
    &&& split.shows(peer_split(p, all))
    &&& opt_text(r.serving_mode) == serving_mode(p, split)
}

/// A peer is shown as it announces itself, with what is derived from that.
pub open spec fn shows_peer(
    r: PeerPayload,
    p: PeerInfo,
    all: Seq<PeerInfo>,
    verdicts: Seq<VerifyVerdictRecord>,
    reputation: Seq<ReputationScore>,
) -> bool {
    &&& shows_announcement(r, p)
    &&& shows_derived(r, p, verdicts, reputation)
    &&& shows_split(r, p, all)
}

/// Measured figures by model: rates, then latencies.
pub fn measured_figures(list: &[ModelTiming]) -> (r: (TextMap<u64>, TextMap<u64>))
    ensures
        r.0@ == figures(timing_rates(list@)),
        r.1@ == figures(timing_latencies(list@)),
{
    let mut rates: Vec<(String, u64)> = Vec::new();
    let mut latencies: Vec<(String, u64)> = Vec::new();
    let mut i: usize = 0;
    while i < list.len()
        invariant
            i <= list.len(),
            rates.len() == i,
            latencies.len() == i,
            forall|j: int|
                0 <= j < i ==> (#[trigger] rates@[j]).0@ == list@[j].model@ && rates@[j].1
                    == list@[j].measured_tps_p50,
            forall|j: int|
                0 <= j < i ==> (#[trigger] latencies@[j]).0@ == list@[j].model@
                    && latencies@[j].1 == list@[j].measured_ttft_ms_p50,
        decreases list.len() - i,
    {
        rates.push((list[i].model.clone(), list[i].measured_tps_p50));
        latencies.push((list[i].model.clone(), list[i].measured_ttft_ms_p50));
        i = i + 1;
    }
    assert(pair_views(rates@) =~= timing_rates(list@));
    assert(pair_views(latencies@) =~= timing_latencies(list@));
    (collect_figures(rates.as_slice()), collect_figures(latencies.as_slice()))
}

/// Native figures by model: rates, then latencies.
pub fn native_figures(list: &[NativeBaselineEntry]) -> (r: (TextMap<u64>, TextMap<u64>))
    ensures
        r.0@ == figures(native_rates(list@)),
        r.1@ == figures(native_latencies(list@)),
{
    let mut rates: Vec<(String, u64)> = Vec::new();
    let mut latencies: Vec<(String, u64)> = Vec::new();
    let mut i: usize = 0;
    while i < list.len()
        invariant
            i <= list.len(),
            rates.len() == i,
            latencies.len() == i,
            forall|j: int|
                0 <= j < i ==> (#[trigger] rates@[j]).0@ == list@[j].model@ && rates@[j].1
                    == list@[j].native_tps_p50,
            forall|j: int|
                0 <= j < i ==> (#[trigger] latencies@[j]).0@ == list@[j].model@
                    && latencies@[j].1 == list@[j].native_ttft_ms_p50,
        decreases list.len() - i,
    {
        rates.push((list[i].model.clone(), list[i].native_tps_p50));
        latencies.push((list[i].model.clone(), list[i].native_ttft_ms_p50));
        i = i + 1;
    }
    assert(pair_views(rates@) =~= native_rates(list@));
    assert(pair_views(latencies@) =~= native_latencies(list@));
    (collect_figures(rates.as_slice()), collect_figures(latencies.as_slice()))
}

/// The text of an optional string.
pub fn opt_as_str(s: &Option<String>) -> (r: Option<&str>)
    ensures
        crate::gpus::opt_str(r) == opt_text(*s),
{
    match s {
        Some(s) => Some(s.as_str()),
        None => None,
    }
}

/// Lists the GPUs that a peer announces.
fn peer_gpus(p: &PeerInfo) -> (r: Vec<GpuEntry>)
    ensures
        is_gpu_list(
            r@,
            nonempty(expanded(name_parts(opt_text(p.gpu_name)))),
            number_column(opt_text(p.gpu_vram)),
            number_column(opt_text(p.gpu_reserved_bytes)),
            p.gpu_mem_bandwidth_gbps@,
            p.gpu_compute_tflops_fp32@,
            p.gpu_compute_tflops_fp16@,
        ),
{
    build_gpus(
        opt_as_str(&p.gpu_name),
        opt_as_str(&p.gpu_vram),
        opt_as_str(&p.gpu_reserved_bytes),
        p.gpu_mem_bandwidth_gbps.as_slice(),
        p.gpu_compute_tflops_fp32.as_slice(),
        p.gpu_compute_tflops_fp16.as_slice(),
    )
}

/// Shows a peer.
pub fn build_peer_payload(
    p: &PeerInfo,
    all_peers: &[PeerInfo],
    verdicts: &[VerifyVerdictRecord],
    reputation: &[ReputationScore],
) -> (r: PeerPayload)
    ensures
        shows_peer(r, *p, all_peers@, verdicts@, reputation@),
{
    let split = classify_peer_split_role(p, all_peers);
    let mode = serving_mode_from_classification(p, &split);
    let (measured_tps, measured_ttft) = measured_figures(p.model_timings.as_slice());
    let (native_tps, native_ttft) = native_figures(p.native_baselines.as_slice());
    let fast = p.fast_memory_bytes();
    let role = match p.role {
        NodeRole::Worker => "Worker",
        NodeRole::Host { .. } => "Host",
        NodeRole::Client => "Client",
    };
    PeerPayload {
        id: p.short_id.clone(),
        owner: build_ownership_payload(&p.owner_summary),
        model_ad: build_model_ad_payload(&p.model_ad),
        verify_by_model: collect_verdicts(verdicts, p.id.as_str()),
        reputation_by_model: collect_reputation(reputation, p.id.as_str()),
        role: role.to_owned(),
        state: derive_peer_state(p),
        models: copy_texts(p.models.as_slice()),
        available_models: copy_texts(p.available_models.as_slice()),
        requested_models: copy_texts(p.requested_models.as_slice()),
        vram_gb: Gigabytes::from_bytes(fast),
        serving_models: copy_texts(p.serving_models.as_slice()),
        hosted_models: copy_texts(p.hosted_models.as_slice()),
        hosted_models_known: p.hosted_models_known,
        version: copy_opt(&p.version),
        rtt_ms: p.rtt_ms,
        inflight_requests: p.inflight_requests,
        system_ram_bytes: p.system_ram_bytes,
        hostname: copy_opt(&p.hostname),
        is_soc: p.is_soc,
        gpus: peer_gpus(p),
        capability: NodeCapabilityPayload::from_capability_with_usable_vram(&p.capability, fast),
        measured_tps_p50_by_model: measured_tps,
        measured_ttft_ms_p50_by_model: measured_ttft,
        native_tps_p50_by_model: native_tps,
        native_ttft_ms_p50_by_model: native_ttft,
        first_joined_mesh_ts: p.first_joined_mesh_ts,
        serving_mode: mode,
        split_role: split.role,
        split_group: split.group,
        moe_shard: split.moe_shard,
    }
}

/// Shows all peers, in their order.
pub fn build_peer_payloads(
    all_peers: &[PeerInfo],
    verdicts: &[VerifyVerdictRecord],
    reputation: &[ReputationScore],
) -> (r: Vec<PeerPayload>)
    ensures
        r@.len() == all_peers@.len(),
        forall|i: int|
            0 <= i < r@.len() ==> shows_peer(
                #[trigger] r@[i],
                all_peers@[i],
                all_peers@,
                verdicts@,
                reputation@,
            ),
{
    let mut r: Vec<PeerPayload> = Vec::new();
    let mut i: usize = 0;
    while i < all_peers.len()
        invariant
            i <= all_peers.len(),
            r.len() == i,
            forall|j: int|
                0 <= j < i ==> shows_peer(
                    #[trigger] r@[j],
                    all_peers@[j],
                    all_peers@,
                    verdicts@,
                    reputation@,
                ),
        decreases all_peers.len() - i,
    {
        r.push(build_peer_payload(&all_peers[i], all_peers, verdicts, reputation));
        i = i + 1;
    }
    r
}

/// Whether a sleeping node has been called.
#[derive(Debug, Clone, Copy, PartialEq, Eq, Structural)]
pub enum WakeableState {
    Sleeping,
    Waking,
}

/// The same, as it is shown.
#[derive(Debug, Clone, Copy, PartialEq, Eq, Structural)]
pub enum WakeableNodeState {
    Sleeping,
    Waking,
}

/// A node that can be woken. The memory is a single precision number, held as its
/// bit pattern.
#[derive(Debug)]
pub struct WakeableInventoryEntry {
    pub logical_id: String,
    pub models: Vec<String>,
    pub vram_gb: u32,
    pub provider: Option<String>,
    pub state: WakeableState,
    pub wake_eta_secs: Option<u32>,
}

/// A node that can be woken, as it is shown.
#[derive(Debug)]
pub struct WakeableNode {
    pub logical_id: String,
    pub models: Vec<String>,
    pub vram_gb: u32,
    pub provider: Option<String>,
    pub state: WakeableNodeState,
    pub wake_eta_secs: Option<u32>,
}

/// The node is shown as it stands in the inventory.
pub open spec fn shows_wakeable(r: WakeableNode, e: WakeableInventoryEntry) -> bool {
    &&& r.logical_id == e.logical_id
    &&& r.models == e.models
    &&& r.vram_gb == e.vram_gb
    &&& r.provider == e.provider
    &&& r.state == (match e.state {
        WakeableState::Sleeping => WakeableNodeState::Sleeping,
        WakeableState::Waking => WakeableNodeState::Waking,
    })
    &&& r.wake_eta_secs == e.wake_eta_secs
}

/// Shows a node that can be woken.
pub fn build_wakeable_node(entry: WakeableInventoryEntry) -> (r: WakeableNode)
    ensures
        shows_wakeable(r, entry),
{
    WakeableNode {
        logical_id: entry.logical_id,
        models: entry.models,
        vram_gb: entry.vram_gb,
        provider: entry.provider,
        state: match entry.state {
            WakeableState::Sleeping => WakeableNodeState::Sleeping,
            WakeableState::Waking => WakeableNodeState::Waking,
        },
        wake_eta_secs: entry.wake_eta_secs,
    }
}

/// Shows the nodes that can be woken, in their order.
pub fn build_wakeable_nodes(entries: Vec<WakeableInventoryEntry>) -> (r: Vec<WakeableNode>)
    ensures
        r@.len() == entries@.len(),
        forall|i: int| 0 <= i < r@.len() ==> shows_wakeable(#[trigger] r@[i], entries@[i]),
{
    let mut left = entries;
    let mut r: Vec<WakeableNode> = Vec::new();
    while left.len() > 0
        invariant
            r.len() + left.len() == entries@.len(),
            left@ =~= entries@.skip(r.len() as int),
            forall|i: int| 0 <= i < r@.len() ==> shows_wakeable(#[trigger] r@[i], entries@[i]),
        decreases left.len(),
    {
        let entry = left.remove(0);
        r.push(build_wakeable_node(entry));
    }
    r
}

/// A running instance on this machine.
#[derive(Debug)]
pub struct LocalInstance {
    pub pid: u32,
    pub api_port: Option<u16>,
    pub version: Option<String>,
    pub started_at_unix: i64,
    pub runtime_dir: String,
    pub is_self: bool,
}

/// The instances that were found, or this one alone if none was.
pub open spec fn are_instances(
    r: Seq<LocalInstance>,
    found: Seq<LocalInstance>,
    pid: u32,
    api_port: u16,
    version: Seq<char>,
) -> bool {
    if found.len() > 0 {
        r == found
    } else {
        &&& r.len() == 1
        &&& r[0].pid == pid
        &&& r[0].api_port == Some(api_port)
        &&& opt_text(r[0].version) == Some(version)
        &&& r[0].started_at_unix == 0
        &&& r[0].runtime_dir@.len() == 0
        &&& r[0].is_self
    }
}

/// The instances that were found, or this one alone if none was.
pub fn local_instances_or_self(
    found: Vec<LocalInstance>,
    pid: u32,
    api_port: u16,
    version: &str,
) -> (r: Vec<LocalInstance>)
    ensures
        are_instances(r@, found@, pid, api_port, version@),
{
    let mut list = found;
    if list.is_empty() {
        list.push(
            LocalInstance {
                pid,
                api_port: Some(api_port),
                version: Some(version.to_owned()),
                started_at_unix: 0,
                runtime_dir: String::new(),
                is_self: true,
            },
        );
    }
    list
}

/// A peer with a ready runtime of a named model serves, wherever that stands in its
/// list. With runtimes of named models that are all not ready it loads.
pub proof fn law_runtimes_decide(p: PeerInfo, i: int)
    requires
        !(p.role is Client),
        0 <= i < p.served_model_runtime@.len(),
        says_something(p.served_model_runtime@[i].model_name@),
    ensures
        p.served_model_runtime@[i].ready ==> peer_state(p) == NodeState::Serving,
        (forall|j: int|
            0 <= j < p.served_model_runtime@.len() ==> !(
            #[trigger] p.served_model_runtime@[j]).ready) ==> peer_state(p) == NodeState::Loading,
{
    let list = p.served_model_runtime@;
    assert(says_something(list[i].model_name@));
    if forall|j: int| 0 <= j < list.len() ==> !(#[trigger] list[j]).ready {
        if has_ready_runtime(list) {
            let k = choose|k: int|
                0 <= k < list.len() && (#[trigger] list[k]).ready && says_something(
                    list[k].model_name@,
                );
            assert(!list[k].ready);
        }
    }
}

/// A peer without runtimes serves if it lists a named model as hosted, anywhere in the
/// list. If it hosts none but lists one to serve, it loads if it tells which models it
/// hosts, and is taken at its word otherwise.
pub proof fn law_lists_decide_without_runtimes(p: PeerInfo, i: int)
    requires
        !(p.role is Client),
        forall|j: int|
            0 <= j < p.served_model_runtime@.len() ==> !says_something(
                (#[trigger] p.served_model_runtime@[j]).model_name@,
            ),
    ensures
        0 <= i < p.hosted_models@.len() && says_something(p.hosted_models@[i]@) ==> peer_state(p)
            == NodeState::Serving,
        (forall|j: int|
            0 <= j < p.hosted_models@.len() ==> !says_something((#[trigger] p.hosted_models@[j])@))
            && 0 <= i < p.serving_models@.len() && says_something(p.serving_models@[i]@)
            ==> peer_state(p) == (if p.hosted_models_known {
            NodeState::Loading
        } else {
            NodeState::Serving
        }),
{
    let list = p.served_model_runtime@;
    if has_runtime(list) {
        let k = choose|k: int| 0 <= k < list.len() && says_something((#[trigger] list[k]).model_name@);
        assert(!says_something(list[k].model_name@));
    }
    if has_ready_runtime(list) {
        let k = choose|k: int|
            0 <= k < list.len() && (#[trigger] list[k]).ready && says_something(
                list[k].model_name@,
            );
        assert(!says_something(list[k].model_name@));
    }
    let hosted = texts(p.hosted_models@);
    let serving = texts(p.serving_models@);
    if 0 <= i < p.hosted_models@.len() && says_something(p.hosted_models@[i]@) {
        assert(says_something(hosted[i]));
    }
    if 0 <= i < p.serving_models@.len() && says_something(p.serving_models@[i]@) {
        assert(says_something(serving[i]));
    }
    if forall|j: int|
        0 <= j < p.hosted_models@.len() ==> !says_something((#[trigger] p.hosted_models@[j])@) {
        if any_says_something(hosted) {
            let k = choose|k: int| 0 <= k < hosted.len() && says_something(#[trigger] hosted[k]);
            assert(says_something(p.hosted_models@[k]@));
        }
    }
}

/// The local node serves what it hosts or works on once it is ready, and loads it until
/// then. Without a named model or any part in one it stands by, and a client is a
/// client.
pub proof fn law_local_states(
    is_host: bool,
    ready: bool,
    worker_activity: bool,
    model_name: Seq<char>,
)
    ensures
        local_state(true, is_host, ready, worker_activity, model_name) == NodeState::Client,
        says_something(model_name) ==> {
            &&& local_state(false, true, true, worker_activity, model_name) == NodeState::Serving
            &&& local_state(false, is_host, true, true, model_name) == NodeState::Serving
            &&& local_state(false, true, false, worker_activity, model_name) == NodeState::Loading
            &&& local_state(false, is_host, false, true, model_name) == NodeState::Loading
        },
        local_state(false, false, ready, false, model_name) == NodeState::Standby,
        !says_something(model_name) ==> local_state(
            false,
            is_host,
            ready,
            worker_activity,
            model_name,
        ) == NodeState::Standby,
{
}

/// The last verdict on a model of a peer is the one that is shown, with all that it
/// says, and none is shown where there is none.
pub proof fn law_last_verdict_is_shown(
    records: Seq<VerifyVerdictRecord>,
    peer_id: Seq<char>,
    model: Seq<char>,
    i: int,
)
    requires
        -1 <= i < records.len(),
        i >= 0 ==> records[i].peer_id@ == peer_id && records[i].model@ == model,
        forall|j: int|
            i < j < records.len() && (#[trigger] records[j]).peer_id@ == peer_id
                ==> records[j].model@ != model,
    ensures
        verdicts_on(records, peer_id).contains_key(model) <==> i >= 0,
        i >= 0 ==> {
            let shown = verdicts_on(records, peer_id)[model];
            &&& shown.verdict == records[i].verdict@
            &&& shown.agreement == records[i].agreement
            &&& shown.compared_tokens == records[i].compared_tokens
            &&& shown.mode == records[i].mode@
            &&& shown.reason == opt_text(records[i].reason)
            &&& shown.checked_at_unix_secs == records[i].checked_at_unix_secs
        },
    decreases records.len(),
{
    if records.len() > 0 && i < records.len() - 1 {
        let head = records.drop_last();
        let last = records[records.len() - 1];
        assert forall|j: int| i < j < head.len() && (#[trigger] head[j]).peer_id@ == peer_id implies
            head[j].model@ != model by {
            assert(head[j] == records[j]);
        }
        law_last_verdict_is_shown(head, peer_id, model, i);
    }
}

/// The last reputation of a model of a peer is the one that is shown, with all that it
/// says, and none is shown where there is none.
pub proof fn law_last_reputation_is_shown(
    records: Seq<ReputationScore>,
    peer_id: Seq<char>,
    model: Seq<char>,
    i: int,
)
    requires
        -1 <= i < records.len(),
        i >= 0 ==> records[i].peer_id@ == peer_id && records[i].model@ == model,
        forall|j: int|
            i < j < records.len() && (#[trigger] records[j]).peer_id@ == peer_id
                ==> records[j].model@ != model,
    ensures
        reputation_of(records, peer_id).contains_key(model) <==> i >= 0,
        i >= 0 ==> {
            let shown = reputation_of(records, peer_id)[model];
            &&& shown.grade == records[i].grade@
            &&& shown.score == records[i].score
            &&& shown.samples == records[i].samples
            &&& shown.matches == records[i].matches
            &&& shown.mismatches == records[i].mismatches
            &&& shown.last_verdict == records[i].last_verdict@
            &&& shown.updated_at_unix_secs == records[i].updated_at_unix_secs
        },
    decreases records.len(),
{
    if records.len() > 0 && i < records.len() - 1 {
        let head = records.drop_last();
        let last = records[records.len() - 1];
        assert forall|j: int| i < j < head.len() && (#[trigger] head[j]).peer_id@ == peer_id implies
            head[j].model@ != model by {
            assert(head[j] == records[j]);
        }
        law_last_reputation_is_shown(head, peer_id, model, i);
    }
}

/// The last figure of a model counts, and a model without one has none.
pub proof fn law_last_figure_counts(pairs: Seq<(Seq<char>, u64)>, model: Seq<char>, i: int)
    requires
        -1 <= i < pairs.len(),
        i >= 0 ==> pairs[i].0 == model,
        forall|j: int| i < j < pairs.len() ==> (#[trigger] pairs[j]).0 != model,
    ensures
        figures(pairs).contains_key(model) <==> i >= 0,
        i >= 0 ==> figures(pairs)[model] == pairs[i].1,
    decreases pairs.len(),
{
    if pairs.len() > 0 && i < pairs.len() - 1 {
        let head = pairs.drop_last();
        let last = pairs[pairs.len() - 1];
        assert forall|j: int| i < j < head.len() implies (#[trigger] head[j]).0 != model by {
            assert(head[j] == pairs[j]);
        }
        law_last_figure_counts(head, model, i);
    }
}

/// What a peer's last measurement of a model says is shown under the model: the rate as
/// the rate and the latency as the latency, the measured ones apart from the native.
pub proof fn law_peer_figures_are_shown(
    r: PeerPayload,
    p: PeerInfo,
    all: Seq<PeerInfo>,
    verdicts: Seq<VerifyVerdictRecord>,
    reputation: Seq<ReputationScore>,
    i: int,
    k: int,
)
    requires
        shows_peer(r, p, all, verdicts, reputation),
        0 <= i < p.model_timings@.len(),
        forall|j: int|
            i < j < p.model_timings@.len() ==> (#[trigger] p.model_timings@[j]).model@
                != p.model_timings@[i].model@,
        0 <= k < p.native_baselines@.len(),
        forall|j: int|
            k < j < p.native_baselines@.len() ==> (#[trigger] p.native_baselines@[j]).model@
                != p.native_baselines@[k].model@,
    ensures
        ({
            let (timed, native) = (p.model_timings@[i], p.native_baselines@[k]);
            &&& r.measured_tps_p50_by_model@.contains_key(timed.model@)
            &&& r.measured_tps_p50_by_model@[timed.model@] == timed.measured_tps_p50
            &&& r.measured_ttft_ms_p50_by_model@[timed.model@] == timed.measured_ttft_ms_p50
            &&& r.native_tps_p50_by_model@.contains_key(native.model@)
            &&& r.native_tps_p50_by_model@[native.model@] == native.native_tps_p50
            &&& r.native_ttft_ms_p50_by_model@[native.model@] == native.native_ttft_ms_p50
        }),
{
    let (a, b) = (timing_rates(p.model_timings@), timing_latencies(p.model_timings@));
    let (c, d) = (native_rates(p.native_baselines@), native_latencies(p.native_baselines@));
    let (m, n) = (p.model_timings@[i].model@, p.native_baselines@[k].model@);
    assert forall|j: int| i < j < a.len() implies (#[trigger] a[j]).0 != m by {
        assert(p.model_timings@[j].model@ != m);
    }
    assert forall|j: int| i < j < b.len() implies (#[trigger] b[j]).0 != m by {
        assert(p.model_timings@[j].model@ != m);
    }
    assert forall|j: int| k < j < c.len() implies (#[trigger] c[j]).0 != n by {
        assert(p.native_baselines@[j].model@ != n);
    }
    assert forall|j: int| k < j < d.len() implies (#[trigger] d[j]).0 != n by {
        assert(p.native_baselines@[j].model@ != n);
    }
    law_last_figure_counts(a, m, i);
    law_last_figure_counts(b, m, i);
    law_last_figure_counts(c, n, k);
    law_last_figure_counts(d, n, k);
}

/// A shown memory is the announced one or the cap on it, whichever is less. A total
/// that is not announced is taken from the usable memory, and without usable memory
/// all is shown as announced.
pub proof fn law_shown_memory_is_the_lesser(r: NodeCapabilityPayload, c: NodeCapability, usable: u64)
    requires
        shows_capability(r, c, usable),
    ensures
        usable == 0 ==> r.vram_total_mb == c.vram_total_mb && r.vram_free_mb == c.vram_free_mb,
        usable > 0 && c.vram_total_mb == 0 ==> r.vram_total_mb == usable / 1_048_576,
        usable > 0 && c.vram_total_mb > 0 ==> {
            &&& r.vram_total_mb <= c.vram_total_mb && r.vram_total_mb <= usable / 1_048_576
            &&& r.vram_total_mb == c.vram_total_mb || r.vram_total_mb == usable / 1_048_576
        },
        usable > 0 ==> {
            &&& r.vram_free_mb <= c.vram_free_mb && r.vram_free_mb <= r.vram_total_mb
            &&& r.vram_free_mb == c.vram_free_mb || r.vram_free_mb == r.vram_total_mb
        },
        r.can_serve_max_gb == c.can_serve_max_gb,
{
}

/// What a peer announces is shown in the place of the same name, lists item by item.
pub proof fn law_peer_lists_are_shown(
    r: PeerPayload,
    p: PeerInfo,
    all: Seq<PeerInfo>,
    verdicts: Seq<VerifyVerdictRecord>,
    reputation: Seq<ReputationScore>,
    i: int,
)
    requires
        shows_peer(r, p, all, verdicts, reputation),
    ensures
        0 <= i < p.models@.len() ==> r.models@[i]@ == p.models@[i]@,
        0 <= i < p.available_models@.len() ==> r.available_models@[i]@ == p.available_models@[i]@,
        0 <= i < p.requested_models@.len() ==> r.requested_models@[i]@ == p.requested_models@[i]@,
        0 <= i < p.serving_models@.len() ==> r.serving_models@[i]@ == p.serving_models@[i]@,
        0 <= i < p.hosted_models@.len() ==> r.hosted_models@[i]@ == p.hosted_models@[i]@,
        r.models@.len() == p.models@.len(),
        r.serving_models@.len() == p.serving_models@.len(),
        r.hosted_models@.len() == p.hosted_models@.len(),
        r.id@ == p.short_id@,
        r.rtt_ms == p.rtt_ms && r.inflight_requests == p.inflight_requests,
        r.system_ram_bytes == p.system_ram_bytes && r.is_soc == p.is_soc,
        r.first_joined_mesh_ts == p.first_joined_mesh_ts,
        r.owner.verified == p.owner_summary.verified && r.model_ad.verified == p.model_ad.verified,
{
    lemma_same_texts(r.models@, p.models@);
    lemma_same_texts(r.available_models@, p.available_models@);
    lemma_same_texts(r.requested_models@, p.requested_models@);
    lemma_same_texts(r.serving_models@, p.serving_models@);
    lemma_same_texts(r.hosted_models@, p.hosted_models@);
}

proof fn lemma_same_texts(a: Seq<String>, b: Seq<String>)
    requires
        texts(a) == texts(b),
    ensures
        a.len() == b.len(),
        forall|i: int| #![trigger a[i]] #![trigger b[i]] 0 <= i < a.len() ==> a[i]@ == b[i]@,
{
    let (x, y) = (texts(a), texts(b));
    assert(x.len() == a.len());
    assert(y.len() == b.len());
    assert forall|i: int| 0 <= i < a.len() implies #[trigger] a[i]@ == b[i]@ by {
        assert(x[i] == a[i]@);
        assert(y[i] == b[i]@);
    }
}

/// All instances that were found are listed, and this one stands for itself only if
/// none was.
pub proof fn law_found_instances_are_listed(
    r: Seq<LocalInstance>,
    found: Seq<LocalInstance>,
    pid: u32,
    api_port: u16,
    version: Seq<char>,
    i: int,
)
    requires
        are_instances(r, found, pid, api_port, version),
    ensures
        r.len() > 0,
        0 <= i < found.len() ==> r.len() == found.len() && r[i] == found[i],
        found.len() == 0 ==> r.len() == 1 && r[0].is_self && r[0].pid == pid && r[0].api_port
            == Some(api_port),
{
}

/// How an ownership certificate was judged is shown under its own word.
pub proof fn law_ownership_is_shown_by_its_word(r: OwnershipPayload, s: OwnershipSummary)
    requires
        shows_ownership(r, s),
    ensures
        s.status is Verified ==> r.status@ == "verified"@,
        s.status is Unsigned ==> r.status@ == "unsigned"@,
        s.status is Expired ==> r.status@ == "expired"@,
        s.status is InvalidSignature ==> r.status@ == "invalid_signature"@,
        s.status is MismatchedNodeId ==> r.status@ == "mismatched_node_id"@,
        s.status is RevokedOwner ==> r.status@ == "revoked_owner"@,
        s.status is RevokedCert ==> r.status@ == "revoked_cert"@,
        s.status is RevokedNodeId ==> r.status@ == "revoked_node_id"@,
        s.status is UnsupportedProtocol ==> r.status@ == "unsupported_protocol"@,
        s.status is UntrustedOwner ==> r.status@ == "untrusted_owner"@,
        opt_text(r.owner_id) == opt_text(s.owner_id),
        opt_text(r.cert_id) == opt_text(s.cert_id),
        opt_text(r.node_label) == opt_text(s.node_label),
        opt_text(r.hostname_hint) == opt_text(s.hostname_hint),
        r.expires_at_unix_ms == s.expires_at_unix_ms,
{
}

/// What came of checking an advertisement is shown under its own word, with the owner,
/// the time and the number of models that it gives.
pub proof fn law_advertisement_is_shown_by_its_word(r: ModelAdPayload, s: ModelAdSummary)
    requires
        shows_model_ad(r, s),
    ensures
        s.status is Verified ==> r.status@ == "verified"@,
        s.status is Unsigned ==> r.status@ == "unsigned"@,
        s.status is InvalidSignature ==> r.status@ == "invalid_signature"@,
        s.status is MismatchedNodeId ==> r.status@ == "mismatched_node_id"@,
        s.status is Stale ==> r.status@ == "stale"@,
        s.status is RevokedOwner ==> r.status@ == "revoked_owner"@,
        s.status is UntrustedOwner ==> r.status@ == "untrusted_owner"@,
        s.status is UnsupportedProtocol ==> r.status@ == "unsupported_protocol"@,
        opt_text(r.owner_id) == opt_text(s.owner_id),
        r.issued_at_unix_ms == s.issued_at_unix_ms,
        r.model_count == s.model_count,
        r.verified == s.verified,
{
}

/// The role of a peer is shown under its own word, and so is the state of a node.
pub proof fn law_roles_and_states_are_shown_by_their_words(
    r: PeerPayload,
    p: PeerInfo,
    all: Seq<PeerInfo>,
    verdicts: Seq<VerifyVerdictRecord>,
    reputation: Seq<ReputationScore>,
    state: NodeState,
)
    requires
        shows_peer(r, p, all, verdicts, reputation),
    ensures
        p.role is Worker ==> r.role@ == "Worker"@,
        p.role is Host ==> r.role@ == "Host"@,
        p.role is Client ==> r.role@ == "Client"@,
        state is Client ==> state.alias() == "Client"@,
        state is Standby ==> state.alias() == "Standby"@,
        state is Loading ==> state.alias() == "Loading"@,
        state is Serving ==> state.alias() == "Serving"@,
{
}

/// The memory that a peer is shown with is its fast memory: with whole gigabytes it is
/// exactly that.
pub proof fn law_peer_memory_is_its_fast_memory(
    r: PeerPayload,
    p: PeerInfo,
    all: Seq<PeerInfo>,
    verdicts: Seq<VerifyVerdictRecord>,
    reputation: Seq<ReputationScore>,
    g: nat,
)
    requires
        shows_peer(r, p, all, verdicts, reputation),
        g <= 4_000_000_000,
        p.fast_memory() == g * 1_000_000_000,
    ensures
        r.vram_gb.units() == g * vstd::arithmetic::power2::pow2(90),
        r.capability.vram_total_mb * 1_048_576 <= p.fast_memory() || p.fast_memory() == 0,
{
    crate::gigabytes::law_whole_gigabytes(g);
}

/// A node that can be woken is shown with all that the inventory says of it.
pub proof fn law_wakeable_nodes_are_shown(r: WakeableNode, e: WakeableInventoryEntry)
    requires
        shows_wakeable(r, e),
    ensures
        r.logical_id@ == e.logical_id@,
        texts(r.models@) == texts(e.models@),
        r.vram_gb == e.vram_gb,
        opt_text(r.provider) == opt_text(e.provider),
        r.wake_eta_secs == e.wake_eta_secs,
        r.state is Waking <==> e.state is Waking,
{
}

} // verus!
