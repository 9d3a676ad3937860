//! Peers as the mesh gossips them.

use vstd::prelude::*;

use crate::baseline::NativeBaselineEntry;
use crate::model_ad::ModelAdSummary;
use crate::text::{any_text, texts, trim, trimmed};
use crate::text_map::TextMap;

verus! {

/// What a node does in the mesh.
#[derive(Debug, Clone, Copy, PartialEq, Eq, Structural)]
pub enum NodeRole {
    Worker,
    Host { http_port: u16 },
    Client,
}

/// What a node's hardware can do. The labels are short fixed words.
#[derive(Debug)]
pub struct NodeCapability {
    pub backend: String,
    pub vendor: String,
    pub compute_class: String,
    pub vram_total_mb: u64,
    pub vram_free_mb: u64,
    pub can_serve_max_gb: u64,
    pub loaded_models: Vec<String>,
}

impl Default for NodeCapability {
    fn default() -> (r: NodeCapability)
        ensures
            r.backend@.len() == 0,
            r.vendor@.len() == 0,
            r.compute_class@.len() == 0,
            r.vram_total_mb == 0,
            r.vram_free_mb == 0,
            r.can_serve_max_gb == 0,
            r.loaded_models@.len() == 0,
    {
        NodeCapability {
            backend: String::new(),
            vendor: String::new(),
            compute_class: String::new(),
            vram_total_mb: 0,
            vram_free_mb: 0,
            can_serve_max_gb: 0,
            loaded_models: Vec::new(),
        }
    }
}

/// What a peer says of one model that it runs.
#[derive(Debug)]
pub struct ModelRuntimeDescriptor {
    pub model_name: String,
    pub identity_hash: Option<String>,
    pub context_length: Option<u32>,
    pub ready: bool,
}

/// A per-model measurement of real traffic. The rate is a double precision
/// number, held as its bit pattern.
#[derive(Debug)]
pub struct ModelTiming {
    pub model: String,
    pub measured_tps_p50: u64,
    pub measured_ttft_ms_p50: u64,
}

/// How a node's ownership certificate was judged.
#[derive(Debug, Clone, Copy, PartialEq, Eq, Structural)]
pub enum OwnershipStatus {
    Verified,
    Unsigned,
    Expired,
    InvalidSignature,
    MismatchedNodeId,
    RevokedOwner,
    RevokedCert,
    RevokedNodeId,
    UnsupportedProtocol,
    UntrustedOwner,
}

/// Whose node a peer is.
#[derive(Debug)]
pub struct OwnershipSummary {
    pub owner_id: Option<String>,
    pub cert_id: Option<String>,
    pub status: OwnershipStatus,
    pub verified: bool,
    pub expires_at_unix_ms: Option<u64>,
    pub node_label: Option<String>,
    pub hostname_hint: Option<String>,
}

impl Default for OwnershipSummary {
    fn default() -> (r: OwnershipSummary)
        ensures
            r.owner_id is None,
            r.cert_id is None,
            r.status == OwnershipStatus::Unsigned,
            !r.verified,
            r.expires_at_unix_ms is None,
            r.node_label is None,
            r.hostname_hint is None,
    {
        OwnershipSummary {
            owner_id: None,
            cert_id: None,
            status: OwnershipStatus::Unsigned,
            verified: false,
            expires_at_unix_ms: None,
            node_label: None,
            hostname_hint: None,
        }
    }
}

/// What a model file says of itself.
#[derive(Debug)]
pub struct ModelMetadata {
    pub model_key: String,
    pub architecture: String,
    pub context_length: u32,
    pub quantization_type: String,
    pub is_moe: bool,
    pub expert_count: u32,
    pub used_expert_count: u32,
}

/// A peer as it announces itself.
#[derive(Debug)]
pub struct PeerInfo {
    pub id: String,
    pub short_id: String,
    pub role: NodeRole,
    pub models: Vec<String>,
    pub available_models: Vec<String>,
    pub requested_models: Vec<String>,
    pub vram_bytes: u64,
    pub serving_models: Vec<String>,
    pub hosted_models: Vec<String>,
    /// Whether the peer announced `hosted_models` at all. Older peers do not.
    pub hosted_models_known: bool,
    pub version: Option<String>,
    pub rtt_ms: Option<u32>,
    pub inflight_requests: u64,
    pub system_ram_bytes: u64,
    pub hostname: Option<String>,
    pub is_soc: Option<bool>,
    pub gpu_name: Option<String>,
    pub gpu_vram: Option<String>,
    pub gpu_reserved_bytes: Option<String>,
    /// One cell per GPU, as the bit pattern of a double precision number; none
    /// where the announced cell is no number.
    pub gpu_mem_bandwidth_gbps: Vec<Option<u64>>,
    pub gpu_compute_tflops_fp32: Vec<Option<u64>>,
    pub gpu_compute_tflops_fp16: Vec<Option<u64>>,
    pub available_model_sizes: TextMap<u64>,
    pub available_model_metadata: Vec<ModelMetadata>,
    pub served_model_runtime: Vec<ModelRuntimeDescriptor>,
    pub model_timings: Vec<ModelTiming>,
    pub native_baselines: Vec<NativeBaselineEntry>,
    pub first_joined_mesh_ts: Option<u64>,
    pub capability: NodeCapability,
    pub owner_summary: OwnershipSummary,
    pub model_ad: ModelAdSummary,
}

/// The memory that a node can run a model from at full speed: what it
/// advertises, capped by what its hardware reports, if that is known.
pub open spec fn fast_memory(vram_bytes: u64, vram_total_mb: u64) -> int {
    if vram_total_mb > 0 && vram_total_mb * 1_048_576 < vram_bytes {
        vram_total_mb * 1_048_576
    } else {
        vram_bytes as int
    }
}

impl PeerInfo {
    /// The models that the peer says it can answer for. Peers that do not
    /// announce hosted models answer for what they serve.
    pub open spec fn routable(&self) -> Seq<Seq<char>> {
        if self.hosted_models_known {
            texts(self.hosted_models@)
        } else {
            texts(self.serving_models@)
        }
    }

    /// The peer answers requests for the model over HTTP.
    pub open spec fn routes(&self, model: Seq<char>) -> bool {
        self.role is Host && self.routable().contains(model)
    }

    /// The peer takes part in serving the model.
    pub open spec fn is_assigned(&self, model: Seq<char>) -> bool {
        texts(self.serving_models@).contains(model) || texts(self.hosted_models@).contains(model)
    }

    /// The peer's fast memory in bytes.
    pub open spec fn fast_memory(&self) -> int {
        fast_memory(self.vram_bytes, self.capability.vram_total_mb)
    }

    /// The memory that the peer can run a model from at full speed.
    pub fn fast_memory_bytes(&self) -> (bytes: u64)
        ensures
            bytes == self.fast_memory(),
    {
        let reported: u128 = self.capability.vram_total_mb as u128 * 1_048_576;
        if self.capability.vram_total_mb > 0 && reported < self.vram_bytes as u128 {
            reported as u64
        } else {
            self.vram_bytes
        }
    }

    /// The models that the peer says it can answer for.
    pub fn routable_models(&self) -> (r: &Vec<String>)
        ensures
            texts(r@) == self.routable(),
    {
        if self.hosted_models_known {
            &self.hosted_models
        } else {
            &self.serving_models
        }
    }

    /// Whether the peer answers requests for the model over HTTP.
    pub fn routes_http_model(&self, model: &str) -> (r: bool)
        ensures
            r == self.routes(model@),
    {
        match self.role {
            NodeRole::Host { .. } => any_text(self.routable_models().as_slice(), model),
            _ => false,
        }
    }

    /// Whether the peer takes part in serving the model.
    pub fn is_assigned_model(&self, model: &str) -> (r: bool)
        ensures
            r == self.is_assigned(model@),
    {
        any_text(self.serving_models.as_slice(), model) || any_text(
            self.hosted_models.as_slice(),
            model,
        )
    }
}

/// A text that holds more than white space.
pub open spec fn says_something(text: Seq<char>) -> bool {
    trimmed(text).len() > 0
}

/// One of the texts holds more than white space.
pub open spec fn any_says_something(list: Seq<Seq<char>>) -> bool {
    exists|i: int| 0 <= i < list.len() && says_something(#[trigger] list[i])
}

/// Whether a text holds more than white space.
pub fn nonblank(text: &str) -> (r: bool)
    ensures
        r == says_something(text@),
{
    let chars = crate::text::chars_of(text);
    trim(chars.as_slice()).len() > 0
}

/// Whether one of the strings holds more than white space.
pub fn any_nonblank(list: &[String]) -> (r: bool)
    ensures
        r == any_says_something(texts(list@)),
{
    let mut i: usize = 0;
    while i < list.len()
        invariant
            i <= list.len(),
            forall|j: int| 0 <= j < i ==> !says_something(#[trigger] texts(list@)[j]),
        decreases list.len() - i,
    {
        assert(texts(list@)[i as int] == list@[i as int]@);
        if nonblank(list[i].as_str()) {
            return true;
        }
        i = i + 1;
    }
    false
}

/// A peer answers for a model exactly if it is a host and lists the model, at any
/// place, among what it hosts, or among what it serves if it announces no hosted
/// models.
pub proof fn law_hosts_answer_for_what_they_list(p: PeerInfo, model: Seq<char>, i: int)
    ensures
        p.role is Host && p.hosted_models_known && 0 <= i < p.hosted_models@.len()
            && p.hosted_models@[i]@ == model ==> p.routes(model),
        p.role is Host && !p.hosted_models_known && 0 <= i < p.serving_models@.len()
            && p.serving_models@[i]@ == model ==> p.routes(model),
        p.routes(model) ==> p.role is Host && exists|k: int|
            if p.hosted_models_known {
                0 <= k < p.hosted_models@.len() && p.hosted_models@[k]@ == model
            } else {
                0 <= k < p.serving_models@.len() && p.serving_models@[k]@ == model
            },
{
    let (hosted, serving) = (texts(p.hosted_models@), texts(p.serving_models@));
    if 0 <= i < hosted.len() {
        assert(hosted[i] == p.hosted_models@[i]@);
    }
    if 0 <= i < serving.len() {
        assert(serving[i] == p.serving_models@[i]@);
    }
    if p.routes(model) {
        let list = p.routable();
        let k = choose|k: int| 0 <= k < list.len() && list[k] == model;
        if p.hosted_models_known {
            assert(hosted[k] == p.hosted_models@[k]@);
        } else {
            assert(serving[k] == p.serving_models@[k]@);
        }
    }
}

/// A peer takes part in serving a model exactly if it lists the model, at any place,
/// among what it serves or hosts.
pub proof fn law_peers_take_part_in_what_they_list(p: PeerInfo, model: Seq<char>, i: int)
    ensures
        0 <= i < p.serving_models@.len() && p.serving_models@[i]@ == model ==> p.is_assigned(model),
        0 <= i < p.hosted_models@.len() && p.hosted_models@[i]@ == model ==> p.is_assigned(model),
        p.is_assigned(model) ==> exists|k: int|
            (0 <= k < p.serving_models@.len() && p.serving_models@[k]@ == model) || (0 <= k
                < p.hosted_models@.len() && p.hosted_models@[k]@ == model),
{
    let (hosted, serving) = (texts(p.hosted_models@), texts(p.serving_models@));
    if 0 <= i < hosted.len() {
        assert(hosted[i] == p.hosted_models@[i]@);
    }
    if 0 <= i < serving.len() {
        assert(serving[i] == p.serving_models@[i]@);
    }
    if serving.contains(model) {
        let k = choose|k: int| 0 <= k < serving.len() && serving[k] == model;
        assert(p.serving_models@[k]@ == model);
    } else if hosted.contains(model) {
        let k = choose|k: int| 0 <= k < hosted.len() && hosted[k] == model;
        assert(p.hosted_models@[k]@ == model);
    }
}

/// Fast memory is what is advertised, and never more than what the hardware reports, in
/// units of 1024 times 1024 bytes, if it reports anything: the smaller of the two.
pub proof fn law_fast_memory_is_capped(p: PeerInfo)
    ensures
        p.fast_memory() <= p.vram_bytes,
        p.capability.vram_total_mb > 0 ==> p.fast_memory() <= p.capability.vram_total_mb * 1024
            * 1024,
        p.fast_memory() == p.vram_bytes || (p.capability.vram_total_mb > 0 && p.fast_memory()
            == p.capability.vram_total_mb * 1024 * 1024),
{
}

/// A text says something exactly if one of its characters is no white space.
pub proof fn law_a_character_says_something(text: Seq<char>)
    ensures
        says_something(text) <==> exists|i: int|
            0 <= i < text.len() && !crate::text::is_space(#[trigger] text[i]),
{
    let (from, to) = crate::text::law_trimming(text);
    if from < to {
        assert(!crate::text::is_space(text[from]));
    } else {
        assert forall|i: int| 0 <= i < text.len() implies crate::text::is_space(
            #[trigger] text[i],
        ) by {}
    }
}

} // verus!
