//! The state of the management API and what it shows.

use vstd::prelude::*;

use crate::baseline::NativeBaselineEntry;
use crate::gigabytes::{units_of_bytes, Gigabytes};
use crate::gpus::{build_gpus, expanded, is_gpu_list, name_parts, number_column, GpuEntry};
use crate::interests::{
    is_listing, submitted, InterestView, LocalModelInterest, ModelInterests,
};
use crate::peers::{ModelTiming, NodeCapability, OwnershipSummary, PeerInfo};
use crate::runtime::{
    build_runtime_processes_payload, build_runtime_status_payload, listed, models, processes,
    runtime_models, ProcessView, RuntimeProcessPayload, RuntimeProcessesPayload,
    RuntimeStatusPayload,
};
use crate::split::{
    classify_local_split_role, local_split, MoeShardPayload, PeerSplitClassification,
    SplitGroupPayload,
};
use crate::status::{
    are_instances, build_ownership_payload, build_peer_payloads, build_wakeable_nodes, derive_local_node_state,
    figures, local_instances_or_self, local_state, measured_figures, native_figures,
    native_latencies, native_rates, opt_as_str, shows_capability, shows_no_capability, shows_ownership, shows_peer,
    shows_wakeable, timing_latencies, timing_rates, LocalInstance, NodeCapabilityPayload,
    NodeState, OwnershipPayload, PeerPayload, ReputationScore, VerifyVerdictRecord,
    WakeableInventoryEntry, WakeableNode,
};
use crate::text::{copy_opt, decimal, decimal_text, nonempty, opt_text, same_text, texts};
use crate::text_map::TextMap;
use crate::visibility::MeshVisibilitySnapshot;

verus! {

/// How publishing the mesh went.
#[derive(Debug, Clone, Copy, PartialEq, Eq, Structural)]
pub enum PublicationState {
    Private,
    Public,
    PublishFailed,
}

impl PublicationState {
    /// The word for the state.
    pub open spec fn word(self) -> Seq<char> {
        match self {
            PublicationState::Private => "private"@,
            PublicationState::Public => "public"@,
            PublicationState::PublishFailed => "publish_failed"@,
        }
    }

    /// The word for the state.
    pub fn as_str(self) -> (r: &'static str)
        ensures
            r@ == self.word(),
    {
        match self {
            PublicationState::Private => "private",
            PublicationState::Public => "public",
            PublicationState::PublishFailed => "publish_failed",
        }
    }
}

/// Where the election sends requests for the primary model.
#[derive(Debug)]
pub enum InferenceTarget {
    /// To a server on this machine.
    Local(u16),
    /// To a peer.
    Remote(String),
    /// To a server of a shard on this machine.
    MoeLocal(u16),
    /// To a peer with a shard.
    MoeRemote(String),
    /// Nowhere.
    Nowhere,
}

/// The state of the management API.
#[derive(Debug)]
pub struct MeshApi {
    pub headless: bool,
    pub is_host: bool,
    pub is_client: bool,
    pub llama_ready: bool,
    pub llama_port: Option<u16>,
    pub model_name: String,
    pub primary_backend: Option<String>,
    pub draft_name: Option<String>,
    pub api_port: u16,
    pub model_size_bytes: u64,
    pub mesh_name: Option<String>,
    pub latest_version: Option<String>,
    pub nostr_relays: Vec<String>,
    pub nostr_discovery: bool,
    pub publication_state: PublicationState,
    pub local_processes: Vec<RuntimeProcessPayload>,
    pub interests: ModelInterests,
    /// Somebody is looking through the model files of this machine.
    pub inventory_scan_running: bool,
}

/// The processes but those of the given name.
pub open spec fn without_process(list: Seq<ProcessView>, name: Seq<char>) -> Seq<ProcessView>
    decreases list.len(),
{
    if list.len() == 0 {
        list
    } else if list.last().name == name {
        without_process(list.drop_last(), name)
    } else {
        without_process(list.drop_last(), name).push(list.last())
    }
}

/// Copies the processes but those of the given name.
fn keep_others(list: &[RuntimeProcessPayload], name: &str) -> (r: Vec<RuntimeProcessPayload>)
    ensures
        processes(r@) == without_process(processes(list@), name@),
{
    let mut r: Vec<RuntimeProcessPayload> = Vec::new();
    let ghost all = processes(list@);
    let mut i: usize = 0;
    assert(processes(r@) =~= without_process(all.take(0), name@));
    while i < list.len()
        invariant
            i <= list.len(),
            all == processes(list@),
            processes(r@) == without_process(all.take(i as int), name@),
        decreases list.len() - i,
    {
        assert(all.take(i + 1).drop_last() =~= all.take(i as int));
        assert(all.take(i + 1).last() == list@[i as int]@);
        if !same_text(list[i].name.as_str(), name) {
            let ghost before = r@;
            let copy = list[i].clone();
            r.push(copy);
            assert(processes(r@) =~= processes(before).push(copy@));
        }
        i = i + 1;
    }
    assert(all.take(i as int) =~= all);
    r
}

impl MeshApi {
    /// The state at the start.
    pub fn new(
        model_name: String,
        api_port: u16,
        model_size_bytes: u64,
        nostr_relays: Vec<String>,
    ) -> (r: MeshApi)
        ensures
            r.model_name == model_name,
            r.api_port == api_port,
            r.model_size_bytes == model_size_bytes,
            r.nostr_relays == nostr_relays,
            !r.headless && !r.is_host && !r.is_client && !r.llama_ready,
            r.llama_port is None,
            r.primary_backend is None,
            r.draft_name is None,
            r.mesh_name is None,
            r.latest_version is None,
            !r.nostr_discovery,
            r.publication_state is Private,
            r.local_processes@.len() == 0,
            r.interests@ == Map::<Seq<char>, InterestView>::empty(),
            !r.inventory_scan_running,
    {
        MeshApi {
            headless: false,
            is_host: false,
            is_client: false,
            llama_ready: false,
            llama_port: None,
            model_name,
            primary_backend: None,
            draft_name: None,
            api_port,
            model_size_bytes,
            mesh_name: None,
            latest_version: None,
            nostr_relays,
            nostr_discovery: false,
            publication_state: PublicationState::Private,
            local_processes: Vec::new(),
            interests: ModelInterests::new(),
            inventory_scan_running: false,
        }
    }

    /// Names the backend of the primary model.
    pub fn set_primary_backend(&mut self, backend: String)
        ensures
            *final(self) == (MeshApi { primary_backend: Some(backend), ..*old(self) }),
    {
        self.primary_backend = Some(backend);
    }

    /// Names the draft model.
    pub fn set_draft_name(&mut self, name: String)
        ensures
            *final(self) == (MeshApi { draft_name: Some(name), ..*old(self) }),
    {
        self.draft_name = Some(name);
    }

    /// Makes the node a client, or no client.
    pub fn set_client(&mut self, is_client: bool)
        ensures
            *final(self) == (MeshApi { is_client: is_client, ..*old(self) }),
    {
        self.is_client = is_client;
    }

    /// Names the mesh.
    pub fn set_mesh_name(&mut self, name: String)
        ensures
            *final(self) == (MeshApi { mesh_name: Some(name), ..*old(self) }),
    {
        self.mesh_name = Some(name);
    }

    /// Records a newer release.
    pub fn set_latest_version(&mut self, version: String)
        ensures
            *final(self) == (MeshApi { latest_version: Some(version), ..*old(self) }),
    {
        self.latest_version = Some(version);
    }

    /// Replaces the relays.
    pub fn set_nostr_relays(&mut self, relays: Vec<String>)
        ensures
            *final(self) == (MeshApi { nostr_relays: relays, ..*old(self) }),
    {
        self.nostr_relays = relays;
    }

    /// Switches discovery on or off.
    pub fn set_nostr_discovery(&mut self, v: bool)
        ensures
            *final(self) == (MeshApi { nostr_discovery: v, ..*old(self) }),
    {
        self.nostr_discovery = v;
    }

    /// Records how publishing the mesh went.
    pub fn set_publication_state(&mut self, state: PublicationState)
        ensures
            *final(self) == (MeshApi { publication_state: state, ..*old(self) }),
    {
        self.publication_state = state;
    }

    /// Records the port of the model server.
    pub fn set_llama_port(&mut self, port: Option<u16>)
        ensures
            *final(self) == (MeshApi { llama_port: port, ..*old(self) }),
    {
        self.llama_port = port;
    }

    /// Switches the dashboard off or on.
    pub fn set_headless(&mut self, headless: bool)
        ensures
            *final(self) == (MeshApi { headless: headless, ..*old(self) }),
    {
        self.headless = headless;
    }

    /// Records whether the node hosts its model and whether the server is ready.
    pub fn update(&mut self, is_host: bool, llama_ready: bool)
        ensures
            *final(self) == (MeshApi { is_host, llama_ready, ..*old(self) }),
    {
        self.is_host = is_host;
        self.llama_ready = llama_ready;
    }

    /// Follows the election: a server on this machine gives its port; a peer is
    /// ready at once and leaves no port here; nowhere leaves no port either.
    pub fn follow_target(&mut self, target: InferenceTarget)
        ensures
            *final(self) == (match target {
                InferenceTarget::Local(port) => MeshApi { llama_port: Some(port), ..*old(self) },
                InferenceTarget::MoeLocal(port) => MeshApi { llama_port: Some(port), ..*old(self) },
                InferenceTarget::Remote(_) => MeshApi {
                    llama_ready: true,
                    llama_port: None,
                    ..*old(self)
                },
                InferenceTarget::MoeRemote(_) => MeshApi {
                    llama_ready: true,
                    llama_port: None,
                    ..*old(self)
                },
                InferenceTarget::Nowhere => MeshApi { llama_port: None, ..*old(self) },
            }),
    {
        match target {
            InferenceTarget::Local(port) => {
                self.llama_port = Some(port);
            },
            InferenceTarget::MoeLocal(port) => {
                self.llama_port = Some(port);
            },
            InferenceTarget::Remote(_) => {
                self.llama_ready = true;
                self.llama_port = None;
            },
            InferenceTarget::MoeRemote(_) => {
                self.llama_ready = true;
                self.llama_port = None;
            },
            InferenceTarget::Nowhere => {
                self.llama_port = None;
            },
        }
    }

    /// Records a process, in place of one of the same name.
    pub fn upsert_local_process(&mut self, process: RuntimeProcessPayload)
        ensures
            *final(self) == (MeshApi {
                local_processes: final(self).local_processes,
                ..*old(self)
            }),
            processes(final(self).local_processes@) == without_process(
                processes(old(self).local_processes@),
                process.name@,
            ).push(process@),
    {
        let mut list = keep_others(self.local_processes.as_slice(), process.name.as_str());
        let ghost before = list@;
        list.push(process);
        assert(processes(list@) =~= processes(before).push(process@));
        self.local_processes = list;
    }

    /// Forgets the process of a model.
    pub fn remove_local_process(&mut self, model_name: &str)
        ensures
            *final(self) == (MeshApi {
                local_processes: final(self).local_processes,
                ..*old(self)
            }),
            processes(final(self).local_processes@) == without_process(
                processes(old(self).local_processes@),
                model_name@,
            ),
    {
        let list = keep_others(self.local_processes.as_slice(), model_name);
        self.local_processes = list;
    }

    /// The models that were asked for, the latest first.
    pub fn model_interests(&self) -> (r: Vec<LocalModelInterest>)
        ensures
            is_listing(r@, self.interests@),
    {
        self.interests.list()
    }

    /// Records that a model was asked for, and tells whether it is new.
    pub fn upsert_model_interest(
        &mut self,
        model_ref: String,
        submission_source: Option<String>,
    ) -> (r: (LocalModelInterest, bool))
        ensures
            *final(self) == (MeshApi { interests: final(self).interests, ..*old(self) }),
            r.0@ == submitted(
                old(self).interests@,
                model_ref@,
                opt_text(submission_source),
                r.0.updated_at_unix,
            ),
            r.1 == !old(self).interests@.contains_key(model_ref@),
            final(self).interests@ == old(self).interests@.insert(model_ref@, r.0@),
    {
        self.interests.upsert(model_ref, submission_source)
    }

    /// Forgets a model that was asked for, and tells whether it was.
    pub fn remove_model_interest(&mut self, model_ref: &str) -> (r: bool)
        ensures
            *final(self) == (MeshApi { interests: final(self).interests, ..*old(self) }),
            r == old(self).interests@.contains_key(model_ref@),
            final(self).interests@ == old(self).interests@.remove(model_ref@),
    {
        self.interests.remove(model_ref)
    }

    /// Asks to look through the model files of this machine: true for the one who
    /// is to do it, false while somebody does.
    pub fn begin_inventory_scan(&mut self) -> (starts: bool)
        ensures
            starts == !old(self).inventory_scan_running,
            *final(self) == (MeshApi { inventory_scan_running: true, ..*old(self) }),
    {
        let starts = !self.inventory_scan_running;
        self.inventory_scan_running = true;
        starts
    }

    /// The model files have been looked through.
    pub fn finish_inventory_scan(&mut self)
        ensures
            *final(self) == (MeshApi { inventory_scan_running: false, ..*old(self) }),
    {
        self.inventory_scan_running = false;
    }

    /// Copies the processes.
    fn copy_processes(&self) -> (r: Vec<RuntimeProcessPayload>)
        ensures
            processes(r@) == processes(self.local_processes@),
    {
        let list = &self.local_processes;
        let mut r: Vec<RuntimeProcessPayload> = Vec::new();
        let mut i: usize = 0;
        while i < list.len()
            invariant
                i <= list.len(),
                r.len() == i,
                list == self.local_processes,
                forall|j: int| 0 <= j < i ==> (#[trigger] r@[j])@ == list@[j]@,
            decreases list.len() - i,
        {
            r.push(list[i].clone());
            i = i + 1;
        }
        assert(processes(r@) =~= processes(list@));
        r
    }

    /// The local models.
    pub fn runtime_status(&self) -> (r: RuntimeStatusPayload)
        ensures
            models(r.models@) == runtime_models(
                self.model_name@,
                opt_text(self.primary_backend),
                self.is_host,
                self.llama_ready,
                self.llama_port,
                processes(self.local_processes@),
            ),
    {
        build_runtime_status_payload(
            self.model_name.as_str(),
            copy_opt(&self.primary_backend),
            self.is_host,
            self.llama_ready,
            self.llama_port,
            self.copy_processes(),
        )
    }

    /// The local processes.
    pub fn runtime_processes(&self) -> (r: RuntimeProcessesPayload)
        ensures
            processes(r.processes@) == listed(processes(self.local_processes@)),
    {
        build_runtime_processes_payload(self.copy_processes())
    }
}

/// No two processes have the same name.
pub open spec fn one_per_name(list: Seq<ProcessView>) -> bool {
    forall|i: int, j: int|
        0 <= i < j < list.len() ==> (#[trigger] list[i]).name != (#[trigger] list[j]).name
}

/// What stays is what was there, under other names.
proof fn lemma_without_process(list: Seq<ProcessView>, name: Seq<char>)
    ensures
        forall|i: int|
            0 <= i < without_process(list, name).len() ==> (#[trigger] without_process(
                list,
                name,
            )[i]).name != name && list.contains(without_process(list, name)[i]),
        forall|p: ProcessView|
            list.contains(p) && p.name != name ==> #[trigger] without_process(list, name).contains(
                p,
            ),
        one_per_name(list) ==> one_per_name(without_process(list, name)),
    decreases list.len(),
{
    if list.len() > 0 {
        let head = list.drop_last();
        let kept = without_process(head, name);
        let r = without_process(list, name);
        lemma_without_process(head, name);
        assert forall|i: int| 0 <= i < r.len() implies (#[trigger] r[i]).name != name
            && list.contains(r[i]) by {
            if i < kept.len() {
                assert(r[i] == kept[i]);
                let k = choose|k: int| 0 <= k < head.len() && head[k] == kept[i];
                assert(list[k] == r[i]);
            } else {
                assert(list[list.len() - 1] == r[i]);
            }
        }
        assert forall|p: ProcessView| list.contains(p) && p.name != name implies #[trigger] r.contains(
            p,
        ) by {
            let k = choose|k: int| 0 <= k < list.len() && list[k] == p;
            if k < head.len() {
                assert(head[k] == p);
                assert(kept.contains(p));
                let i = choose|i: int| 0 <= i < kept.len() && kept[i] == p;
                assert(r[i] == p);
            } else {
                assert(r[r.len() - 1] == p);
            }
        }
        if one_per_name(list) {
            assert(one_per_name(head)) by {
                assert forall|i: int, j: int| 0 <= i < j < head.len() implies (
                #[trigger] head[i]).name != (#[trigger] head[j]).name by {
                    assert(list[i].name != list[j].name);
                }
            }
            assert forall|i: int, j: int| 0 <= i < j < r.len() implies (#[trigger] r[i]).name != (
            #[trigger] r[j]).name by {
                if j < kept.len() {
                    assert(kept[i].name != kept[j].name);
                } else {
                    assert(kept[i] == r[i]);
                    let k = choose|k: int| 0 <= k < head.len() && head[k] == kept[i];
                    assert(list[k].name != list[list.len() - 1].name);
                }
            }
        }
    }
}

/// Recording a process keeps at most one per name, keeps all others, and leaves
/// the recorded one for its name.
pub proof fn law_one_process_per_name(list: Seq<ProcessView>, process: ProcessView)
    requires
        one_per_name(list),
    ensures
        one_per_name(without_process(list, process.name).push(process)),
        forall|p: ProcessView|
            #![trigger without_process(list, process.name).push(process).contains(p)]
            without_process(list, process.name).push(process).contains(p) <==> (p == process || (
            list.contains(p) && p.name != process.name)),
{
    lemma_without_process(list, process.name);
    let kept = without_process(list, process.name);
    let r = kept.push(process);
    assert forall|i: int, j: int| 0 <= i < j < r.len() implies (#[trigger] r[i]).name != (
    #[trigger] r[j]).name by {
        assert(r[i] == kept[i]);
        if j < kept.len() {
            assert(kept[i].name != kept[j].name);
        }
    }
    assert forall|p: ProcessView| #[trigger] r.contains(p) <==> (p == process || (list.contains(p)
        && p.name != process.name)) by {
        if r.contains(p) {
            let i = choose|i: int| 0 <= i < r.len() && r[i] == p;
            if i < kept.len() {
                assert(kept[i] == p);
            }
        }
        if p == process {
            assert(r[r.len() - 1] == p);
        }
        if list.contains(p) && p.name != process.name {
            assert(kept.contains(p));
            let i = choose|i: int| 0 <= i < kept.len() && kept[i] == p;
            assert(r[i] == p);
        }
    }
}

/// Nothing to take out leaves the list as it is.
proof fn lemma_without_absent(list: Seq<ProcessView>, name: Seq<char>)
    requires
        forall|i: int| 0 <= i < list.len() ==> (#[trigger] list[i]).name != name,
    ensures
        without_process(list, name) == list,
    decreases list.len(),
{
    if list.len() > 0 {
        assert forall|i: int| 0 <= i < list.drop_last().len() implies (
        #[trigger] list.drop_last()[i]).name != name by {
            assert(list[i].name != name);
        }
        lemma_without_absent(list.drop_last(), name);
        assert(list.last() == list[list.len() - 1]);
        assert(list.drop_last().push(list.last()) =~= list);
    }
}

/// Recording a process twice is recording it once, and forgetting it again leaves
/// the others alone.
pub proof fn law_recording_is_idempotent(list: Seq<ProcessView>, process: ProcessView)
    ensures
        ({
            let once = without_process(list, process.name).push(process);
            &&& without_process(once, process.name).push(process) == once
            &&& without_process(once, process.name) == without_process(list, process.name)
        }),
{
    let kept = without_process(list, process.name);
    let once = kept.push(process);
    lemma_without_process(list, process.name);
    lemma_without_absent(kept, process.name);
    assert(once.drop_last() =~= kept);
}

/// What the node itself knows, gathered for one status report.
#[derive(Debug)]
pub struct NodeFacts {
    pub version: String,
    pub pid: u32,
    pub node_id: String,
    pub token: String,
    pub owner_summary: OwnershipSummary,
    pub fast_memory_bytes: u64,
    pub system_ram_bytes: u64,
    pub inflight_requests: u64,
    pub models: Vec<String>,
    pub available_models: Vec<String>,
    pub requested_models: Vec<String>,
    pub serving_models: Vec<String>,
    pub hosted_models: Vec<String>,
    pub peers: Vec<PeerInfo>,
    pub verdicts: Vec<VerifyVerdictRecord>,
    pub reputation: Vec<ReputationScore>,
    pub wakeable: Vec<WakeableInventoryEntry>,
    pub local_instances: Vec<LocalInstance>,
    pub mesh_id: Option<String>,
    pub hostname: Option<String>,
    pub is_soc: Option<bool>,
    pub gpu_name: Option<String>,
    pub gpu_vram: Option<String>,
    pub gpu_reserved_bytes: Option<String>,
    /// One cell per GPU, as the bit pattern of a double precision number.
    pub gpu_mem_bandwidth_gbps: Vec<Option<u64>>,
    pub gpu_compute_tflops_fp32: Vec<Option<u64>>,
    pub gpu_compute_tflops_fp16: Vec<Option<u64>>,
    pub capability: Option<NodeCapability>,
    /// How requests were kept with the nodes that know them, as JSON text.
    pub routing_affinity: String,
    /// What came of the requests that this node routed, as JSON text.
    pub routing_metrics: String,
    pub model_timings: Vec<ModelTiming>,
    pub native_baselines: Vec<NativeBaselineEntry>,
    /// Completion tokens of the last seven days, by model.
    pub serving_tokens: TextMap<u64>,
    pub first_joined_mesh_ts: Option<u64>,
    pub mesh_visibility: Option<MeshVisibilitySnapshot>,
}

/// The state of the node, as it is shown.
#[derive(Debug)]
pub struct StatusPayload {
    pub version: String,
    pub latest_version: Option<String>,
    pub node_id: String,
    pub owner: OwnershipPayload,
    pub token: String,
    pub node_state: NodeState,
    pub node_status: String,
    pub is_host: bool,
    pub is_client: bool,
    pub llama_ready: bool,
    pub model_name: String,
    pub models: Vec<String>,
    pub available_models: Vec<String>,
    pub requested_models: Vec<String>,
    pub serving_models: Vec<String>,
    pub hosted_models: Vec<String>,
    pub draft_name: Option<String>,
    pub api_port: u16,
    pub my_vram_gb: Gigabytes,
    pub model_size_gb: Gigabytes,
    pub peers: Vec<PeerPayload>,
    pub wakeable_nodes: Vec<WakeableNode>,
    pub local_instances: Vec<LocalInstance>,
    pub launch_pi: Option<String>,
    pub launch_goose: Option<String>,
    pub inflight_requests: u64,
    pub system_ram_bytes: u64,
    pub mesh_id: Option<String>,
    pub mesh_name: Option<String>,
    pub nostr_discovery: bool,
    pub publication_state: String,
    pub my_hostname: Option<String>,
    pub my_is_soc: Option<bool>,
    pub gpus: Vec<GpuEntry>,
    pub capability: NodeCapabilityPayload,
    pub routing_affinity: String,
    /// What this node alone measured, not the mesh.
    pub routing_metrics: String,
    pub measured_tps_p50_by_model: TextMap<u64>,
    pub measured_ttft_ms_p50_by_model: TextMap<u64>,
    pub native_tps_p50_by_model: TextMap<u64>,
    pub native_ttft_ms_p50_by_model: TextMap<u64>,
    pub serving_tokens_7d_by_model: TextMap<u64>,
    pub first_joined_mesh_ts: Option<u64>,
    pub my_split_role: Option<String>,
    pub my_split_group: Option<SplitGroupPayload>,
    pub my_moe_shard: Option<MoeShardPayload>,
    pub mesh_visibility: Option<MeshVisibilitySnapshot>,
}

/// The model that stands for the node: that of its first process, else the first
/// that it hosts, else the first that it serves, else the one it was started with.
pub open spec fn display_model(
    running: Seq<ProcessView>,
    hosted: Seq<Seq<char>>,
    serving: Seq<Seq<char>>,
    model_name: Seq<char>,
) -> Seq<char> {
    if running.len() > 0 {
        running[0].name
    } else if hosted.len() > 0 {
        hosted[0]
    } else if serving.len() > 0 {
        serving[0]
    } else {
        model_name
    }
}

/// The command that starts a chat with the model in a terminal.
pub open spec fn pi_command(model: Seq<char>) -> Seq<char> {
    "pi --provider mesh --model "@ + model
}

/// The command that starts an agent session with the model.
pub open spec fn goose_command(port: u16, model: Seq<char>) -> Seq<char> {
    "GOOSE_PROVIDER=openai OPENAI_HOST=http://localhost:"@ + decimal(port as nat)
        + " OPENAI_API_KEY=mesh GOOSE_MODEL="@ + model + " goose session"@
}

/// The derived part of a status report: a local process makes the node a host
/// whose server is ready.
pub open spec fn shows_activity(r: StatusPayload, api: MeshApi, facts: NodeFacts) -> bool {
    let running = processes(api.local_processes@);
    let busy = running.len() > 0;
    let model = display_model(
        running,
        texts(facts.hosted_models@),
        texts(facts.serving_models@),
        api.model_name@,
    );
    &&& r.llama_ready == (api.llama_ready || busy)
    &&& r.is_host == (api.is_host || busy)
    &&& r.is_client == api.is_client
    &&& r.model_name@ == model
    &&& r.node_state == local_state(
        api.is_client,
        r.is_host,
        r.llama_ready,
        busy || facts.hosted_models@.len() > 0,
        model,
    )
    &&& r.node_status@ == r.node_state.alias()
    &&& opt_text(r.launch_pi) == (if r.llama_ready {
        Some(pi_command(model))
    } else {
        None
    })
    &&& opt_text(r.launch_goose) == (if r.llama_ready {
        Some(goose_command(api.api_port, model))
    } else {
        None
    })
}

/// The settings of the API are shown as they are.
pub open spec fn shows_settings(r: StatusPayload, api: MeshApi) -> bool {
    &&& opt_text(r.latest_version) == opt_text(api.latest_version)
    &&& opt_text(r.draft_name) == opt_text(api.draft_name)
    &&& r.api_port == api.api_port
    &&& r.model_size_gb.units() == units_of_bytes(api.model_size_bytes)
    &&& opt_text(r.mesh_name) == opt_text(api.mesh_name)
    &&& r.nostr_discovery == api.nostr_discovery
    &&& r.publication_state@ == api.publication_state.word()
}

/// The facts are shown as they are.
pub open spec fn shows_facts(r: StatusPayload, f: NodeFacts) -> bool {
    &&& r.version == f.version
    &&& r.node_id == f.node_id
    &&& r.token == f.token
    &&& shows_ownership(r.owner, f.owner_summary)
    &&& r.models == f.models
    &&& r.available_models == f.available_models
    &&& r.requested_models == f.requested_models
    &&& r.serving_models == f.serving_models
    &&& r.hosted_models == f.hosted_models
    &&& r.my_vram_gb.units() == units_of_bytes(f.fast_memory_bytes)
    &&& r.inflight_requests == f.inflight_requests
    &&& r.system_ram_bytes == f.system_ram_bytes
    &&& r.mesh_id == f.mesh_id
    &&& r.my_hostname == f.hostname
    &&& r.my_is_soc == f.is_soc
    &&& r.routing_affinity == f.routing_affinity
    &&& r.routing_metrics == f.routing_metrics
    &&& r.serving_tokens_7d_by_model == f.serving_tokens
    &&& r.first_joined_mesh_ts == f.first_joined_mesh_ts
    &&& r.mesh_visibility == f.mesh_visibility
}

/// The hardware and its figures are shown.
pub open spec fn shows_hardware(r: StatusPayload, f: NodeFacts) -> bool {
    &&& is_gpu_list(
        r.gpus@,
        nonempty(expanded(name_parts(opt_text(f.gpu_name)))),
        number_column(opt_text(f.gpu_vram)),
        number_column(opt_text(f.gpu_reserved_bytes)),
        f.gpu_mem_bandwidth_gbps@,
        f.gpu_compute_tflops_fp32@,
        f.gpu_compute_tflops_fp16@,
    )
    &&& match f.capability {
        Some(c) => shows_capability(r.capability, c, f.fast_memory_bytes),
        None => shows_no_capability(r.capability),
    }
    &&& r.measured_tps_p50_by_model@ == figures(timing_rates(f.model_timings@))
    &&& r.measured_ttft_ms_p50_by_model@ == figures(timing_latencies(f.model_timings@))
    &&& r.native_tps_p50_by_model@ == figures(native_rates(f.native_baselines@))
    &&& r.native_ttft_ms_p50_by_model@ == figures(native_latencies(f.native_baselines@))
}

/// The other nodes and instances are shown.
pub open spec fn shows_company(r: StatusPayload, f: NodeFacts, api_port: u16) -> bool {
    &&& r.peers@.len() == f.peers@.len()
    &&& forall|i: int|
        0 <= i < r.peers@.len() ==> shows_peer(
            #[trigger] r.peers@[i],
            f.peers@[i],
            f.peers@,
            f.verdicts@,
            f.reputation@,
        )
    &&& r.wakeable_nodes@.len() == f.wakeable@.len()
    &&& forall|i: int|
        0 <= i < r.wakeable_nodes@.len() ==> shows_wakeable(
            #[trigger] r.wakeable_nodes@[i],
            f.wakeable@[i],
        )
    &&& are_instances(r.local_instances@, f.local_instances@, f.pid, api_port, f.version@)
}

/// The local node's part in a split is shown.
pub open spec fn shows_own_split(r: StatusPayload, f: NodeFacts) -> bool {
    let split = PeerSplitClassification {
        role: r.my_split_role,
        group: r.my_split_group,
        moe_shard: r.my_moe_shard,
    };
    split.shows(
        local_split(
            f.node_id@,
            r.is_host,
            r.is_client,
            texts(f.serving_models@) + texts(f.hosted_models@),
            units_of_bytes(f.fast_memory_bytes),
            f.peers@,
        ),
    )
}

/// A status report shows the settings, the facts, and what follows from them.
pub open spec fn shows_status(r: StatusPayload, api: MeshApi, facts: NodeFacts) -> bool {
    &&& shows_activity(r, api, facts)
    &&& shows_settings(r, api)
    &&& shows_facts(r, facts)
    &&& shows_hardware(r, facts)
    &&& shows_company(r, facts, api.api_port)
    &&& shows_own_split(r, facts)
}

/// The model that stands for the node.
fn find_display_model(api: &MeshApi, hosted: &[String], serving: &[String]) -> (r: String)
    ensures
        r@ == display_model(
            processes(api.local_processes@),
            texts(hosted@),
            texts(serving@),
            api.model_name@,
        ),
{
    if api.local_processes.len() > 0 {
        assert(processes(api.local_processes@)[0] == api.local_processes@[0]@);
        api.local_processes[0].name.clone()
    } else if hosted.len() > 0 {
        assert(texts(hosted@)[0] == hosted@[0]@);
        hosted[0].clone()
    } else if serving.len() > 0 {
        assert(texts(serving@)[0] == serving@[0]@);
        serving[0].clone()
    } else {
        api.model_name.clone()
    }
}

/// Lists the GPUs of this node.
fn own_gpus(f: &NodeFacts) -> (r: Vec<GpuEntry>)
    ensures
        is_gpu_list(
            r@,
            nonempty(expanded(name_parts(opt_text(f.gpu_name)))),
            number_column(opt_text(f.gpu_vram)),
            number_column(opt_text(f.gpu_reserved_bytes)),
            f.gpu_mem_bandwidth_gbps@,
            f.gpu_compute_tflops_fp32@,
            f.gpu_compute_tflops_fp16@,
        ),
{
    build_gpus(
        opt_as_str(&f.gpu_name),
        opt_as_str(&f.gpu_vram),
        opt_as_str(&f.gpu_reserved_bytes),
        f.gpu_mem_bandwidth_gbps.as_slice(),
        f.gpu_compute_tflops_fp32.as_slice(),
        f.gpu_compute_tflops_fp16.as_slice(),
    )
}

impl MeshApi {
    /// Reports the state of the node.
    pub fn status(&self, facts: NodeFacts) -> (r: StatusPayload)
        ensures
            shows_status(r, *self, facts),
    {
        let busy = self.local_processes.len() > 0;
        let llama_ready = self.llama_ready || busy;
        let is_host = self.is_host || busy;
        let model_name = find_display_model(
            self,
            facts.hosted_models.as_slice(),
            facts.serving_models.as_slice(),
        );
        let node_state = derive_local_node_state(
            self.is_client,
            is_host,
            llama_ready,
            busy || facts.hosted_models.len() > 0,
            model_name.as_str(),
        );
        let launch_pi = if llama_ready {
            Some("pi --provider mesh --model ".to_owned().concat(model_name.as_str()))
        } else {
            None
        };
        let launch_goose = if llama_ready {
            Some(
                "GOOSE_PROVIDER=openai OPENAI_HOST=http://localhost:".to_owned().concat(
                    decimal_text(self.api_port as u128).as_str(),
                ).concat(" OPENAI_API_KEY=mesh GOOSE_MODEL=").concat(model_name.as_str()).concat(
                    " goose session",
                ),
            )
        } else {
            None
        };
        let my_vram_gb = Gigabytes::from_bytes(facts.fast_memory_bytes);
        let split = classify_local_split_role(
            facts.node_id.as_str(),
            is_host,
            self.is_client,
            facts.serving_models.as_slice(),
            facts.hosted_models.as_slice(),
            my_vram_gb,
            facts.peers.as_slice(),
        );
        let peers = build_peer_payloads(
            facts.peers.as_slice(),
            facts.verdicts.as_slice(),
            facts.reputation.as_slice(),
        );
        let gpus = own_gpus(&facts);
        let capability = match &facts.capability {
            Some(c) => NodeCapabilityPayload::from_capability_with_usable_vram(
                c,
                facts.fast_memory_bytes,
            ),
            None => NodeCapabilityPayload::default(),
        };
        let (measured_tps, measured_ttft) = measured_figures(facts.model_timings.as_slice());
        let (native_tps, native_ttft) = native_figures(facts.native_baselines.as_slice());
        let owner = build_ownership_payload(&facts.owner_summary);
        let local_instances = local_instances_or_self(
            facts.local_instances,
            facts.pid,
            self.api_port,
            facts.version.as_str(),
        );
        StatusPayload {
            version: facts.version,
            latest_version: copy_opt(&self.latest_version),
            node_id: facts.node_id,
            owner,
            token: facts.token,
            node_state,
            node_status: node_state.node_status_alias().to_owned(),
            is_host,
            is_client: self.is_client,
            llama_ready,
            model_name,
            models: facts.models,
            available_models: facts.available_models,
            requested_models: facts.requested_models,
            serving_models: facts.serving_models,
            hosted_models: facts.hosted_models,
            draft_name: copy_opt(&self.draft_name),
            api_port: self.api_port,
            my_vram_gb,
            model_size_gb: Gigabytes::from_bytes(self.model_size_bytes),
            peers,
            wakeable_nodes: build_wakeable_nodes(facts.wakeable),
            local_instances,
            launch_pi,
            launch_goose,
            inflight_requests: facts.inflight_requests,
            system_ram_bytes: facts.system_ram_bytes,
            mesh_id: facts.mesh_id,
            mesh_name: copy_opt(&self.mesh_name),
            nostr_discovery: self.nostr_discovery,
            publication_state: self.publication_state.as_str().to_owned(),
            my_hostname: facts.hostname,
            my_is_soc: facts.is_soc,
            gpus,
            capability,
            routing_affinity: facts.routing_affinity,
            routing_metrics: facts.routing_metrics,
            measured_tps_p50_by_model: measured_tps,
            measured_ttft_ms_p50_by_model: measured_ttft,
            native_tps_p50_by_model: native_tps,
            native_ttft_ms_p50_by_model: native_ttft,
            serving_tokens_7d_by_model: facts.serving_tokens,
            first_joined_mesh_ts: facts.first_joined_mesh_ts,
            my_split_role: split.role,
            my_split_group: split.group,
            my_moe_shard: split.moe_shard,
            mesh_visibility: facts.mesh_visibility,
        }
    }
}

/// A local process proves that the node works: it is shown as a host with a ready
/// server, under the process's model, and as serving unless it is a client.
pub proof fn law_a_process_is_proof_of_work(r: StatusPayload, api: MeshApi, facts: NodeFacts)
    requires
        shows_status(r, api, facts),
        api.local_processes@.len() > 0,
        crate::peers::says_something(api.local_processes@[0].name@),
    ensures
        r.is_host,
        r.llama_ready,
        r.model_name@ == api.local_processes@[0].name@,
        r.node_state == (if api.is_client {
            NodeState::Client
        } else {
            NodeState::Serving
        }),
{
}

/// Nodes that sleep are shown apart: they add no peer and no memory.
pub proof fn law_sleeping_nodes_are_no_peers(r: StatusPayload, api: MeshApi, facts: NodeFacts)
    requires
        shows_status(r, api, facts),
    ensures
        r.peers@.len() == facts.peers@.len(),
        r.wakeable_nodes@.len() == facts.wakeable@.len(),
        r.my_vram_gb.units() == units_of_bytes(facts.fast_memory_bytes),
{
}

/// The processes but those of a name are all others, in their order.
pub proof fn law_only_the_named_process_goes(list: Seq<ProcessView>, name: Seq<char>)
    ensures
        without_process(list, name) == list.filter(|p: ProcessView| p.name != name),
{
    lemma_without_is_filter(list, name, |p: ProcessView| p.name != name);
}

proof fn lemma_without_is_filter(
    list: Seq<ProcessView>,
    name: Seq<char>,
    keep: spec_fn(ProcessView) -> bool,
)
    requires
        forall|p: ProcessView| #[trigger] keep(p) <==> p.name != name,
    ensures
        without_process(list, name) == list.filter(keep),
    decreases list.len(),
{
    reveal(Seq::filter);
    if list.len() > 0 {
        lemma_without_is_filter(list.drop_last(), name, keep);
    }
}

/// Without a process the first hosted model stands for the node, without one the first
/// served model, and without any the one that it was started with.
pub proof fn law_model_that_stands_for_the_node(r: StatusPayload, api: MeshApi, facts: NodeFacts)
    requires
        shows_status(r, api, facts),
        api.local_processes@.len() == 0,
    ensures
        facts.hosted_models@.len() > 0 ==> r.model_name@ == facts.hosted_models@[0]@,
        facts.hosted_models@.len() == 0 && facts.serving_models@.len() > 0 ==> r.model_name@
            == facts.serving_models@[0]@,
        facts.hosted_models@.len() == 0 && facts.serving_models@.len() == 0 ==> r.model_name@
            == api.model_name@,
        r.is_host == api.is_host,
        r.llama_ready == api.llama_ready,
{
    assert(processes(api.local_processes@).len() == 0);
    assert(texts(facts.hosted_models@).len() == facts.hosted_models@.len());
    assert(texts(facts.serving_models@).len() == facts.serving_models@.len());
}

/// A node without a process that hosts a named model works on it: it serves once its
/// server is ready and loads until then. The commands to talk to the model are shown
/// exactly while the server is ready.
pub proof fn law_hosting_counts_as_work(r: StatusPayload, api: MeshApi, facts: NodeFacts)
    requires
        shows_status(r, api, facts),
    ensures
        !api.is_client && api.local_processes@.len() == 0 && facts.hosted_models@.len() > 0
            && crate::peers::says_something(facts.hosted_models@[0]@) ==> r.node_state == (
        if api.llama_ready {
            NodeState::Serving
        } else {
            NodeState::Loading
        }),
        !api.is_client && api.local_processes@.len() == 0 && facts.hosted_models@.len() == 0
            && !api.is_host ==> r.node_state == NodeState::Standby,
        api.is_client ==> r.node_state == NodeState::Client,
        r.launch_pi is Some <==> r.llama_ready,
        r.launch_goose is Some <==> r.llama_ready,
        r.llama_ready ==> crate::text::has_suffix(r.launch_pi->0@, r.model_name@),
{
    assert(processes(api.local_processes@).len() == api.local_processes@.len());
    assert(texts(facts.hosted_models@).len() == facts.hosted_models@.len());
    if facts.hosted_models@.len() > 0 {
        assert(texts(facts.hosted_models@)[0] == facts.hosted_models@[0]@);
    }
    let model = r.model_name@;
    let head = "pi --provider mesh --model "@;
    if r.llama_ready {
        let text = r.launch_pi->0@;
        assert(text == head + model);
        assert(text.skip(text.len() - model.len()) =~= model);
    }
}

/// Every peer is shown, in its place, and every sleeping node.
pub proof fn law_everybody_is_shown(r: StatusPayload, api: MeshApi, facts: NodeFacts, i: int)
    requires
        shows_status(r, api, facts),
    ensures
        0 <= i < facts.peers@.len() ==> r.peers@[i].id@ == facts.peers@[i].short_id@
            && r.peers@[i].state == crate::status::peer_state(facts.peers@[i]),
        0 <= i < facts.wakeable@.len() ==> r.wakeable_nodes@[i].logical_id
            == facts.wakeable@[i].logical_id && r.wakeable_nodes@[i].models
            == facts.wakeable@[i].models && (r.wakeable_nodes@[i].state is Sleeping
            <==> facts.wakeable@[i].state is Sleeping),
{
    if 0 <= i < facts.peers@.len() {
        assert(shows_peer(
            r.peers@[i],
            facts.peers@[i],
            facts.peers@,
            facts.verdicts@,
            facts.reputation@,
        ));
    }
    if 0 <= i < facts.wakeable@.len() {
        assert(shows_wakeable(r.wakeable_nodes@[i], facts.wakeable@[i]));
    }
}

/// What the node knows of itself is shown in the place of the same name.
pub proof fn law_facts_are_shown_in_their_places(r: StatusPayload, api: MeshApi, facts: NodeFacts)
    requires
        shows_status(r, api, facts),
    ensures
        r.version@ == facts.version@ && r.node_id@ == facts.node_id@ && r.token@ == facts.token@,
        r.models@ == facts.models@ && r.available_models@ == facts.available_models@,
        r.requested_models@ == facts.requested_models@,
        r.serving_models@ == facts.serving_models@ && r.hosted_models@ == facts.hosted_models@,
        r.inflight_requests == facts.inflight_requests,
        r.system_ram_bytes == facts.system_ram_bytes,
        r.routing_affinity@ == facts.routing_affinity@,
        r.routing_metrics@ == facts.routing_metrics@,
        r.first_joined_mesh_ts == facts.first_joined_mesh_ts,
        r.api_port == api.api_port && r.nostr_discovery == api.nostr_discovery,
        r.is_client == api.is_client,
        opt_text(r.mesh_name) == opt_text(api.mesh_name),
        opt_text(r.draft_name) == opt_text(api.draft_name),
        opt_text(r.latest_version) == opt_text(api.latest_version),
        r.owner.verified == facts.owner_summary.verified,
{
}

/// The command for an agent session names the port of the API and the model.
pub proof fn law_session_command(port: u16, model: Seq<char>)
    ensures
        crate::text::has_text(
            goose_command(port, model),
            "http://localhost:"@ + decimal(port as nat) + " "@,
        ),
        crate::text::has_text(goose_command(port, model), "GOOSE_MODEL="@ + model + " "@),
{
    let t = goose_command(port, model);
    let digits = decimal(port as nat);
    reveal_strlit("GOOSE_PROVIDER=openai OPENAI_HOST=http://localhost:");
    reveal_strlit("GOOSE_PROVIDER=openai OPENAI_HOST=");
    reveal_strlit("http://localhost:");
    reveal_strlit(" ");
    reveal_strlit(" OPENAI_API_KEY=mesh GOOSE_MODEL=");
    reveal_strlit(" OPENAI_API_KEY=mesh ");
    reveal_strlit("GOOSE_MODEL=");
    reveal_strlit(" goose session");
    let front = "GOOSE_PROVIDER=openai OPENAI_HOST="@;
    let host = "http://localhost:"@ + digits + " "@;
    assert("GOOSE_PROVIDER=openai OPENAI_HOST=http://localhost:"@ =~= front
        + "http://localhost:"@);
    let middle = " OPENAI_API_KEY=mesh "@;
    assert(" OPENAI_API_KEY=mesh GOOSE_MODEL="@ =~= middle + "GOOSE_MODEL="@);
    let named = "GOOSE_MODEL="@ + model + " "@;
    let tail = " goose session"@;
    assert(middle =~= " "@ + middle.skip(1));
    assert(tail =~= " "@ + tail.skip(1));
    assert(t =~= front + host + (middle.skip(1) + named + tail.skip(1)));
    assert(t =~= (front + "http://localhost:"@ + digits + middle) + named + tail.skip(1));
    assert(host.subrange(0, host.len() as int) =~= host);
    assert(named.subrange(0, named.len() as int) =~= named);
    assert(crate::text::occurs_at(host, host, 0));
    assert(crate::text::occurs_at(named, named, 0));
    crate::text::law_found_in_a_part(
        front,
        host,
        middle.skip(1) + named + tail.skip(1),
        host,
    );
    crate::text::law_found_in_a_part(
        front + "http://localhost:"@ + digits + middle,
        named,
        tail.skip(1),
        named,
    );
}

/// How publishing the mesh went is shown under its own word.
pub proof fn law_publication_is_shown_by_its_word(r: StatusPayload, api: MeshApi, facts: NodeFacts)
    requires
        shows_status(r, api, facts),
    ensures
        api.publication_state is Private ==> r.publication_state@ == "private"@,
        api.publication_state is Public ==> r.publication_state@ == "public"@,
        api.publication_state is PublishFailed ==> r.publication_state@ == "publish_failed"@,
{
}

/// The node's own part in a split is classified with what it is shown as: a host if it
/// says so or runs a process, and a client if it is one.
pub proof fn law_own_split_is_classified(r: StatusPayload, api: MeshApi, facts: NodeFacts)
    requires
        shows_status(r, api, facts),
    ensures
        api.is_client ==> r.my_split_role is None && r.my_split_group is None,
        local_split(
            facts.node_id@,
            api.is_host || api.local_processes@.len() > 0,
            api.is_client,
            texts(facts.serving_models@) + texts(facts.hosted_models@),
            units_of_bytes(facts.fast_memory_bytes),
            facts.peers@,
        ) matches Some(s) ==> opt_text(r.my_split_role) == s.role && r.my_split_group is Some
            && r.my_split_group->0.model@ == s.model && r.my_split_group->0.host_id@ == s.host_id,
        local_split(
            facts.node_id@,
            api.is_host || api.local_processes@.len() > 0,
            api.is_client,
            texts(facts.serving_models@) + texts(facts.hosted_models@),
            units_of_bytes(facts.fast_memory_bytes),
            facts.peers@,
        ) is None ==> r.my_split_group is None,
        r.my_moe_shard is None,
{
    assert(processes(api.local_processes@).len() == api.local_processes@.len());
    crate::split::law_local_split_is_genuine(
        facts.node_id@,
        r.is_host,
        api.is_client,
        texts(facts.serving_models@) + texts(facts.hosted_models@),
        units_of_bytes(facts.fast_memory_bytes),
        facts.peers@,
    );
}

/// The node's own GPUs and figures are shown in the place of the same name, and the
/// size of its model and its memory with whole gigabytes exactly.
pub proof fn law_own_figures_are_shown(
    r: StatusPayload,
    api: MeshApi,
    facts: NodeFacts,
    i: int,
    k: int,
    g: nat,
)
    requires
        shows_status(r, api, facts),
    ensures
        0 <= i < r.gpus@.len() && i < facts.gpu_mem_bandwidth_gbps@.len()
            ==> r.gpus@[i].mem_bandwidth_gbps == facts.gpu_mem_bandwidth_gbps@[i],
        0 <= i < r.gpus@.len() && i < facts.gpu_compute_tflops_fp32@.len()
            ==> r.gpus@[i].compute_tflops_fp32 == facts.gpu_compute_tflops_fp32@[i],
        0 <= i < r.gpus@.len() && i < facts.gpu_compute_tflops_fp16@.len()
            ==> r.gpus@[i].compute_tflops_fp16 == facts.gpu_compute_tflops_fp16@[i],
        0 <= k < facts.native_baselines@.len() && (forall|j: int|
            k < j < facts.native_baselines@.len() ==> (
            #[trigger] facts.native_baselines@[j]).model@ != facts.native_baselines@[k].model@)
            ==> {
            let b = facts.native_baselines@[k];
            &&& r.native_tps_p50_by_model@.contains_key(b.model@)
            &&& r.native_tps_p50_by_model@[b.model@] == b.native_tps_p50
            &&& r.native_ttft_ms_p50_by_model@[b.model@] == b.native_ttft_ms_p50
        },
        0 <= k < facts.model_timings@.len() && (forall|j: int|
            k < j < facts.model_timings@.len() ==> (#[trigger] facts.model_timings@[j]).model@
                != facts.model_timings@[k].model@) ==> {
            let t = facts.model_timings@[k];
            &&& r.measured_tps_p50_by_model@.contains_key(t.model@)
            &&& r.measured_tps_p50_by_model@[t.model@] == t.measured_tps_p50
            &&& r.measured_ttft_ms_p50_by_model@[t.model@] == t.measured_ttft_ms_p50
        },
        g <= 4_000_000_000 && api.model_size_bytes == g * 1_000_000_000
            ==> r.model_size_gb.units() == g * vstd::arithmetic::power2::pow2(90),
        g <= 4_000_000_000 && facts.fast_memory_bytes == g * 1_000_000_000
            ==> r.my_vram_gb.units() == g * vstd::arithmetic::power2::pow2(90),
{
    let list = facts.native_baselines@;
    if 0 <= k < list.len() && (forall|j: int|
        k < j < list.len() ==> (#[trigger] list[j]).model@ != list[k].model@) {
        let (a, b) = (native_rates(list), native_latencies(list));
        assert forall|j: int| k < j < a.len() implies (#[trigger] a[j]).0 != list[k].model@ by {
            assert(list[j].model@ != list[k].model@);
        }
        assert forall|j: int| k < j < b.len() implies (#[trigger] b[j]).0 != list[k].model@ by {
            assert(list[j].model@ != list[k].model@);
        }
        crate::status::law_last_figure_counts(a, list[k].model@, k);
        crate::status::law_last_figure_counts(b, list[k].model@, k);
    }
    let list = facts.model_timings@;
    if 0 <= k < list.len() && (forall|j: int|
        k < j < list.len() ==> (#[trigger] list[j]).model@ != list[k].model@) {
        let (a, b) = (timing_rates(list), timing_latencies(list));
        assert forall|j: int| k < j < a.len() implies (#[trigger] a[j]).0 != list[k].model@ by {
            assert(list[j].model@ != list[k].model@);
        }
        assert forall|j: int| k < j < b.len() implies (#[trigger] b[j]).0 != list[k].model@ by {
            assert(list[j].model@ != list[k].model@);
        }
        crate::status::law_last_figure_counts(a, list[k].model@, k);
        crate::status::law_last_figure_counts(b, list[k].model@, k);
    }
    if g <= 4_000_000_000 {
        crate::gigabytes::law_whole_gigabytes(g);
    }
}

} // verus!
