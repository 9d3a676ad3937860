//! The management API: routes, models, interests and the status report.

use senda::api::{InferenceTarget, MeshApi, NodeFacts, PublicationState};
use senda::gigabytes::Gigabytes;
use senda::interests::{read_submission, submission_of, ModelInterests};
use senda::json::Json;
use senda::models::{
    describe_model, find_catalog_model, fit_hint_for_machine, huggingface_repository_from_identity,
    is_huggingface_repository_like, likely_audio_model, likely_reasoning_model,
    likely_vision_model, mesh_models, source_file_from_identity, source_page_url_from_identity,
    CapabilityLevel, CatalogModel, CatalogMoe, MeshCatalogEntry, ModelCapabilities, ModelDemand,
    ModelSourceKind, ModelSurvey, MoeTopology, ServedModelDescriptor, ServedModelIdentity,
};
use senda::peers::{ModelMetadata, ModelTiming, NodeCapability, OwnershipSummary};
use senda::routes::{
    is_ui_only_route, listen_address, path_only, route_request, status_event, RouteAction,
};
use senda::runtime::{decode_interest_path, RuntimeProcessPayload};
use senda::status::{NodeState, WakeableInventoryEntry, WakeableState};
use senda::text_map::TextMap;

#[test]
fn headless_mode_disables_ui_routes_but_preserves_api() {
    assert!(is_ui_only_route("/"));
    assert!(is_ui_only_route("/dashboard"));
    assert!(is_ui_only_route("/chat"));

    assert!(!is_ui_only_route("/api/status"));
    assert!(!is_ui_only_route("/api/events"));
    assert!(!is_ui_only_route("/api/discover"));
    assert!(!is_ui_only_route("/api/runtime"));
    assert!(!is_ui_only_route("/api/plugins"));
}

#[test]
fn headless_mode_returns_404_for_assets_and_dashboard_routes() {
    assert!(is_ui_only_route("/dashboard/"));
    assert!(is_ui_only_route("/chat/"));
    assert!(is_ui_only_route("/chat/some-room"));
    assert!(is_ui_only_route("/assets/main.js"));
    assert!(is_ui_only_route("/assets/index-abc123.css"));
    assert!(is_ui_only_route("/favicon.ico"));
    assert!(is_ui_only_route("/logo.png"));
    assert!(is_ui_only_route("/manifest.webmanifest"));
    assert!(is_ui_only_route("/site.json"));

    assert!(!is_ui_only_route("/api/status.json"));
}

#[test]
fn default_mode_still_serves_embedded_ui_routes() {
    assert!(is_ui_only_route("/"));
    assert!(is_ui_only_route("/dashboard"));
    assert!(is_ui_only_route("/chat"));
    assert!(is_ui_only_route("/assets/app.js"));

    assert!(!is_ui_only_route("/api/status"));
    assert!(!is_ui_only_route("/api/events"));
}

#[test]
fn headless_status_command_works_against_management_api() {
    assert!(
        !is_ui_only_route("/api/status"),
        "/api/status must not be blocked in headless mode"
    );
    assert!(
        !is_ui_only_route("/api/events"),
        "/api/events must not be blocked in headless mode"
    );
    assert!(
        !is_ui_only_route("/api/discover"),
        "/api/discover must not be blocked in headless mode"
    );
}

#[test]
fn headless_blackboard_status_still_reads_api_status() {
    assert!(
        !is_ui_only_route("/api/status"),
        "/api/status must be accessible in headless mode"
    );
    assert!(
        !is_ui_only_route("/api/runtime"),
        "/api/runtime must be accessible in headless mode"
    );
    assert!(
        !is_ui_only_route("/api/join"),
        "/api/join must be accessible in headless mode"
    );
}

#[test]
fn headless_custom_console_port_keeps_api_and_disables_ui() {
    assert!(is_ui_only_route("/"), "/ must be blocked in headless mode");
    assert!(is_ui_only_route("/dashboard"), "/dashboard must be blocked");
    assert!(is_ui_only_route("/chat"), "/chat must be blocked");
    assert!(
        is_ui_only_route("/assets/main.js"),
        "/assets/* must be blocked"
    );
    assert!(
        !is_ui_only_route("/api/status"),
        "/api/status must not be blocked"
    );
    assert!(
        !is_ui_only_route("/api/events"),
        "/api/events must not be blocked"
    );
    assert!(
        !is_ui_only_route("/v1/models"),
        "/v1/models must not be blocked"
    );
    assert!(
        !is_ui_only_route("/v1/chat/completions"),
        "/v1/chat/completions must not be blocked"
    );
}

#[test]
fn requests_go_to_dashboard_or_api() {
    assert_eq!(route_request("GET", "/", false), RouteAction::Index);
    assert_eq!(route_request("GET", "/chat/room", false), RouteAction::Index);
    assert_eq!(route_request("GET", "/logo.png", false), RouteAction::Asset);
    assert_eq!(route_request("GET", "/logo.png", true), RouteAction::Refuse);
    assert_eq!(route_request("POST", "/", true), RouteAction::Dispatch);
    assert_eq!(route_request("GET", "/api/status", true), RouteAction::Dispatch);
    assert_eq!(route_request("GET", "/api/x.png", true), RouteAction::Dispatch);
    assert_eq!(route_request("GET", "/api/a.ico", false), RouteAction::Dispatch);
    assert!(!is_ui_only_route("/api/site.webmanifest"));
    assert_eq!(path_only("/api/search?q=a?b"), "/api/search");
    assert_eq!(path_only("/x"), "/x");
    assert_eq!(listen_address(true, 80), "0.0.0.0:80");
    assert_eq!(listen_address(false, 3131), "127.0.0.1:3131");
    assert_eq!(status_event("{}"), "data: {}\n\n");
}

#[test]
fn repository_names_have_two_parts() {
    for good in ["org/repo", " org/repo "] {
        assert!(is_huggingface_repository_like(good), "{good}");
    }
    for bad in ["", "repo", "/repo", "org/", "a/b/c", "org\\x/repo", " "] {
        assert!(!is_huggingface_repository_like(bad), "{bad}");
    }
}

fn identity() -> ServedModelIdentity {
    ServedModelIdentity {
        source_kind: ModelSourceKind::HuggingFace,
        canonical_ref: None,
        repository: Some("org/repo".into()),
        revision: Some("main".into()),
        artifact: None,
        local_file_name: Some("f.gguf".into()),
    }
}

#[test]
fn sources_are_read_from_the_identity() {
    let mut id = identity();
    assert_eq!(huggingface_repository_from_identity(&id).as_deref(), Some("org/repo"));
    assert_eq!(
        source_page_url_from_identity(&id).as_deref(),
        Some("https://huggingface.co/org/repo")
    );
    assert_eq!(source_file_from_identity(&id).as_deref(), Some("f.gguf"));
    id.artifact = Some("a.gguf".into());
    assert_eq!(source_file_from_identity(&id).as_deref(), Some("a.gguf"));
    id.source_kind = ModelSourceKind::LocalGguf;
    assert_eq!(huggingface_repository_from_identity(&id), None);
    assert_eq!(source_page_url_from_identity(&id), None);
}

#[test]
fn names_and_descriptions_suggest_abilities() {
    assert!(likely_reasoning_model("DeepSeek-R1-Distill", ""));
    assert!(likely_reasoning_model("x", "A Thinking model"));
    assert!(!likely_reasoning_model("Qwen3-8B", ""));
    assert!(likely_vision_model("Qwen2.5-VL-7B", ""));
    assert!(!likely_vision_model("Qwen2.5-7B", ""));
    assert!(likely_audio_model("Ultravox", ""));
    assert!(likely_audio_model("x", "omni"));
    assert!(!likely_audio_model("x", "y"));
}

#[test]
fn the_fit_of_a_machine_is_told() {
    let gb = |x: f64| Gigabytes::from_bytes((x * 1e9) as u64);
    let label = |size: f64, memory: f64| fit_hint_for_machine(gb(size), gb(memory)).0;
    assert_eq!(label(0.0, 8.0), "Unknown");
    assert_eq!(label(5.0, 6.0), "Likely comfortable");
    assert_eq!(label(5.0, 5.9), "Likely fits");
    assert_eq!(label(5.0, 5.2), "Possible with tradeoffs");
    assert_eq!(label(5.0, 3.9), "Likely too large");
    assert_eq!(
        fit_hint_for_machine(gb(5.0), gb(24.05)).1,
        format!(
            "This machine has {:.1} GB capacity, which should handle a 5.0 GB model comfortably.",
            24.05
        )
    );
}

fn catalog_model() -> CatalogModel {
    CatalogModel {
        name: "Qwen3-8B".into(),
        file: "Qwen3-8B-Q4_K_M.gguf".into(),
        size_bytes: 5_000_000_000,
        description: "A reasoning model".into(),
        draft: Some("Qwen3-0.6B".into()),
        moe: Some(CatalogMoe {
            n_expert: 64,
            n_expert_used: 8,
        }),
        repo_url: Some("https://huggingface.co/org/qwen".into()),
        source_repo: Some("org/qwen".into()),
        source_revision: None,
        source_file: Some("Qwen3-8B-Q4_K_M.gguf".into()),
        file_quantization: "Q4_K_M".into(),
    }
}

fn entry(name: &str, descriptor: Option<ServedModelDescriptor>) -> MeshCatalogEntry {
    MeshCatalogEntry {
        model_name: name.into(),
        descriptor,
        display_name: format!("{name} (shown)"),
        installed: ModelCapabilities::default(),
    }
}

fn survey() -> ModelSurvey {
    ModelSurvey {
        catalog: vec![catalog_model()],
        peers: vec![],
        served: vec![],
        demand: TextMap::new(),
        routing_metrics: TextMap::new(),
        serving_models: vec![],
        hosted_models: vec![],
        hostname: None,
        fast_memory_bytes: 24_000_000_000,
        model_name: "".into(),
        model_size_bytes: 0,
        local_names: vec![],
        local_metadata: TextMap::new(),
        local_sizes: TextMap::new(),
        now_secs: 100,
    }
}

#[test]
fn the_catalogue_goes_by_name_and_file() {
    let catalog = vec![catalog_model()];
    assert!(find_catalog_model(&catalog, "Qwen3-8B").is_some());
    assert!(find_catalog_model(&catalog, "Qwen3-8B-Q4_K_M").is_some());
    assert!(find_catalog_model(&catalog, "Qwen3-8B-Q4_K_M.gguf").is_none());
}

#[test]
fn a_stranger_is_listed_by_the_catalogue_alone() {
    let r = describe_model(&survey(), &entry("Qwen3-8B", None));
    assert_eq!(r.service.status, "cold");
    assert_eq!(r.service.split_kind, "cold");
    assert_eq!(r.service.routes.node_count, 0);
    assert_eq!(r.display_name, "Qwen3-8B (shown)");
    assert_eq!(r.file.quantization.as_deref(), Some("Q4_K_M"));
    assert_eq!(r.file.description.as_deref(), Some("A reasoning model"));
    assert_eq!(r.file.draft_model.as_deref(), Some("Qwen3-0.6B"));
    assert_eq!(r.experts.expert_count, Some(64));
    assert_eq!(r.experts.used_expert_count, Some(8));
    assert!(!r.experts.moe);
    assert!(!r.capabilities.reasoning);
    assert_eq!(r.capabilities.reasoning_status, None);
    assert_eq!(r.source.source_page_url, None);
    assert_eq!(r.source.run_command, "senda serve --model Qwen3-8B");
    assert_eq!(r.service.size_gb.text(), "5.0");
    assert_eq!(r.demand.request_count, None);
    assert_eq!(r.demand.routing_metrics, None);
}

#[test]
fn a_known_model_is_listed_with_guesses_and_sources() {
    let mut s = survey();
    s.local_names = vec!["Qwen3-8B".into()];
    s.served = vec!["Qwen3-8B".into()];
    s.hosted_models = vec!["Qwen3-8B".into()];
    s.demand.insert(
        "Qwen3-8B".into(),
        ModelDemand {
            request_count: 7,
            last_active: 90,
        },
    );
    s.routing_metrics
        .insert("Qwen3-8B".into(), "{\"request_count\":1}".into());
    s.local_sizes.insert("Qwen3-8B".into(), 4_900_000_000);
    s.local_metadata.insert(
        "Qwen3-8B".into(),
        ModelMetadata {
            model_key: "Qwen3-8B".into(),
            architecture: " qwen3 ".into(),
            context_length: 32_768,
            quantization_type: "".into(),
            is_moe: true,
            expert_count: 0,
            used_expert_count: 4,
        },
    );
    let list = mesh_models(&s, &[entry("Qwen3-8B", None)]);
    let r = &list[0];
    assert_eq!(r.service.status, "warm");
    assert_eq!(r.service.split_kind, "solo");
    assert_eq!(r.service.routes.active_nodes, vec!["This node"]);
    assert_eq!(r.service.size_gb.text(), "4.9");
    assert_eq!(r.service.fit_label, "Likely comfortable");
    assert!(r.service.mesh_fit.fits_on_largest_node);
    assert!(r.capabilities.reasoning);
    assert_eq!(r.capabilities.reasoning_status, Some("likely"));
    assert!(!r.capabilities.vision);
    assert_eq!(r.file.architecture.as_deref(), Some("qwen3"));
    assert_eq!(r.file.context_length, Some(32_768));
    assert_eq!(r.file.quantization.as_deref(), Some("Q4_K_M"));
    assert!(r.experts.moe);
    assert_eq!(r.experts.expert_count, Some(64));
    assert_eq!(r.experts.used_expert_count, Some(4));
    assert_eq!(
        r.source.source_page_url.as_deref(),
        Some("https://huggingface.co/org/qwen")
    );
    assert_eq!(r.source.source_ref.as_deref(), Some("org/qwen"));
    assert_eq!(r.source.source_file.as_deref(), Some("Qwen3-8B-Q4_K_M.gguf"));
    assert_eq!(
        r.source.download_command,
        "senda models download org/qwen/Qwen3-8B-Q4_K_M.gguf"
    );
    assert_eq!(r.demand.request_count, Some(7));
    assert_eq!(r.demand.last_active_secs_ago, Some(10));
    assert_eq!(r.demand.routing_metrics.as_deref(), Some("{\"request_count\":1}"));
}

#[test]
fn a_server_describes_its_model() {
    let mut id = identity();
    id.canonical_ref = Some("org/repo@main/f".into());
    let descriptor = ServedModelDescriptor {
        identity: id,
        capabilities: ModelCapabilities {
            vision: CapabilityLevel::Supported,
            ..ModelCapabilities::default()
        },
        moe: Some(MoeTopology {
            expert_count: 128,
            used_expert_count: 8,
            ranking_source: Some("analyze".into()),
            ranking_origin: None,
            ranking_prompt_count: Some(20),
            ranking_tokens: None,
            ranking_layer_scope: None,
        }),
    };
    let r = describe_model(&survey(), &entry("other", Some(descriptor)));
    assert!(r.capabilities.vision && r.capabilities.multimodal);
    assert_eq!(r.capabilities.vision_status, Some("supported"));
    assert!(r.experts.moe);
    assert_eq!(r.experts.expert_count, Some(128));
    assert_eq!(r.experts.ranking_source.as_deref(), Some("analyze"));
    assert_eq!(r.experts.ranking_prompt_count, Some(20));
    assert_eq!(r.source.source_ref.as_deref(), Some("org/repo"));
    assert_eq!(r.source.source_revision.as_deref(), Some("main"));
    assert_eq!(
        r.source.auto_command,
        "senda serve --auto --model org/repo@main/f"
    );
    assert_eq!(r.service.size_gb.text(), "0.0");
    assert_eq!(r.service.fit_label, "Unknown");
}

#[test]
fn submissions_name_a_model_and_perhaps_a_source() {
    let full = read_submission("{\"model_ref\":\"org/m@main:Q4\",\"source\":\"ui\"}");
    assert_eq!(full, Some(("org/m@main:Q4".to_string(), Some("ui".to_string()))));
    let bare = read_submission("{\"source\":1,\"model_ref\":\"m\"}");
    assert_eq!(bare, Some(("m".to_string(), None)));
    assert_eq!(read_submission("{\"model_ref\":7}"), None);
    assert_eq!(read_submission("{"), None);
    assert_eq!(submission_of(&Json::Null), None);
    assert_eq!(
        decode_interest_path("/api/model-interests/Qwen%2FQwen3-GGUF%40main%3AQ4_K_M"),
        Some("Qwen/Qwen3-GGUF@main:Q4_K_M".to_string())
    );
    assert_eq!(decode_interest_path("/api/model-interests/"), None);
}

#[test]
fn the_primary_model_has_its_own_size() {
    let mut s = survey();
    s.model_name = "Qwen3-8B".into();
    s.model_size_bytes = 6_000_000_000;
    s.local_sizes.insert("Qwen3-8B".into(), 1);
    assert_eq!(
        describe_model(&s, &entry("Qwen3-8B", None)).service.size_gb.text(),
        "6.0"
    );
}

#[test]
fn interests_are_renewed_and_listed_latest_first() {
    let mut interests = ModelInterests::new();
    let (first, created) = interests.upsert_at("b".into(), Some("ui".into()), 10);
    assert!(created);
    assert_eq!(first.created_at_unix, 10);
    interests.upsert_at("a".into(), None, 10);
    interests.upsert_at("c".into(), None, 5);
    let (again, created) = interests.upsert_at("c".into(), None, 20);
    assert!(!created);
    assert_eq!((again.created_at_unix, again.updated_at_unix), (5, 20));
    let (kept, _) = interests.upsert_at("b".into(), None, 10);
    assert_eq!(kept.submission_source.as_deref(), Some("ui"));
    let order: Vec<String> = interests.list().into_iter().map(|i| i.model_ref).collect();
    assert_eq!(order, vec!["c", "a", "b"]);
    assert!(interests.remove("a"));
    assert!(!interests.remove("a"));
    assert_eq!(interests.list().len(), 2);
    let (third, created) = interests.upsert_at("b".into(), Some("cli".into()), 30);
    assert!(!created && third.created_at_unix == 10);
    assert_eq!(third.submission_source.as_deref(), Some("cli"));
    let listed = interests.list();
    assert_eq!(listed.iter().filter(|i| i.model_ref == "b").count(), 1);
    assert_eq!(listed[0].updated_at_unix, 30);
}

fn api() -> MeshApi {
    MeshApi::new("Primary".into(), 3131, 4_000_000_000, vec!["wss://relay".into()])
}

fn process(name: &str, port: u16) -> RuntimeProcessPayload {
    RuntimeProcessPayload {
        name: name.into(),
        backend: "llama".into(),
        status: "ready".into(),
        port,
        pid: 1,
        slots: 4,
    }
}

#[test]
fn interests_go_through_the_api() {
    let mut state = api();
    let (interest, created) = state.upsert_model_interest("m".into(), None);
    assert!(created && interest.created_at_unix > 1_600_000_000);
    assert_eq!(interest.created_at_unix, interest.updated_at_unix);
    assert_eq!(state.model_interests().len(), 1);
    assert!(state.remove_model_interest("m"));
    assert!(state.model_interests().is_empty());
}

#[test]
fn processes_are_kept_one_per_name() {
    let mut state = api();
    state.upsert_local_process(process("a", 1));
    state.upsert_local_process(process("b", 2));
    state.upsert_local_process(process("a", 3));
    assert_eq!(state.local_processes.len(), 2);
    assert_eq!(state.runtime_processes().processes[0].port, 3);
    assert_eq!(state.runtime_status().models.len(), 2);
    state.remove_local_process("a");
    assert_eq!(state.local_processes.len(), 1);
    assert_eq!(state.local_processes[0].name, "b");
}

#[test]
fn settings_are_recorded() {
    let mut state = api();
    assert_eq!(state.publication_state, PublicationState::Private);
    state.set_publication_state(PublicationState::PublishFailed);
    assert_eq!(state.publication_state.as_str(), "publish_failed");
    state.set_client(true);
    state.set_headless(true);
    state.set_mesh_name("mesh".into());
    state.set_draft_name("draft".into());
    state.set_primary_backend("cuda".into());
    state.set_latest_version("9".into());
    state.set_nostr_discovery(true);
    state.set_nostr_relays(vec![]);
    state.set_llama_port(Some(5));
    state.update(true, false);
    assert!(state.is_client && state.headless && state.nostr_discovery && state.is_host);
    assert_eq!(state.runtime_status().models[0].status, "starting");
    assert_eq!(state.runtime_status().models[0].backend, "cuda");
    assert!(state.begin_inventory_scan());
    assert!(!state.begin_inventory_scan());
    state.finish_inventory_scan();
    assert!(state.begin_inventory_scan());
}

#[test]
fn the_election_sets_port_and_readiness() {
    let mut state = api();
    state.follow_target(InferenceTarget::Local(9));
    assert_eq!((state.llama_port, state.llama_ready), (Some(9), false));
    state.follow_target(InferenceTarget::Remote("peer".into()));
    assert_eq!((state.llama_port, state.llama_ready), (None, true));
    state.follow_target(InferenceTarget::MoeLocal(7));
    assert_eq!((state.llama_port, state.llama_ready), (Some(7), true));
    state.follow_target(InferenceTarget::Nowhere);
    assert_eq!((state.llama_port, state.llama_ready), (None, true));
}

fn facts() -> NodeFacts {
    NodeFacts {
        version: "1.2.3".into(),
        pid: 42,
        node_id: "me".into(),
        token: "tok".into(),
        owner_summary: OwnershipSummary::default(),
        fast_memory_bytes: 16_000_000_000,
        system_ram_bytes: 1,
        inflight_requests: 2,
        models: vec![],
        available_models: vec![],
        requested_models: vec![],
        serving_models: vec!["Served".into()],
        hosted_models: vec![],
        peers: vec![],
        verdicts: vec![],
        reputation: vec![],
        wakeable: vec![WakeableInventoryEntry {
            logical_id: "sleeping-node-1".into(),
            models: vec!["wakeable-only-model".into()],
            vram_gb: 48.0f32.to_bits(),
            provider: None,
            state: WakeableState::Sleeping,
            wake_eta_secs: None,
        }],
        local_instances: vec![],
        mesh_id: Some("mesh".into()),
        hostname: Some("host".into()),
        is_soc: None,
        gpu_name: Some("A".into()),
        gpu_vram: None,
        gpu_reserved_bytes: None,
        gpu_mem_bandwidth_gbps: vec![Some(1948.7f64.to_bits())],
        gpu_compute_tflops_fp32: vec![],
        gpu_compute_tflops_fp16: vec![],
        capability: Some(NodeCapability::default()),
        routing_affinity: "{\"sticky_hits\":3}".into(),
        routing_metrics: "{\"request_count\":1}".into(),
        model_timings: vec![ModelTiming {
            model: "m".into(),
            measured_tps_p50: 3.5f64.to_bits(),
            measured_ttft_ms_p50: 9,
        }],
        native_baselines: vec![],
        serving_tokens: TextMap::new(),
        first_joined_mesh_ts: None,
        mesh_visibility: None,
    }
}

#[test]
fn an_idle_node_reports_what_it_knows() {
    let status = api().status(facts());
    assert_eq!(status.node_state, NodeState::Standby);
    assert_eq!(status.node_status, "Standby");
    assert_eq!(status.model_name, "Served");
    assert_eq!(status.launch_pi, None);
    assert_eq!(status.launch_goose, None);
    assert!(status.peers.is_empty());
    assert_eq!(status.wakeable_nodes.len(), 1);
    assert_eq!(status.wakeable_nodes[0].logical_id, "sleeping-node-1");
    assert_eq!(status.local_instances.len(), 1);
    assert_eq!(status.local_instances[0].pid, 42);
    assert_eq!(status.gpus[0].mem_bandwidth_gbps, Some(1948.7f64.to_bits()));
    assert_eq!(status.measured_ttft_ms_p50_by_model.get("m"), Some(&9));
    assert_eq!(status.publication_state, "private");
    assert_eq!(status.model_size_gb.text(), "4.0");
    assert_eq!(status.my_vram_gb.text(), "16.0");
    assert_eq!(status.version, "1.2.3");
    assert_eq!(status.routing_affinity, "{\"sticky_hits\":3}");
    assert_eq!(status.routing_metrics, "{\"request_count\":1}");
    assert_eq!(status.my_split_role, None);
}

#[test]
fn a_node_with_a_process_serves() {
    let mut state = api();
    state.upsert_local_process(process("Qwen", 9337));
    let status = state.status(facts());
    assert_eq!(status.node_state, NodeState::Serving);
    assert!(status.is_host && status.llama_ready);
    assert_eq!(status.model_name, "Qwen");
    assert_eq!(status.launch_pi.as_deref(), Some("pi --provider mesh --model Qwen"));
    assert_eq!(
        status.launch_goose.as_deref(),
        Some("GOOSE_PROVIDER=openai OPENAI_HOST=http://localhost:3131 OPENAI_API_KEY=mesh GOOSE_MODEL=Qwen goose session")
    );
}
