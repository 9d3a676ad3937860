//! Peers, splits and the state that is shown of them.

use senda::gigabytes::Gigabytes;
use senda::gpus::{build_gpus, column_cells, expand_gpu_names, inferred_gpu_name_count, GpuEntry};
use senda::model_ad::{ModelAdStatus, ModelAdSummary};
use senda::peers::{
    ModelRuntimeDescriptor, ModelTiming, NodeCapability, NodeRole, OwnershipStatus,
    OwnershipSummary, PeerInfo,
};
use senda::runtime::{
    build_runtime_processes_payload, build_runtime_status_payload, classify_runtime_error,
    decode_runtime_model_path, http_body_text, RuntimeProcessPayload,
};
use senda::split::{
    classify_local_split_role, classify_model_split_kind, classify_peer_split_role,
    compute_mesh_fit, host_can_solo_model, http_route_stats, model_bytes_observed_in_mesh,
    serving_mode_from_classification,
};
use senda::status::{
    build_model_ad_payload, build_ownership_payload, build_peer_payload, build_peer_payloads,
    build_wakeable_node, derive_local_node_state, derive_peer_state, local_instances_or_self,
    LocalInstance, NodeCapabilityPayload, NodeState, ReputationScore, VerifyVerdictRecord,
    WakeableInventoryEntry, WakeableNodeState, WakeableState,
};
use senda::text_map::TextMap;
use senda::verify::{audit_candidates, ReferenceStore};

/// A column of floating point cells, as it is announced.
fn cells(column: &str) -> Vec<Option<u64>> {
    column_cells(Some(column))
        .into_iter()
        .map(|cell| cell.parse::<f64>().ok().map(f64::to_bits))
        .collect()
}

fn gpus(
    name: Option<&str>,
    vram: Option<&str>,
    reserved: Option<&str>,
    bandwidth: Option<&str>,
    fp32: Option<&str>,
    fp16: Option<&str>,
) -> Vec<GpuEntry> {
    let column = |c: Option<&str>| c.map(cells).unwrap_or_default();
    build_gpus(name, vram, reserved, &column(bandwidth), &column(fp32), &column(fp16))
}

fn bits(x: f64) -> Option<u64> {
    Some(x.to_bits())
}

fn gb(x: f64) -> Gigabytes {
    Gigabytes::from_bytes((x * 1e9) as u64)
}

/// The double precision number that a figure stands for.
fn number(g: &Gigabytes) -> f64 {
    let (mant, shift) = g.parts();
    mant as f64 * 2f64.powi(shift as i32 - 90)
}

fn strings(list: Vec<&str>) -> Vec<String> {
    list.into_iter().map(str::to_string).collect()
}

fn make_peer(id: String, role: NodeRole) -> PeerInfo {
    PeerInfo {
        short_id: id[..10].to_string(),
        id,
        role,
        models: vec![],
        available_models: vec![],
        requested_models: vec![],
        vram_bytes: 0,
        serving_models: vec![],
        hosted_models: vec![],
        hosted_models_known: false,
        version: None,
        rtt_ms: None,
        inflight_requests: 0,
        system_ram_bytes: 0,
        hostname: None,
        is_soc: None,
        gpu_name: None,
        gpu_vram: None,
        gpu_reserved_bytes: None,
        gpu_mem_bandwidth_gbps: vec![],
        gpu_compute_tflops_fp32: vec![],
        gpu_compute_tflops_fp16: vec![],
        available_model_sizes: TextMap::new(),
        available_model_metadata: vec![],
        served_model_runtime: vec![],
        model_timings: vec![],
        native_baselines: vec![],
        first_joined_mesh_ts: None,
        capability: NodeCapability::default(),
        owner_summary: OwnershipSummary::default(),
        model_ad: ModelAdSummary::default(),
    }
}

fn make_test_state_peer(seed: u8, role: NodeRole) -> PeerInfo {
    make_peer(format!("{seed:064x}"), role)
}

fn make_test_peer(
    seed: u8,
    role: NodeRole,
    serving_models: Vec<&str>,
    hosted_models: Vec<&str>,
    hosted_models_known: bool,
) -> PeerInfo {
    let mut peer = make_peer(format!("{seed:02x}").repeat(32), role);
    peer.vram_bytes = 24_000_000_000;
    peer.serving_models = strings(serving_models);
    peer.hosted_models = strings(hosted_models);
    peer.hosted_models_known = hosted_models_known;
    peer
}

const HOST: NodeRole = NodeRole::Host { http_port: 9337 };

fn make_legacy_peer_fixture(seed: u8, role: NodeRole, serving_models: Vec<&str>) -> PeerInfo {
    let mut peer = make_test_state_peer(seed, role);
    peer.version = Some("0.54.0".into());
    peer.serving_models = strings(serving_models);
    peer
}

#[test]
fn a_column_has_a_cell_per_comma() {
    assert_eq!(column_cells(Some(" 1.5,, x ")), vec!["1.5", "", "x"]);
    assert!(column_cells(None).is_empty());
}

#[test]
fn test_build_gpus_both_none() {
    let result = gpus(None, None, None, None, None, None);
    assert!(result.is_empty(), "expected empty vec when no gpu_name");
}

#[test]
fn test_build_gpus_single_no_vram() {
    let result = gpus(Some("NVIDIA RTX 5090"), None, None, None, None, None);
    assert_eq!(result.len(), 1);
    assert_eq!(result[0].name, "NVIDIA RTX 5090");
    assert_eq!(result[0].vram_bytes, 0);
}

#[test]
fn test_build_gpus_single_with_vram() {
    let result = gpus(
        Some("NVIDIA RTX 5090"),
        Some("34359738368"),
        None,
        None,
        None,
        None,
    );
    assert_eq!(result.len(), 1);
    assert_eq!(result[0].name, "NVIDIA RTX 5090");
    assert_eq!(result[0].vram_bytes, 34_359_738_368);
}

#[test]
fn test_build_gpus_multi_full_vram() {
    let result = gpus(
        Some("NVIDIA RTX 5090, NVIDIA RTX 3080"),
        Some("34359738368,10737418240"),
        None,
        None,
        None,
        None,
    );
    assert_eq!(result.len(), 2);
    assert_eq!(result[0].name, "NVIDIA RTX 5090");
    assert_eq!(result[0].vram_bytes, 34_359_738_368);
    assert_eq!(result[1].name, "NVIDIA RTX 3080");
    assert_eq!(result[1].vram_bytes, 10_737_418_240);
}

#[test]
fn test_build_gpus_multi_full_vram_without_space_after_comma() {
    let result = gpus(
        Some("NVIDIA RTX 5090,NVIDIA RTX 3080"),
        Some("34359738368,10737418240"),
        None,
        None,
        None,
        None,
    );
    assert_eq!(result.len(), 2);
    assert_eq!(result[0].name, "NVIDIA RTX 5090");
    assert_eq!(result[1].name, "NVIDIA RTX 3080");
    assert_eq!(result[0].vram_bytes, 34_359_738_368);
    assert_eq!(result[1].vram_bytes, 10_737_418_240);
}

#[test]
fn test_build_gpus_multi_names_trim_whitespace() {
    let result = gpus(
        Some(" GPU0 ,GPU1 ,  GPU2  "),
        Some("100,200,300"),
        None,
        None,
        None,
        None,
    );
    assert_eq!(result.len(), 3);
    assert_eq!(result[0].name, "GPU0");
    assert_eq!(result[1].name, "GPU1");
    assert_eq!(result[2].name, "GPU2");
}

#[test]
fn test_build_gpus_expands_summarized_identical_names() {
    let result = gpus(
        Some("2\u{d7} NVIDIA A100"),
        Some("85899345920,85899345920"),
        None,
        Some("1948.70,1948.70"),
        None,
        None,
    );
    assert_eq!(result.len(), 2);
    assert_eq!(result[0].name, "NVIDIA A100");
    assert_eq!(result[1].name, "NVIDIA A100");
    assert_eq!(result[0].vram_bytes, 85_899_345_920);
    assert_eq!(result[1].vram_bytes, 85_899_345_920);
    assert_eq!(result[0].mem_bandwidth_gbps, bits(1948.70));
    assert_eq!(result[1].mem_bandwidth_gbps, bits(1948.70));
}

#[test]
fn test_build_gpus_multi_partial_vram() {
    let result = gpus(
        Some("NVIDIA RTX 5090, NVIDIA RTX 3080"),
        Some("34359738368"),
        None,
        None,
        None,
        None,
    );
    assert_eq!(result.len(), 2);
    assert_eq!(result[0].vram_bytes, 34_359_738_368);
    assert_eq!(
        result[1].vram_bytes, 0,
        "missing VRAM entry should default to 0"
    );
}

#[test]
fn test_build_gpus_vram_no_gpu_name() {
    let result = gpus(None, Some("34359738368"), None, None, None, None);
    assert!(
        result.is_empty(),
        "no gpu_name means no entries even if vram present"
    );
}

#[test]
fn test_build_gpus_vram_whitespace_trimmed() {
    let result = gpus(
        Some("NVIDIA RTX 4090"),
        Some(" 25769803776 "),
        None,
        None,
        None,
        None,
    );
    assert_eq!(result.len(), 1);
    assert_eq!(result[0].vram_bytes, 25_769_803_776);
}

#[test]
fn test_build_gpus_with_bandwidth() {
    let result = gpus(
        Some("NVIDIA A100, NVIDIA A6000"),
        Some("85899345920,51539607552"),
        None,
        Some("1948.70,780.10"),
        None,
        None,
    );
    assert_eq!(result.len(), 2);
    assert_eq!(result[0].mem_bandwidth_gbps, bits(1948.70));
    assert_eq!(result[1].mem_bandwidth_gbps, bits(780.10));
}

#[test]
fn test_build_gpus_unparsable_vram_preserves_index() {
    let result = gpus(
        Some("GPU0, GPU1, GPU2"),
        Some("100,foo,300"),
        None,
        None,
        None,
        None,
    );
    assert_eq!(result.len(), 3);
    assert_eq!(result[0].vram_bytes, 100);
    assert_eq!(
        result[1].vram_bytes, 0,
        "unparsable vram should default to 0, not shift indices"
    );
    assert_eq!(result[2].vram_bytes, 300);
}

#[test]
fn test_build_gpus_unparsable_bandwidth_preserves_index() {
    let result = gpus(
        Some("GPU0, GPU1, GPU2"),
        Some("100,200,300"),
        None,
        Some("1.0,bad,3.0"),
        None,
        None,
    );
    assert_eq!(result.len(), 3);
    assert_eq!(result[0].mem_bandwidth_gbps, bits(1.0));
    assert_eq!(
        result[1].mem_bandwidth_gbps, None,
        "unparsable bandwidth should be None, not shift indices"
    );
    assert_eq!(result[2].mem_bandwidth_gbps, bits(3.0));
}

#[test]
fn test_build_gpus_with_both_tflops_precisions() {
    let result = gpus(
        Some("GPU0, GPU1"),
        Some("100,200"),
        None,
        None,
        Some("312.5,419.5"),
        Some("625.0,839.0"),
    );
    assert_eq!(result.len(), 2);
    assert_eq!(result[0].compute_tflops_fp32, bits(312.5));
    assert_eq!(result[0].compute_tflops_fp16, bits(625.0));
    assert_eq!(result[1].compute_tflops_fp32, bits(419.5));
    assert_eq!(result[1].compute_tflops_fp16, bits(839.0));
}

#[test]
fn test_build_gpus_fp32_only_fp16_absent() {
    let result = gpus(
        Some("GPU0, GPU1"),
        Some("100,200"),
        None,
        None,
        Some("312.5,bad"),
        None,
    );
    assert_eq!(result.len(), 2);
    assert_eq!(result[0].compute_tflops_fp32, bits(312.5));
    assert_eq!(result[1].compute_tflops_fp32, None);
    assert!(result.iter().all(|gpu| gpu.compute_tflops_fp16.is_none()));
}

#[test]
fn test_build_gpus_with_reserved_bytes_preserves_index() {
    let result = gpus(
        Some("GPU0, GPU1, GPU2"),
        Some("100,200,300"),
        Some("10,,30"),
        None,
        None,
        None,
    );
    assert_eq!(result.len(), 3);
    assert_eq!(result[0].reserved_bytes, Some(10));
    assert_eq!(result[1].reserved_bytes, None);
    assert_eq!(result[2].reserved_bytes, Some(30));
}

#[test]
fn counted_names_are_expanded() {
    let names = Some("2\u{d7} A, B,3x C");
    assert_eq!(
        expand_gpu_names(names),
        strings(vec!["A", "A", "B", "C", "C", "C"])
    );
    assert_eq!(inferred_gpu_name_count(names), 6);
    assert_eq!(inferred_gpu_name_count(None), 0);
}

#[test]
fn classify_model_split_kind_marks_solo_when_single_node() {
    let kind = classify_model_split_kind(
        "Qwen3-8B-Q4_K_M",
        true,
        false,
        1,
        gb(5.0),
        &[],
        gb(16.0),
        true,
    );
    assert_eq!(kind, "solo");
}

#[test]
fn classify_model_split_kind_marks_pipeline_when_dense_too_big_for_any_node() {
    let host = make_test_peer(1, HOST, vec!["GLM-4.7-Flash"], vec!["GLM-4.7-Flash"], true);
    let worker = make_test_peer(2, NodeRole::Worker, vec!["GLM-4.7-Flash"], vec![], true);
    let kind = classify_model_split_kind(
        "GLM-4.7-Flash",
        true,
        false,
        2,
        gb(44.0),
        &[host, worker],
        gb(8.0),
        false,
    );
    assert_eq!(kind, "pipeline");
}

#[test]
fn classify_model_split_kind_marks_multi_host_when_dense_fits_each_node() {
    let host_a = make_test_peer(3, HOST, vec!["Qwen3-8B-Q4_K_M"], vec!["Qwen3-8B-Q4_K_M"], true);
    let host_b = make_test_peer(4, HOST, vec!["Qwen3-8B-Q4_K_M"], vec!["Qwen3-8B-Q4_K_M"], true);
    let kind = classify_model_split_kind(
        "Qwen3-8B-Q4_K_M",
        true,
        false,
        2,
        gb(4.0),
        &[host_a, host_b],
        gb(8.0),
        false,
    );
    assert_eq!(kind, "multi_host");
}

#[test]
fn classify_model_split_kind_marks_moe_when_flag_set_and_multi_node() {
    let host_a = make_test_peer(5, HOST, vec!["Qwen3-30B-A3B"], vec!["Qwen3-30B-A3B"], true);
    let host_b = make_test_peer(6, HOST, vec!["Qwen3-30B-A3B"], vec!["Qwen3-30B-A3B"], true);
    let kind = classify_model_split_kind(
        "Qwen3-30B-A3B",
        true,
        true,
        2,
        gb(18.0),
        &[host_a, host_b],
        gb(16.0),
        false,
    );
    assert_eq!(kind, "moe");
}

#[test]
fn classify_model_split_kind_returns_cold_when_no_active_nodes() {
    let kind = classify_model_split_kind(
        "Qwen3-8B-Q4_K_M",
        false,
        false,
        0,
        gb(5.0),
        &[],
        gb(16.0),
        false,
    );
    assert_eq!(kind, "cold");
}

#[test]
fn compute_mesh_fit_marks_fits_solo_when_local_box_has_enough_vram() {
    let fit = compute_mesh_fit(gb(20.0), gb(64.0), &[]);
    assert!(fit.fits_on_largest_node);
    assert!(fit.fits_pooled);
    assert!(fit.eligible_peer_count >= 1);
    assert!((number(&fit.needed_vram_gb) - 22.0).abs() < 1e-6);
}

#[test]
fn compute_mesh_fit_marks_pooled_when_swarm_combined_capacity_clears_threshold() {
    let peer_a = make_test_peer(10, HOST, vec![], vec![], true);
    let peer_b = make_test_peer(11, NodeRole::Worker, vec![], vec![], true);
    let fit = compute_mesh_fit(gb(40.0), gb(16.0), &[peer_a, peer_b]);
    assert!(!fit.fits_on_largest_node);
    assert!(fit.fits_pooled);
    assert!(number(&fit.pooled_vram_gb) >= 60.0);
    assert_eq!(fit.eligible_peer_count, 3);
}

#[test]
fn a_peer_that_holds_the_model_makes_the_pool_hold_it() {
    let mut large_peer = make_test_peer(14, NodeRole::Worker, vec![], vec![], true);
    large_peer.vram_bytes = 64_000_000_000;
    let fit = compute_mesh_fit(gb(50.0), gb(8.0), &[large_peer]);
    assert!(fit.fits_on_largest_node);
    assert!(fit.fits_pooled);
    assert_eq!(number(&fit.pooled_vram_gb), 72.0);
}

#[test]
fn one_more_peer_keeps_the_fit() {
    let few = vec![make_test_peer(15, NodeRole::Worker, vec![], vec![], true)];
    let before = compute_mesh_fit(gb(30.0), gb(16.0), &few);
    assert!(before.fits_pooled && !before.fits_on_largest_node);
    for role in [NodeRole::Client, NodeRole::Worker] {
        let more = vec![
            make_test_peer(15, NodeRole::Worker, vec![], vec![], true),
            make_test_peer(16, role, vec![], vec![], true),
        ];
        let after = compute_mesh_fit(gb(30.0), gb(16.0), &more);
        let counted: u32 = if role == NodeRole::Client { 0 } else { 1 };
        assert!(after.fits_pooled);
        assert_eq!(after.eligible_peer_count, before.eligible_peer_count + counted);
        assert_eq!(
            number(&after.pooled_vram_gb) == number(&before.pooled_vram_gb),
            counted == 0
        );
    }
}

#[test]
fn compute_mesh_fit_marks_neither_when_pool_short() {
    let mut small_peer = make_test_peer(12, NodeRole::Worker, vec![], vec![], true);
    small_peer.vram_bytes = 4_000_000_000;
    let fit = compute_mesh_fit(gb(200.0), gb(8.0), &[small_peer]);
    assert!(!fit.fits_on_largest_node);
    assert!(!fit.fits_pooled);
}

#[test]
fn compute_mesh_fit_uses_fast_memory_not_inflated_advertised_bytes() {
    let mut inflated_peer = make_test_peer(13, NodeRole::Worker, vec![], vec![], true);
    inflated_peer.vram_bytes = 106_000_000_000;
    inflated_peer.capability.vram_total_mb = 16 * 1024;

    let fit = compute_mesh_fit(gb(40.0), gb(12.0), &[inflated_peer]);
    assert!(!fit.fits_on_largest_node);
    assert!(!fit.fits_pooled);
    assert!(number(&fit.pooled_vram_gb) < number(&fit.needed_vram_gb));
}

#[test]
fn entry_nodes_and_clients_do_not_count_towards_the_pool() {
    let mut entry = make_test_peer(14, NodeRole::Worker, vec![], vec![], true);
    entry.hostname = Some("ip-10-0-0-1".into());
    let client = make_test_peer(15, NodeRole::Client, vec![], vec![], true);
    let fit = compute_mesh_fit(gb(1.0), gb(0.0), &[entry, client]);
    assert_eq!(fit.eligible_peer_count, 0);
    assert_eq!(number(&fit.pooled_vram_gb), 0.0);
}

#[test]
fn classify_peer_split_role_returns_none_for_solo_serve() {
    let lone = make_test_peer(20, HOST, vec!["Qwen3-8B-Q4_K_M"], vec!["Qwen3-8B-Q4_K_M"], true);
    let class = classify_peer_split_role(&lone, std::slice::from_ref(&lone));
    assert!(class.role.is_none());
    assert!(class.group.is_none());
}

#[test]
fn classify_peer_split_role_marks_pipeline_host_and_worker() {
    let peers = vec![
        make_test_peer(21, HOST, vec!["GLM-4.7-Flash"], vec!["GLM-4.7-Flash"], true),
        make_test_peer(22, NodeRole::Worker, vec!["GLM-4.7-Flash"], vec![], true),
    ];

    let host_class = classify_peer_split_role(&peers[0], &peers);
    assert_eq!(host_class.role.as_deref(), Some("pipeline_host"));
    assert_eq!(
        serving_mode_from_classification(&peers[0], &host_class).as_deref(),
        Some("split_host")
    );
    let group = host_class.group.expect("split_group populated for host");
    assert_eq!(group.model, "GLM-4.7-Flash");
    assert_eq!(group.peer_ids.len(), 2);

    let worker_class = classify_peer_split_role(&peers[1], &peers);
    assert_eq!(worker_class.role.as_deref(), Some("pipeline_worker"));
    assert_eq!(
        serving_mode_from_classification(&peers[1], &worker_class).as_deref(),
        Some("split_worker")
    );
    assert_eq!(
        number(&worker_class.group.unwrap().total_group_vram_gb),
        48.0
    );
}

#[test]
fn peer_payload_keeps_host_serving_when_worker_is_loading() {
    let host_serving = make_test_peer(
        41,
        HOST,
        vec!["DeepSeek-R1-Distill-70B"],
        vec!["DeepSeek-R1-Distill-70B"],
        true,
    );
    let worker_loading = make_test_peer(
        42,
        NodeRole::Worker,
        vec!["DeepSeek-R1-Distill-70B"],
        vec![],
        true,
    );

    assert_eq!(derive_peer_state(&host_serving), NodeState::Serving);
    assert_eq!(derive_peer_state(&worker_loading), NodeState::Loading);
    assert_eq!(
        host_serving.hosted_models,
        vec!["DeepSeek-R1-Distill-70B".to_string()]
    );

    let shown = build_peer_payloads(&[host_serving, worker_loading], &[], &[]);
    assert_eq!(shown[0].state, NodeState::Serving);
    assert_eq!(shown[0].hosted_models, vec!["DeepSeek-R1-Distill-70B".to_string()]);
    assert_eq!(shown[1].state, NodeState::Loading);
}

#[test]
fn classify_peer_split_role_returns_none_when_no_host_in_cohort() {
    let worker = |seed| {
        make_test_peer(
            seed,
            NodeRole::Worker,
            vec!["DeepSeek-R1-Distill-70B"],
            vec![],
            true,
        )
    };
    let peers = vec![worker(70), worker(71), worker(72)];
    let class = classify_peer_split_role(&peers[0], &peers);
    assert!(
        class.role.is_none(),
        "no Host in cohort; got {:?}",
        class.role
    );
    assert!(class.group.is_none());
}

#[test]
fn classify_peer_split_role_still_marks_worker_when_host_present() {
    let peers = vec![
        make_test_peer(
            80,
            HOST,
            vec!["DeepSeek-R1-Distill-70B"],
            vec!["DeepSeek-R1-Distill-70B"],
            true,
        ),
        make_test_peer(
            81,
            NodeRole::Worker,
            vec!["DeepSeek-R1-Distill-70B"],
            vec![],
            true,
        ),
    ];
    let class = classify_peer_split_role(&peers[1], &peers);
    assert_eq!(class.role.as_deref(), Some("pipeline_worker"));
    let group = class
        .group
        .expect("split group still populated when host present");
    assert_eq!(group.host_id, peers[0].short_id);
}

#[test]
fn classify_peer_split_role_returns_none_when_host_can_solo_the_model() {
    let mut host = make_test_peer(90, HOST, vec!["Qwen3-8B-Q4_K_M"], vec!["Qwen3-8B-Q4_K_M"], true);
    host.vram_bytes = 15_000_000_000;
    host.available_model_sizes
        .insert("Qwen3-8B-Q4_K_M".to_string(), 5_000_000_000);
    let peers = vec![
        host,
        make_test_peer(91, NodeRole::Worker, vec!["Qwen3-8B-Q4_K_M"], vec![], true),
        make_test_peer(92, NodeRole::Worker, vec!["Qwen3-8B-Q4_K_M"], vec![], true),
    ];

    let host_class = classify_peer_split_role(&peers[0], &peers);
    assert!(
        host_class.role.is_none(),
        "host that can solo the model must not be tagged pipeline_host; got {:?}",
        host_class.role
    );
    assert!(
        host_class.group.is_none(),
        "no split_group when the cohort is standby"
    );

    for standby in [&peers[1], &peers[2]] {
        let class = classify_peer_split_role(standby, &peers);
        assert!(
            class.role.is_none(),
            "standby Worker must not be tagged pipeline_worker; got {:?}",
            class.role
        );
        assert!(class.group.is_none());
    }
}

#[test]
fn classify_peer_split_role_marks_split_when_model_does_not_fit_solo() {
    let mut host = make_test_peer(
        100,
        HOST,
        vec!["DeepSeek-R1-Distill-70B"],
        vec!["DeepSeek-R1-Distill-70B"],
        true,
    );
    host.vram_bytes = 16_000_000_000;
    host.available_model_sizes
        .insert("DeepSeek-R1-Distill-70B".to_string(), 42_000_000_000);
    let peers = vec![
        host,
        make_test_peer(
            101,
            NodeRole::Worker,
            vec!["DeepSeek-R1-Distill-70B"],
            vec![],
            true,
        ),
    ];

    let host_class = classify_peer_split_role(&peers[0], &peers);
    assert_eq!(host_class.role.as_deref(), Some("pipeline_host"));
    assert!(host_class.group.is_some());

    let worker_class = classify_peer_split_role(&peers[1], &peers);
    assert_eq!(worker_class.role.as_deref(), Some("pipeline_worker"));
}

#[test]
fn classify_peer_split_role_treats_dual_routing_hosts_as_replicas() {
    let peers = vec![
        make_test_peer(30, HOST, vec!["Qwen3-30B-A3B"], vec!["Qwen3-30B-A3B"], true),
        make_test_peer(31, HOST, vec!["Qwen3-30B-A3B"], vec!["Qwen3-30B-A3B"], true),
    ];

    let class = classify_peer_split_role(&peers[0], &peers);
    assert_eq!(
        class.role, None,
        "two independent routing hosts are replicas, not a shard/split"
    );
    assert!(class.group.is_none());
    assert!(class.moe_shard.is_none());
    assert_eq!(
        serving_mode_from_classification(&peers[0], &class).as_deref(),
        Some("solo")
    );
}

#[test]
fn classify_local_split_role_treats_dual_routing_hosts_as_replicas() {
    let peers = vec![make_test_peer(
        41,
        HOST,
        vec!["Qwen3-8B-Q4_K_M"],
        vec!["Qwen3-8B-Q4_K_M"],
        true,
    )];
    let class = classify_local_split_role(
        "selflocalnode",
        true,
        false,
        &["Qwen3-8B-Q4_K_M".to_string()],
        &["Qwen3-8B-Q4_K_M".to_string()],
        gb(16.0),
        &peers,
    );
    assert_eq!(
        class.role, None,
        "local host + another routing host = replicas, not a shard/split"
    );
    assert!(class.group.is_none());
    assert!(class.moe_shard.is_none());
}

#[test]
fn the_local_node_works_for_a_host_and_hosts_for_workers() {
    let model = vec!["Big".to_string()];
    let host = vec![make_test_peer(43, HOST, vec!["Big"], vec!["Big"], true)];
    let class = classify_local_split_role("self", false, false, &model, &[], gb(16.0), &host);
    assert_eq!(class.role.as_deref(), Some("pipeline_worker"));
    let group = class.group.unwrap();
    assert_eq!(group.host_id, host[0].short_id);
    assert_eq!(number(&group.total_group_vram_gb), 40.0);

    let worker = vec![make_test_peer(44, NodeRole::Worker, vec!["Big"], vec![], true)];
    let class = classify_local_split_role("self", true, false, &model, &model, gb(16.0), &worker);
    assert_eq!(class.role.as_deref(), Some("pipeline_host"));
    assert_eq!(class.group.unwrap().host_id, "self");

    let class = classify_local_split_role("self", false, false, &model, &[], gb(16.0), &worker);
    assert!(class.role.is_none());
    let class = classify_local_split_role("self", true, true, &model, &model, gb(16.0), &worker);
    assert!(class.role.is_none());
}

#[test]
fn a_peer_with_several_models_belongs_to_the_largest_cohort() {
    let peers = vec![
        make_test_peer(50, NodeRole::Worker, vec!["A", "B"], vec![], true),
        make_test_peer(51, HOST, vec!["A"], vec!["A"], true),
        make_test_peer(52, NodeRole::Worker, vec!["A"], vec![], true),
        make_test_peer(53, HOST, vec!["B"], vec!["B"], true),
    ];
    let group = classify_peer_split_role(&peers[0], &peers).group.unwrap();
    assert_eq!(group.model, "A");
    assert_eq!(group.peer_ids.len(), 3);

    let turned = vec!["B".to_string(), "A".to_string()];
    let class = classify_local_split_role("self", false, false, &turned, &[], gb(16.0), &peers[1..]);
    assert_eq!(class.group.unwrap().model, "A");
    let tied = vec![
        make_test_peer(51, HOST, vec!["A"], vec!["A"], true),
        make_test_peer(53, HOST, vec!["B"], vec!["B"], true),
    ];
    let class = classify_local_split_role("self", false, false, &turned, &[], gb(16.0), &tied);
    assert_eq!(class.group.unwrap().model, "B");
}

#[test]
fn the_largest_announced_size_counts() {
    let mut a = make_test_peer(45, NodeRole::Worker, vec![], vec![], true);
    a.available_model_sizes.insert("m".to_string(), 5);
    let mut b = make_test_peer(46, NodeRole::Worker, vec![], vec![], true);
    b.available_model_sizes.insert("m".to_string(), 7);
    assert_eq!(model_bytes_observed_in_mesh("m", &[a, b]), 7);
    assert_eq!(model_bytes_observed_in_mesh("m", &[]), 0);
    assert!(host_can_solo_model(1_100, 1_000));
    assert!(!host_can_solo_model(1_099, 1_000));
    assert!(!host_can_solo_model(1_000, 0));
}

#[test]
fn test_http_body_text_extracts_body() {
    let raw = b"POST /api/plugins/x/tools/y HTTP/1.1\r\nHost: localhost\r\nContent-Length: 7\r\n\r\n{\"a\":1}";
    assert_eq!(http_body_text(raw), "{\"a\":1}");
}

fn process(name: &str, port: u16, pid: u32) -> RuntimeProcessPayload {
    RuntimeProcessPayload {
        name: name.into(),
        backend: "llama".into(),
        status: "ready".into(),
        port,
        pid,
        slots: 4,
    }
}

#[test]
fn test_build_runtime_status_payload_uses_local_processes() {
    let result = build_runtime_status_payload(
        "Qwen",
        Some("llama".into()),
        true,
        true,
        Some(9337),
        vec![process("Qwen", 9337, 100), process("Llama", 9444, 101)],
    );
    assert_eq!(result.models.len(), 2);
    assert_eq!(result.models[0].name, "Llama");
    assert_eq!(result.models[0].port, Some(9444));
    assert_eq!(result.models[1].name, "Qwen");
}

#[test]
fn test_build_runtime_status_payload_adds_starting_primary() {
    let payload =
        build_runtime_status_payload("Qwen", Some("llama".into()), true, false, Some(9337), vec![]);

    assert_eq!(payload.models.len(), 1);
    assert_eq!(payload.models[0].status, "starting");
    assert_eq!(payload.models[0].port, Some(9337));
}

#[test]
fn test_build_runtime_processes_payload_sorts_processes() {
    let payload =
        build_runtime_processes_payload(vec![process("Zulu", 9444, 11), process("Alpha", 9337, 10)]);

    assert_eq!(payload.processes.len(), 2);
    assert_eq!(payload.processes[0].name, "Alpha");
    assert_eq!(payload.processes[1].name, "Zulu");
}

#[test]
fn processes_are_listed_whatever_the_case() {
    let payload = build_runtime_processes_payload(vec![process("beta", 1, 1), process("Alpha", 2, 2)]);
    assert_eq!(payload.processes[0].name, "Alpha");
    assert_eq!(payload.processes[1].name, "beta");
    // The small form of the second name comes before the first.
    let payload = build_runtime_processes_payload(vec![
        process("\u{e5}b", 1, 1),
        process("\u{c4}b", 2, 2),
    ]);
    assert_eq!(payload.processes[0].name, "\u{c4}b");
}

#[test]
fn test_classify_runtime_error_codes() {
    assert_eq!(classify_runtime_error("model 'x' is not loaded"), 404);
    assert_eq!(classify_runtime_error("model 'x' is already loaded"), 409);
    assert_eq!(
        classify_runtime_error("runtime load only supports models that fit locally"),
        422
    );
    assert_eq!(classify_runtime_error("bad request"), 400);
}

fn derive_node_status(state: NodeState) -> &'static str {
    state.node_status_alias()
}

#[test]
fn derive_local_node_state_prefers_client() {
    let node_state = derive_local_node_state(true, true, true, true, "Qwen");

    assert_eq!(node_state, NodeState::Client);
    assert_eq!(derive_node_status(node_state), "Client");
}

#[test]
fn derive_local_node_state_returns_standby_without_ready_runtime() {
    let node_state = derive_local_node_state(false, false, false, false, "Qwen");

    assert_eq!(node_state, NodeState::Standby);
    assert_eq!(derive_node_status(node_state), "Standby");
}

#[test]
fn derive_local_node_state_returns_loading_for_declared_but_unready_work() {
    let host_loading = derive_local_node_state(false, true, false, false, "Qwen");
    let worker_loading = derive_local_node_state(false, false, false, true, "Qwen");

    assert_eq!(host_loading, NodeState::Loading);
    assert_eq!(worker_loading, NodeState::Loading);
    assert_eq!(derive_node_status(host_loading), "Loading");
    assert_eq!(derive_node_status(worker_loading), "Loading");
}

#[test]
fn derive_local_node_state_returns_serving_for_ready_runtime() {
    let host_serving = derive_local_node_state(false, true, true, false, "Qwen");
    let worker_serving = derive_local_node_state(false, false, true, true, "Qwen");

    assert_eq!(host_serving, NodeState::Serving);
    assert_eq!(worker_serving, NodeState::Serving);
    assert_eq!(derive_node_status(host_serving), "Serving");
    assert_eq!(derive_node_status(worker_serving), "Serving");
}

#[test]
fn derive_local_node_state_never_emits_legacy_idle_or_split_labels() {
    let labels = [
        derive_node_status(derive_local_node_state(true, true, true, true, "Qwen")),
        derive_node_status(derive_local_node_state(false, false, false, false, "Qwen")),
        derive_node_status(derive_local_node_state(false, true, false, false, "Qwen")),
        derive_node_status(derive_local_node_state(false, false, true, true, "Qwen")),
        derive_node_status(derive_local_node_state(false, false, false, false, "")),
    ];

    for label in labels {
        assert!(matches!(
            label,
            "Client" | "Standby" | "Loading" | "Serving"
        ));
        assert_ne!(label, "Idle");
        assert_ne!(label, "Serving (split)");
        assert_ne!(label, "Worker (split)");
    }
}

fn descriptor(context_length: Option<u32>, ready: bool) -> ModelRuntimeDescriptor {
    ModelRuntimeDescriptor {
        model_name: "Qwen".into(),
        identity_hash: None,
        context_length,
        ready,
    }
}

#[test]
fn derive_peer_state_prefers_client_role() {
    let mut peer = make_test_state_peer(1, NodeRole::Client);
    peer.serving_models = vec!["Qwen".into()];
    peer.hosted_models = vec!["Qwen".into()];
    peer.hosted_models_known = true;
    peer.served_model_runtime = vec![descriptor(Some(8192), true)];

    assert_eq!(derive_peer_state(&peer), NodeState::Client);
}

#[test]
fn derive_peer_state_returns_serving_for_ready_runtime() {
    let mut peer = make_test_state_peer(2, HOST);
    peer.serving_models = vec!["Qwen".into()];
    peer.hosted_models = vec!["Qwen".into()];
    peer.hosted_models_known = true;
    peer.served_model_runtime = vec![descriptor(Some(8192), true)];

    assert_eq!(derive_peer_state(&peer), NodeState::Serving);
}

#[test]
fn derive_peer_state_returns_loading_for_assigned_but_unready_peer() {
    let mut peer = make_test_state_peer(3, NodeRole::Worker);
    peer.serving_models = vec!["Qwen".into()];
    peer.served_model_runtime = vec![descriptor(None, false)];

    assert_eq!(derive_peer_state(&peer), NodeState::Loading);
}

#[test]
fn derive_peer_state_returns_standby_for_connected_idle_peer() {
    let peer = make_test_state_peer(4, NodeRole::Worker);

    assert_eq!(derive_peer_state(&peer), NodeState::Standby);
}

#[test]
fn derive_peer_state_falls_back_to_legacy_serving_models() {
    let mut peer = make_test_state_peer(5, NodeRole::Worker);
    peer.serving_models = vec!["Qwen".into()];

    assert_eq!(derive_peer_state(&peer), NodeState::Serving);
}

#[test]
fn derive_peer_state_reports_loading_for_modern_peer_with_empty_hosted_models() {
    let mut peer = make_test_state_peer(8, HOST);
    peer.serving_models = vec!["Qwen3-0.6B".into()];
    peer.hosted_models = vec![];
    peer.hosted_models_known = true;
    peer.served_model_runtime = vec![];

    assert_eq!(derive_peer_state(&peer), NodeState::Loading);
}

#[test]
fn legacy_peer_fixture_uses_backend_state_fallback() {
    let serving_peer = make_legacy_peer_fixture(6, HOST, vec!["Qwen"]);
    let standby_peer = make_legacy_peer_fixture(7, NodeRole::Worker, vec![]);

    assert_eq!(derive_peer_state(&serving_peer), NodeState::Serving);
    assert_eq!(derive_peer_state(&standby_peer), NodeState::Standby);
}

#[test]
fn test_decode_runtime_model_path_decodes_percent_not_plus() {
    assert_eq!(
        decode_runtime_model_path("/api/runtime/models/Llama%203.2+1B"),
        Some("Llama 3.2+1B".into())
    );
}

#[test]
fn test_decode_runtime_model_path_decodes_utf8_multibyte() {
    assert_eq!(
        decode_runtime_model_path("/api/runtime/models/mod%C3%A9le"),
        Some("modéle".into())
    );
    assert_eq!(decode_runtime_model_path("/api/runtime/models/%80"), None);
}

#[test]
fn names_come_back_whichever_bytes_are_escaped() {
    for written in ["50%25+\u{e9}", "%35%30%25%2b%c3%A9", "5%30%25%2B\u{e9}"] {
        let path = format!("/api/runtime/models/{written}");
        assert_eq!(
            decode_runtime_model_path(&path),
            Some("50%+\u{e9}".to_string())
        );
    }
    assert_eq!(decode_runtime_model_path("/api/runtime/models/"), None);
    assert_eq!(decode_runtime_model_path("/api/runtime/model/x"), None);
}

#[test]
fn test_http_route_stats_only_count_http_callable_legacy_hosts() {
    let peers = vec![
        make_test_peer(0x41, HOST, vec!["legacy-host-model"], Vec::new(), false),
        make_test_peer(0x42, NodeRole::Worker, vec!["worker-only-model"], Vec::new(), false),
    ];

    let host_stats = http_route_stats("legacy-host-model", &peers, &[], None, Gigabytes::zero());
    assert_eq!(host_stats.node_count, 1);
    assert_eq!(host_stats.active_nodes.len(), 1);
    assert!(number(&host_stats.mesh_vram_gb) > 0.0);

    let worker_stats = http_route_stats("worker-only-model", &peers, &[], None, Gigabytes::zero());
    assert_eq!(worker_stats.node_count, 0);
    assert!(worker_stats.active_nodes.is_empty());
    assert_eq!(number(&worker_stats.mesh_vram_gb), 0.0);
}

#[test]
fn answering_nodes_are_named_once_and_in_order() {
    let mut a = make_test_peer(0x43, HOST, vec![], vec!["m"], true);
    a.hostname = Some("zeta".into());
    let mut b = make_test_peer(0x44, HOST, vec![], vec!["m"], true);
    b.hostname = Some("zeta".into());
    let c = make_test_peer(0x45, HOST, vec![], vec!["m"], true);
    let short = c.short_id.clone();
    let own = "  ".to_string();
    let stats = http_route_stats("m", &[a, b, c], &["m".to_string()], Some(&own), gb(8.0));
    assert_eq!(stats.node_count, 4);
    let mut wanted = vec!["This node".to_string(), "zeta".to_string(), short];
    wanted.sort();
    assert_eq!(stats.active_nodes, wanted);
    assert_eq!(number(&stats.mesh_vram_gb), 80.0);
}

#[test]
fn build_wakeable_node_preserves_typed_internal_state() {
    let entry = |id: &str, state, eta| WakeableInventoryEntry {
        logical_id: id.to_string(),
        models: vec!["test-model".to_string()],
        vram_gb: 24.0f32.to_bits(),
        provider: Some("test-provider".to_string()),
        state,
        wake_eta_secs: Some(eta),
    };
    let sleeping = build_wakeable_node(entry("sleeping-node", WakeableState::Sleeping, 45));
    let waking = build_wakeable_node(entry("waking-node", WakeableState::Waking, 10));

    assert_eq!(sleeping.state, WakeableNodeState::Sleeping);
    assert_eq!(waking.state, WakeableNodeState::Waking);
    assert_eq!(f32::from_bits(waking.vram_gb), 24.0);
    assert_eq!(waking.wake_eta_secs, Some(10));
}

#[test]
fn this_instance_is_listed_if_no_other_is() {
    let alone = local_instances_or_self(vec![], 42, 3131, "1.0");
    assert_eq!(alone.len(), 1);
    assert!(alone[0].is_self);
    assert_eq!(alone[0].pid, 42);
    assert_eq!(alone[0].api_port, Some(3131));
    assert_eq!(alone[0].version.as_deref(), Some("1.0"));
    let found = local_instances_or_self(
        vec![LocalInstance {
            pid: 7,
            api_port: None,
            version: None,
            started_at_unix: 5,
            runtime_dir: "/run".to_string(),
            is_self: false,
        }],
        42,
        3131,
        "1.0",
    );
    assert_eq!(found.len(), 1);
    assert_eq!(found[0].pid, 7);
}

#[test]
fn a_peer_is_shown_with_its_records() {
    let mut peer = make_test_peer(50, HOST, vec!["m"], vec!["m"], true);
    peer.version = Some("0.56.0".into());
    peer.gpu_name = Some("2\u{d7} A".into());
    peer.gpu_vram = Some("1,2".into());
    peer.capability.vram_total_mb = 30_000;
    peer.capability.vram_free_mb = 29_000;
    peer.model_timings = vec![ModelTiming {
        model: "m".into(),
        measured_tps_p50: 20.5f64.to_bits(),
        measured_ttft_ms_p50: 120,
    }];
    peer.owner_summary.status = OwnershipStatus::Verified;
    peer.owner_summary.verified = true;
    peer.model_ad.status = ModelAdStatus::Stale;
    let verdicts = vec![
        VerifyVerdictRecord {
            peer_id: peer.id.clone(),
            model: "m".into(),
            verdict: "match".into(),
            agreement: 1.0f64.to_bits(),
            compared_tokens: 32,
            mode: "prefix".into(),
            reason: None,
            checked_at_unix_secs: 9,
        },
        VerifyVerdictRecord {
            peer_id: "other".into(),
            model: "n".into(),
            verdict: "mismatch".into(),
            agreement: 0.0f64.to_bits(),
            compared_tokens: 32,
            mode: "prefix".into(),
            reason: Some("r".into()),
            checked_at_unix_secs: 9,
        },
    ];
    let none: Vec<ReputationScore> = vec![];
    let shown = build_peer_payload(&peer, std::slice::from_ref(&peer), &verdicts, &none);
    assert_eq!(shown.id, peer.short_id);
    assert_eq!(shown.role, "Host");
    assert_eq!(shown.state, NodeState::Serving);
    assert_eq!(shown.version.as_deref(), Some("0.56.0"));
    assert_eq!(shown.gpus.len(), 2);
    assert_eq!(shown.gpus[1].vram_bytes, 2);
    assert_eq!(shown.verify_by_model.len(), 1);
    assert_eq!(shown.verify_by_model.get("m").unwrap().compared_tokens, 32);
    assert_eq!(shown.reputation_by_model.len(), 0);
    assert_eq!(shown.measured_tps_p50_by_model.get("m"), Some(&20.5f64.to_bits()));
    assert_eq!(shown.measured_ttft_ms_p50_by_model.get("m"), Some(&120));
    assert_eq!(shown.native_tps_p50_by_model.len(), 0);
    assert_eq!(shown.serving_mode.as_deref(), Some("solo"));
    assert_eq!(number(&shown.vram_gb), 24.0);
    // 24 GB are 22888 whole megabytes.
    assert!(shown.capability.vram_total_mb <= 22_888);
    assert!(shown.capability.vram_free_mb <= shown.capability.vram_total_mb);
    assert_eq!(shown.owner.status, "verified");
    assert!(shown.owner.verified);
    assert_eq!(shown.model_ad.status, "stale");
}

#[test]
fn capability_figures_are_kept_without_a_known_limit() {
    let capability = NodeCapability {
        backend: "cuda".into(),
        vendor: "nvidia".into(),
        compute_class: "high".into(),
        vram_total_mb: 24_000,
        vram_free_mb: 20_000,
        can_serve_max_gb: 22,
        loaded_models: vec!["m".into()],
    };
    let plain = NodeCapabilityPayload::from_capability(&capability);
    assert_eq!((plain.vram_total_mb, plain.vram_free_mb), (24_000, 20_000));
    let unknown = NodeCapabilityPayload::from_capability_with_usable_vram(&capability, 0);
    assert_eq!((unknown.vram_total_mb, unknown.vram_free_mb), (24_000, 20_000));
    assert_eq!(unknown.backend, "cuda");
    let blank = NodeCapabilityPayload::default();
    assert_eq!(blank.vram_total_mb, 0);
    assert!(blank.loaded_models.is_empty());
}

#[test]
fn owners_and_advertisements_are_shown_by_a_word() {
    let mut owner = OwnershipSummary::default();
    assert_eq!(build_ownership_payload(&owner).status, "unsigned");
    owner.status = OwnershipStatus::RevokedNodeId;
    owner.node_label = Some("desk".into());
    let shown = build_ownership_payload(&owner);
    assert_eq!(shown.status, "revoked_node_id");
    assert_eq!(shown.node_label.as_deref(), Some("desk"));
    let mut ad = ModelAdSummary::default();
    assert_eq!(build_model_ad_payload(&ad).status, "unsigned");
    ad.status = ModelAdStatus::InvalidSignature;
    ad.model_count = 3;
    let shown = build_model_ad_payload(&ad);
    assert_eq!(shown.status, "invalid_signature");
    assert_eq!(shown.model_count, 3);
}

#[test]
fn only_other_hosts_with_a_reference_are_audited() {
    let peers = vec![
        make_test_peer(60, HOST, vec![], vec!["known", "unknown"], true),
        make_test_peer(61, NodeRole::Worker, vec!["known"], vec![], false),
        make_test_peer(62, HOST, vec![], vec!["known"], true),
    ];
    let mut store = ReferenceStore::new();
    store.upsert(
        "known",
        &senda::fingerprint::build_fingerprint(&["t".to_string()], "t"),
    );
    let own = ReferenceStore::new();
    let list = audit_candidates(peers[2].id.as_str(), &peers, &store, &own);
    assert_eq!(list.len(), 1);
    assert_eq!(list[0].peer_id, peers[0].id);
    assert_eq!(list[0].model, "known");
}
