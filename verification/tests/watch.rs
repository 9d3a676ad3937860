//! The visibility audit and the loading watchdog.

use senda::json::{parse_json, Json};
use senda::peers::NodeRole;
use senda::visibility::{
    advertised_token, audit_step, clamp_error, join_candidates, judge_reply, report_body,
    report_endpoint, status_endpoint, update_snapshot, update_snapshot_at, AuditAction,
    AuditMemory, EntryReply, MeshVisibilitySnapshot, MeshVisibilityState, PeerReportConfig,
    ProbeOutcome,
};
use senda::watchdog::{
    diagnose_stuck_loading, diagnosis_memory_fits, watchdog_step, Emission, LoadingPeerSnapshot, StuckReason,
    WatchdogAction,
};

fn outcome(state: MeshVisibilityState, error: Option<&str>) -> ProbeOutcome {
    ProbeOutcome {
        state,
        error: error.map(str::to_string),
        fresh_token: None,
    }
}

#[test]
fn update_snapshot_marks_visible_and_clears_counters() {
    let mut snap = MeshVisibilitySnapshot::new("https://example/".into());
    let invisible = outcome(MeshVisibilityState::Invisible, Some("not in peers"));
    update_snapshot(&mut snap, &invisible);
    let count_after_two = update_snapshot(&mut snap, &invisible);
    assert_eq!(count_after_two, 2);

    let visible = ProbeOutcome {
        state: MeshVisibilityState::Visible,
        error: None,
        fresh_token: Some("tok".into()),
    };
    let count = update_snapshot(&mut snap, &visible);
    assert_eq!(count, 0);
    assert_eq!(snap.state, MeshVisibilityState::Visible);
    assert!(snap.last_visible_unix.is_some());
    assert!(snap.last_error.is_none());
    assert!(!snap.soft_reconnect_triggered);
    assert!(!snap.hard_reset_triggered);
}

#[test]
fn update_snapshot_distinguishes_invisible_from_unreachable() {
    let mut snap = MeshVisibilitySnapshot::new("https://example/".into());
    let unreachable = outcome(MeshVisibilityState::EntryUnreachable, Some("timeout"));
    let invisible = outcome(MeshVisibilityState::Invisible, Some("not in peers"));
    update_snapshot(&mut snap, &unreachable);
    update_snapshot(&mut snap, &invisible);
    assert_eq!(snap.consecutive_invisible_count, 2);
    assert_eq!(snap.last_error.as_deref(), Some("not in peers"));
    assert_eq!(snap.state, MeshVisibilityState::Invisible);
}

#[test]
fn invisible_and_unreachable_both_count_as_invisible() {
    assert!(MeshVisibilityState::Invisible.counts_as_invisible());
    assert!(MeshVisibilityState::EntryUnreachable.counts_as_invisible());
    assert!(!MeshVisibilityState::Visible.counts_as_invisible());
    assert!(!MeshVisibilityState::Unknown.counts_as_invisible());
}

#[test]
fn a_snapshot_is_stamped_with_the_time() {
    let mut snap = MeshVisibilitySnapshot::new("e".into());
    assert_eq!(snap.state, MeshVisibilityState::Unknown);
    assert_eq!(snap.last_check_unix, None);
    update_snapshot_at(&mut snap, &outcome(MeshVisibilityState::Visible, None), 77);
    assert_eq!(snap.last_check_unix, Some(77));
    assert_eq!(snap.last_visible_unix, Some(77));
    assert_eq!(snap.entry_url, "e");
}

#[test]
fn a_node_that_stays_unseen_escalates() {
    const SECOND: u128 = 1_000_000_000;
    let mut memory = AuditMemory {
        last_soft_reconnect: None,
        last_hard_reset: None,
        cached_fresh_token: None,
    };
    let mut snap = MeshVisibilitySnapshot::new("e".into());
    let mut actions = Vec::new();
    for i in 0..9u32 {
        let unseen = ProbeOutcome {
            state: MeshVisibilityState::Invisible,
            error: None,
            fresh_token: (i == 0).then_some("tok".to_string()),
        };
        actions.push(audit_step(
            &mut memory,
            &mut snap,
            &unseen,
            i as u64,
            30 * SECOND * i as u128,
        ));
    }
    assert_eq!(
        actions,
        vec![
            AuditAction::Wait,
            AuditAction::Wait,
            AuditAction::SoftReconnect,
            AuditAction::Wait,
            AuditAction::SoftReconnect,
            AuditAction::Wait,
            AuditAction::SoftReconnect,
            AuditAction::HardReset,
            AuditAction::SoftReconnect,
        ]
    );
    assert!(snap.soft_reconnect_triggered && snap.hard_reset_triggered);
    assert_eq!(memory.cached_fresh_token.as_deref(), Some("tok"));
    let seen = outcome(MeshVisibilityState::Visible, None);
    assert_eq!(
        audit_step(&mut memory, &mut snap, &seen, 9, 300 * SECOND),
        AuditAction::Wait
    );
    assert!(!snap.soft_reconnect_triggered && !snap.hard_reset_triggered);
}

fn document(text: &str) -> EntryReply {
    EntryReply::Document {
        body: parse_json(text).unwrap(),
    }
}

#[test]
fn a_reply_is_judged_by_what_it_lists() {
    let url = "https://entry/";
    let listed = judge_reply(
        &document(r#"{"node_id":"x","token":"t","peers":[{"id":"me"}]}"#),
        url,
        "me",
    );
    assert_eq!(listed.state, MeshVisibilityState::Visible);
    assert_eq!(listed.fresh_token.as_deref(), Some("t"));
    let own = judge_reply(&document(r#"{"node_id":"me"}"#), url, "me");
    assert_eq!(own.state, MeshVisibilityState::Visible);
    let unseen = judge_reply(&document(r#"{"node_id":"x","peers":[{"id":"y"}]}"#), url, "me");
    assert_eq!(unseen.state, MeshVisibilityState::Invisible);
    assert_eq!(
        unseen.error.as_deref(),
        Some("Entry returned 1 peer(s) but my node_id me is not among them")
    );
    let errors = [
        (
            EntryReply::NoClient { error: "c".into() },
            "Failed to build http client: c",
        ),
        (
            EntryReply::NoAnswer { error: "a".into() },
            "Probe to https://entry/api/status failed: a",
        ),
        (
            EntryReply::Refused { status: "502 Bad Gateway".into() },
            "Probe returned HTTP 502 Bad Gateway",
        ),
        (
            EntryReply::NotJson { error: "j".into() },
            "Probe response was not JSON: j",
        ),
    ];
    for (reply, message) in errors {
        let judged = judge_reply(&reply, url, "me");
        assert_eq!(judged.state, MeshVisibilityState::EntryUnreachable);
        assert_eq!(judged.error.as_deref(), Some(message));
    }
}

#[test]
fn endpoints_stand_below_their_base() {
    assert_eq!(status_endpoint("https://entry//"), "https://entry/api/status");
    assert_eq!(report_endpoint("https://site"), "https://site/api/peer-report");
    assert_eq!(advertised_token(&parse_json("{}").unwrap()), None);
}

#[test]
fn a_fresh_token_is_tried_first() {
    let fallback = vec!["f".to_string()];
    assert_eq!(
        join_candidates(&Some("c".into()), &Some("g".into()), &fallback),
        vec!["c", "f"]
    );
    assert_eq!(join_candidates(&None, &Some("g".into()), &fallback), vec!["g", "f"]);
    assert_eq!(join_candidates(&None, &None, &fallback), vec!["f"]);
}

#[test]
fn long_errors_are_cut() {
    assert_eq!(clamp_error("short"), "short");
    let cut = clamp_error(&"x".repeat(1025));
    assert_eq!(cut, format!("{}\u{2026}[truncated]", "x".repeat(1024)));
    assert_eq!(clamp_error(&"x".repeat(1024)), "x".repeat(1024));
}

#[test]
fn a_report_holds_the_snapshot() {
    let mut snap = MeshVisibilitySnapshot::new("https://entry".into());
    update_snapshot_at(&mut snap, &outcome(MeshVisibilityState::Invisible, Some("e")), 5);
    let config = PeerReportConfig {
        url: "https://site".into(),
        hostname: Some("h".into()),
        version: None,
    };
    let body = report_body("id", &config, &["m".to_string()], &snap);
    assert_eq!(body.get("node_id").and_then(|v| v.as_text()), Some("id"));
    assert_eq!(body.get("hostname").and_then(|v| v.as_text()), Some("h"));
    assert!(matches!(body.get("version"), Some(Json::Null)));
    let inner = body.get("mesh_visibility").unwrap();
    assert_eq!(inner.get("state").and_then(|v| v.as_text()), Some("invisible"));
    assert_eq!(inner.get("last_check_unix").and_then(|v| v.as_number()), Some(5));
    assert_eq!(inner.get("last_error").and_then(|v| v.as_text()), Some("e"));
    assert_eq!(
        inner
            .get("consecutive_invisible_count")
            .and_then(|v| v.as_number()),
        Some(1)
    );
}

const GIB: u64 = 1024 * 1024 * 1024;

fn peer(role: NodeRole, fast_gb: u64, serving: &[&str], hosted: &[&str]) -> LoadingPeerSnapshot {
    LoadingPeerSnapshot {
        role,
        fast_memory_bytes: fast_gb * GIB,
        serving_models: serving.iter().map(|s| s.to_string()).collect(),
        hosted_models: hosted.iter().map(|s| s.to_string()).collect(),
    }
}

#[test]
fn diagnoses_model_too_large_for_solo_and_no_partner() {
    let reason = diagnose_stuck_loading("Qwen3-32B-Q4_K_M", Some(20 * GIB), 8 * GIB, &[], None);
    assert!(matches!(
        reason,
        StuckReason::ModelTooLargeForSoloAndNoPartner { .. }
    ));
}

#[test]
fn diagnoses_waiting_for_split_partner_when_pool_could_fit() {
    let model = "Qwen3-32B-Q4_K_M";
    let reason = diagnose_stuck_loading(
        model,
        Some(20 * GIB),
        8 * GIB,
        &[peer(NodeRole::Worker, 24, &[model], &[])],
        None,
    );
    assert!(matches!(reason, StuckReason::WaitingForSplitPartner { .. }));
}

#[test]
fn diagnoses_no_host_elected_when_model_should_fit_locally() {
    let reason = diagnose_stuck_loading("Qwen3-8B-Q4_K_M", Some(5 * GIB), 16 * GIB, &[], None);
    assert_eq!(reason, StuckReason::NoHostElected);
}

#[test]
fn diagnoses_llama_start_failure_first() {
    let reason = diagnose_stuck_loading(
        "Qwen3-8B-Q4_K_M",
        Some(5 * GIB),
        16 * GIB,
        &[],
        Some("last child exited with code 1".to_string()),
    );
    assert_eq!(
        reason,
        StuckReason::LlamaServerStartFailed {
            detail: "last child exited with code 1".to_string()
        }
    );
}

#[test]
fn bystanders_do_not_count() {
    let mut huge = peer(NodeRole::Worker, 0, &["other"], &[]);
    huge.fast_memory_bytes = u64::MAX;
    let mut peers = vec![huge, peer(NodeRole::Worker, 4, &["m"], &[])];
    assert!(diagnosis_memory_fits("m", &peers));
    assert_eq!(
        diagnose_stuck_loading("m", Some(20 * GIB), 8 * GIB, &peers, None),
        StuckReason::ModelTooLargeForSoloAndNoPartner {
            model_bytes: 20 * GIB,
            local_fast_bytes: 8 * GIB,
            total_peer_fast_bytes: 4 * GIB,
        }
    );
    peers.push(peer(NodeRole::Host { http_port: 1 }, 4, &[], &["m"]));
    assert!(!diagnosis_memory_fits("m", &peers));
    let failure = Some("why".to_string());
    assert_eq!(
        diagnose_stuck_loading("m", None, 0, &peers, failure),
        StuckReason::LlamaServerStartFailed { detail: "why".into() }
    );
    let mut last: Option<Emission> = None;
    assert!(matches!(
        watchdog_step(&mut last, "m", &["m".to_string()], None, 0, &peers, 0),
        WatchdogAction::Done
    ));
}

#[test]
fn a_diagnosis_is_told_with_its_figures() {
    let reason = StuckReason::ModelTooLargeForSoloAndNoPartner {
        model_bytes: 20_050_000_000,
        local_fast_bytes: 8_000_000_000,
        total_peer_fast_bytes: 0,
    };
    let message = reason.message("m");
    assert!(message.starts_with("`m` has been loading too long: model is "));
    assert!(message.contains(&format!("{:.1} GB", 20_050_000_000u64 as f64 / 1e9)));
    assert!(message.contains("8.0 GB"));
    let failed = StuckReason::LlamaServerStartFailed { detail: "why".into() };
    assert!(failed.message("m").ends_with("why"));
    assert!(failed.same_as(&StuckReason::LlamaServerStartFailed { detail: "why".into() }));
    assert!(!failed.same_as(&StuckReason::NoHostElected));
}

#[test]
fn the_same_diagnosis_is_not_repeated_at_once() {
    let mut last: Option<Emission> = None;
    let step = |last: &mut Option<Emission>, routable: &[String], now: u128| {
        watchdog_step(last, "m", routable, Some(5 * GIB), 16 * GIB, &[], now)
    };
    assert!(matches!(step(&mut last, &[], 0), WatchdogAction::Emit { .. }));
    assert!(matches!(step(&mut last, &[], 1), WatchdogAction::Quiet));
    assert!(matches!(
        step(&mut last, &[], u64::MAX as u128),
        WatchdogAction::Emit { .. }
    ));
    assert!(matches!(
        step(&mut last, &["m".to_string()], 5),
        WatchdogAction::Done
    ));
}
