//! Native baselines, fingerprints and the audits that compare them.

use senda::baseline::{
    assess_documents, assess_probe, collector_pause_secs, current_schema_version,
    entry_from_cached, entry_from_measurement, is_fresh, is_fresh_at, median_measurement,
    median_measurement_at, plan_collection, probe_messages, probe_request, record_measurement,
    BaselineMeasurement, CachedNativeBaseline, CollectorAction, NativeBaselineCache, ProbeKind,
};
use senda::fingerprint::{
    build_fingerprint, completion_tokens, fingerprint_from_completion_json, output_and_tokens,
    parse_completion_tokens_from_sse_tail, parse_output_and_tokens_from_sse, parse_stream,
    LogitFingerprint, FINGERPRINT_PREFIX_LEN, MAX_TOKENS, PROBE_SEED,
};
use senda::json::{parse_json, Json};
use senda::verify::{
    compare_fingerprints, fingerprint_from_response, judge_answer, pick_candidate,
    probe_http_request, self_baseline_fingerprints, split_http_response, AuditCandidate,
    FingerprintVerdict, Ratio, ReferenceStore, VerifierConfig, VerifyThresholds,
};

fn now_secs() -> u64 {
    std::time::SystemTime::now()
        .duration_since(std::time::UNIX_EPOCH)
        .unwrap()
        .as_secs()
}

fn cached(measured_at: u64, mtime: Option<u64>) -> CachedNativeBaseline {
    CachedNativeBaseline {
        model: "x".to_string(),
        native_tps_p50: 10.0f64.to_bits(),
        native_ttft_ms_p50: 100,
        measured_at_unix_secs: measured_at,
        samples: 1,
        backend: "metal".to_string(),
        model_file_mtime_secs: mtime,
        logit_fingerprint: None,
    }
}

#[test]
fn parse_usage_from_sse_tail_extracts_completion_tokens() {
    let body = "data: {\"choices\":[{\"delta\":{\"content\":\"hi\"}}]}\n\
                data: {\"choices\":[{\"delta\":{}}],\"usage\":{\"completion_tokens\":42,\"prompt_tokens\":7}}\n\
                data: [DONE]\n";
    assert_eq!(
        parse_completion_tokens_from_sse_tail(body.as_bytes()),
        Some(42)
    );
}

#[test]
fn parse_usage_returns_none_when_absent() {
    let body = "data: {\"choices\":[{\"delta\":{\"content\":\"hi\"}}]}\n\
                data: [DONE]\n";
    assert_eq!(parse_completion_tokens_from_sse_tail(body.as_bytes()), None);
}

#[test]
fn is_fresh_invalidates_on_mtime_change() {
    let entry = cached(now_secs(), Some(1_000_000));
    assert!(is_fresh(&entry, Some(1_000_000)));
    assert!(!is_fresh(&entry, Some(2_000_000)));
}

fn meas(tps: f64, ttft: u64) -> BaselineMeasurement {
    BaselineMeasurement {
        native_tps_p50: tps.to_bits(),
        native_ttft_ms_p50: ttft,
        backend: "metal".to_string(),
        measured_at_unix_secs: 0,
        logit_fingerprint: None,
    }
}

#[test]
fn median_picks_middle_of_three_per_axis() {
    let samples = vec![meas(14.30, 1159), meas(12.34, 1220), meas(17.58, 1014)];
    let (m, n) = median_measurement(samples, "metal".to_string()).unwrap();
    assert_eq!(n, 3);
    assert!((f64::from_bits(m.native_tps_p50) - 14.30).abs() < 1e-9);
    assert_eq!(m.native_ttft_ms_p50, 1159);
}

#[test]
fn median_is_resilient_to_partial_sample_failures() {
    let only_one = vec![meas(14.41, 734)];
    let (m, n) = median_measurement(only_one, "metal".to_string()).unwrap();
    assert_eq!(n, 1);
    assert_eq!(m.native_ttft_ms_p50, 734);
    assert!(median_measurement(vec![], "metal".to_string()).is_none());
}

#[test]
fn is_fresh_invalidates_past_ttl() {
    let entry = cached(1, Some(1_000_000));
    assert!(!is_fresh(&entry, Some(1_000_000)));
}

#[test]
fn fingerprint_is_stable_and_separates_different_output() {
    let toks_a = vec!["Hello".to_string(), " world".to_string()];
    let a1 = build_fingerprint(&toks_a, "Hello world");
    let a2 = build_fingerprint(&toks_a, "Hello world");
    assert_eq!(a1, a2);
    assert_eq!(a1.token_count, 2);
    assert_eq!(a1.prefix_tokens[0], "Hello");
    assert_eq!(a1.prefix_tokens[1], " world");

    let b = build_fingerprint(&toks_a, "Hola mundo");
    assert_ne!(a1.output_sha256, b.output_sha256);
}

#[test]
fn fingerprint_prefix_is_bounded() {
    let toks: Vec<String> = (0..100).map(|i| format!("t{i}")).collect();
    let fp = build_fingerprint(&toks, "irrelevant");
    assert_eq!(fp.token_count, 100);
    assert_eq!(fp.prefix_tokens.len(), FINGERPRINT_PREFIX_LEN);
}

#[test]
fn parse_sse_recovers_text_and_tokens() {
    let body = "data: {\"choices\":[{\"delta\":{\"content\":\"Hi\"},\"logprobs\":{\"content\":[{\"token\":\"Hi\",\"logprob\":-0.2}]}}]}\n\
                data: {\"choices\":[{\"delta\":{\"content\":\" there\"},\"logprobs\":{\"content\":[{\"token\":\" there\",\"logprob\":-1.5}]}}]}\n\
                data: {\"choices\":[{\"delta\":{}}],\"usage\":{\"completion_tokens\":2}}\n\
                data: [DONE]\n";
    let (text, toks) = parse_output_and_tokens_from_sse(body.as_bytes());
    assert_eq!(text, "Hi there");
    assert_eq!(toks, vec!["Hi".to_string(), " there".to_string()]);
}

#[test]
fn parse_sse_recovers_text_when_logprobs_absent() {
    let body = "data: {\"choices\":[{\"delta\":{\"content\":\"hello\"}}]}\n\
                data: [DONE]\n";
    let (text, toks) = parse_output_and_tokens_from_sse(body.as_bytes());
    assert_eq!(text, "hello");
    assert!(toks.is_empty());
    let fp = build_fingerprint(&toks, &text);
    assert_eq!(fp.token_count, 0);
    assert!(fp.prefix_tokens.is_empty());
    assert!(!fp.output_sha256.is_empty());
}

#[test]
fn fingerprint_from_completion_json_matches_sse_path() {
    let json = parse_json(
        r#"{
            "choices": [{
                "message": {"content": "Hi there"},
                "logprobs": {"content": [
                    {"token": "Hi", "logprob": -0.2},
                    {"token": " there", "logprob": -1.5}
                ]}
            }]
        }"#,
    )
    .unwrap();
    let from_json = fingerprint_from_completion_json(&json).unwrap();

    let toks = vec!["Hi".to_string(), " there".to_string()];
    let from_stream = build_fingerprint(&toks, "Hi there");
    assert_eq!(from_json, from_stream);
}

#[test]
fn fingerprint_from_completion_json_none_when_empty() {
    let json = parse_json(r#"{"choices": [{"message": {"content": ""}}]}"#).unwrap();
    assert!(fingerprint_from_completion_json(&json).is_none());
}

#[test]
fn the_hash_is_that_of_the_output_text() {
    let fp = build_fingerprint(&[], "abc");
    assert_eq!(
        fp.output_sha256,
        "ba7816bf8f01cfea414140de5dae2223b00361a396177a9cb410ff61f20015ad"
    );
}

#[test]
fn a_stream_is_read_line_by_line() {
    let body = b"data: {\"a\":1}\n\nevent: ping\ndata: not json\ndata: {\"b\":\"x\"}\ndata: [DONE]\n";
    let documents = parse_stream(body);
    assert_eq!(documents.len(), 2);
    assert_eq!(documents[0].get("a").and_then(|v| v.as_number()), Some(1));
    assert_eq!(documents[1].get("b").and_then(|v| v.as_text()), Some("x"));
    assert_eq!(completion_tokens(&documents), None);
    assert_eq!(output_and_tokens(&documents).0, "");
}

#[test]
fn bytes_that_are_no_text_end_a_stream_and_are_replaced_in_an_answer() {
    let body = b"data: {\"choices\":[{\"delta\":{\"content\":\"a\xffb\"}}]}\n";
    let (text, _) = parse_output_and_tokens_from_sse(body);
    assert_eq!(text, "");
    let raw = b"HTTP/1.1 200 OK\r\n\r\n{\"choices\":[{\"message\":{\"content\":\"a\xffb\"}}]}";
    let found = fingerprint_from_response(raw).unwrap();
    assert_eq!(found, build_fingerprint(&[], "a\u{fffd}b"));
}

#[test]
fn the_probe_is_deterministic() {
    let request = probe_request("m", ProbeKind::Baseline);
    assert_eq!(request.get("model").and_then(|v| v.as_text()), Some("m"));
    assert_eq!(request.get("max_tokens").and_then(|v| v.as_number()), Some(MAX_TOKENS as u64));
    assert_eq!(request.get("seed").and_then(|v| v.as_number()), Some(PROBE_SEED));
    assert_eq!(request.get("temperature").and_then(|v| v.as_number()), Some(0));
    match probe_messages() {
        Json::Array(messages) => assert!(!messages.is_empty()),
        other => panic!("no list: {other:?}"),
    }
}

#[test]
fn a_probe_is_assessed_by_its_usage_and_its_times() {
    let body = b"data: {\"choices\":[{\"delta\":{\"content\":\"hi\"}}]}\ndata: {\"usage\":{\"completion_tokens\":10}}\n";
    let timing = assess_probe(body, 250_000_000, 2_000_000_000).unwrap();
    assert_eq!(timing.completion_tokens, 10);
    assert_eq!(timing.decode_nanos, 2_000_000_000);
    assert_eq!(timing.native_ttft_ms, 250);
    assert!(timing.logit_fingerprint.is_some());
    // A response that arrives at once counts from the request on.
    let timing = assess_probe(body, 250_000_000, 0).unwrap();
    assert_eq!(timing.decode_nanos, 250_000_000);
    assert_eq!(
        assess_probe(body, 0, 0).err(),
        Some("native baseline decode window collapsed to zero")
    );
    assert_eq!(
        assess_documents(&[], 1, 1).err(),
        Some("native baseline streaming response had no usage chunk")
    );
}

#[test]
fn a_measurement_is_published_while_it_is_fresh() {
    let mut cache = NativeBaselineCache::default();
    assert!(matches!(
        plan_collection(&cache, "m", Some(5), 1_000),
        CollectorAction::Measure { publish: None }
    ));
    let (m, n) = median_measurement_at(vec![meas(10.0, 90)], "cuda".to_string(), 1_000).unwrap();
    record_measurement(&mut cache, "m", &m, n, Some(5));
    match plan_collection(&cache, "m", Some(5), 1_000 + 86_399) {
        CollectorAction::Publish { entry } => {
            assert_eq!(entry.model, "m");
            assert_eq!(entry.native_tps_p50, 10.0f64.to_bits());
            assert_eq!(entry.backend, "cuda");
            assert_eq!(entry.samples, 1);
        }
        CollectorAction::Measure { .. } => panic!("not published"),
    }
    assert!(matches!(
        plan_collection(&cache, "m", Some(6), 1_000),
        CollectorAction::Measure { publish: None }
    ));
    for mtime in [Some(5), None] {
        match plan_collection(&cache, "m", mtime, 1_000 + 86_401) {
            CollectorAction::Measure { publish: Some(entry) } => {
                assert_eq!(entry.native_tps_p50, 10.0f64.to_bits());
                assert_eq!(entry.measured_at_unix_secs, 1_000);
            }
            _ => panic!("an old baseline is gossiped until the new one is there"),
        }
    }
    assert_eq!(collector_pause_secs(), 43_200);
    assert_eq!(current_schema_version(), 1);
}

#[test]
fn staleness_is_final() {
    let entry = cached(1_000, None);
    assert!(is_fresh_at(&entry, None, 1_000));
    assert!(!is_fresh_at(&entry, None, 1_000 + 86_400 + 1));
    assert!(!is_fresh_at(&entry, None, 1_000 + 2 * 86_400));
    assert_eq!(entry_from_cached(&entry).model, "x");
    assert_eq!(entry_from_measurement("y", &meas(1.0, 2), 3).samples, 3);
}

#[test]
fn rates_are_ordered_as_numbers() {
    let samples = vec![meas(-1.0, 3), meas(0.5, 1), meas(-2.0, 2)];
    let (m, _) = median_measurement_at(samples, "x".to_string(), 7).unwrap();
    assert_eq!(f64::from_bits(m.native_tps_p50), -1.0);
    assert_eq!(m.native_ttft_ms_p50, 2);
    assert_eq!(m.measured_at_unix_secs, 7);
}

fn fp(tokens: &[&str], hash: &str) -> LogitFingerprint {
    LogitFingerprint {
        token_count: tokens.len() as u32,
        output_sha256: hash.to_string(),
        prefix_tokens: tokens.iter().map(|t| t.to_string()).collect(),
    }
}

fn ten() -> Vec<&'static str> {
    vec![
        "The", " cat", " sat", " on", " the", " mat", " and", " then", " ran", " away",
    ]
}

fn is_match(v: &FingerprintVerdict) -> bool {
    matches!(v, FingerprintVerdict::Match { .. })
}

fn is_mismatch(v: &FingerprintVerdict) -> bool {
    matches!(v, FingerprintVerdict::Mismatch { .. })
}

fn as_f64(r: Ratio) -> f64 {
    r.num as f64 / r.den as f64
}

#[test]
fn identical_fingerprints_match_perfectly() {
    let r = fp(&ten(), "h1");
    let v = compare_fingerprints(&r, &r, &VerifyThresholds::default());
    assert!(is_match(&v));
    if let FingerprintVerdict::Match {
        prefix_agreement, ..
    } = v
    {
        assert!((as_f64(prefix_agreement) - 1.0).abs() < 1e-9);
    }
}

#[test]
fn wrong_model_mismatches() {
    let r = fp(&ten(), "h1");
    let wrong = fp(
        &[
            "Hola", " mundo", " esto", " es", " otro", " modelo", " muy", " distinto", " aqui",
            " vale",
        ],
        "h2",
    );
    let v = compare_fingerprints(&r, &wrong, &VerifyThresholds::default());
    assert!(is_mismatch(&v));
}

#[test]
fn one_token_off_is_within_budget() {
    let r = fp(&ten(), "h1");
    let mut toks = ten();
    toks[5] = " rug";
    let c = fp(&toks, "h2");
    let v = compare_fingerprints(&r, &c, &VerifyThresholds::default());
    assert!(is_match(&v), "9/10 agreement should pass the 0.9 gate");
}

#[test]
fn two_tokens_off_breaks_budget() {
    let r = fp(&ten(), "h1");
    let mut toks = ten();
    toks[5] = " rug";
    toks[7] = " later";
    let c = fp(&toks, "h2");
    let v = compare_fingerprints(&r, &c, &VerifyThresholds::default());
    assert!(is_mismatch(&v), "8/10 agreement should fail the 0.9 gate");
    // The other way round it is the same verdict.
    assert!(is_mismatch(&compare_fingerprints(&c, &r, &VerifyThresholds::default())));
}

#[test]
fn empty_prefix_equal_hash_matches() {
    let r = fp(&[], "samehash");
    let c = fp(&[], "samehash");
    let v = compare_fingerprints(&r, &c, &VerifyThresholds::default());
    assert!(is_match(&v));
}

#[test]
fn empty_prefix_diff_hash_is_inconclusive() {
    let r = fp(&[], "h1");
    let c = fp(&[], "h2");
    let v = compare_fingerprints(&r, &c, &VerifyThresholds::default());
    assert!(matches!(v, FingerprintVerdict::Inconclusive { .. }));
}

#[test]
fn too_few_tokens_is_inconclusive() {
    let r = fp(&["a", "b", "c"], "h1");
    let c = fp(&["a", "b", "c"], "h1");
    let v = compare_fingerprints(&r, &c, &VerifyThresholds::default());
    assert!(matches!(v, FingerprintVerdict::Inconclusive { .. }));
}

#[test]
fn the_comparison_of_fractions_is_that_of_rounded_numbers() {
    for n in 8usize..40 {
        for same in 0..=n {
            let a: Vec<String> = (0..n).map(|i| format!("{i}")).collect();
            let b: Vec<String> = (0..n)
                .map(|i| if i < same { format!("{i}") } else { "-".to_string() })
                .collect();
            let a: Vec<&str> = a.iter().map(|s| s.as_str()).collect();
            let b: Vec<&str> = b.iter().map(|s| s.as_str()).collect();
            let v = compare_fingerprints(&fp(&a, "1"), &fp(&b, "2"), &VerifyThresholds::default());
            assert_eq!(is_match(&v), same as f64 / n as f64 >= 0.9, "{same}/{n}");
            let w = compare_fingerprints(&fp(&b, "2"), &fp(&a, "1"), &VerifyThresholds::default());
            assert_eq!(v, w);
        }
    }
}

#[test]
fn local_references_replace_shipped_ones() {
    let shipped = vec![
        ("a".to_string(), fp(&["1"], "s")),
        ("b".to_string(), fp(&["2"], "s")),
    ];
    let local = vec![
        ("b".to_string(), fp(&["3"], "l")),
        ("c".to_string(), fp(&["4"], "l")),
    ];
    let mut store = ReferenceStore::layered(&shipped, &local);
    assert_eq!(store.get("a").unwrap().output_sha256, "s");
    assert_eq!(store.get("b").unwrap().output_sha256, "l");
    assert_eq!(store.get("c").unwrap().prefix_tokens[0], "4");
    assert!(store.get("d").is_none());
    store.upsert("d", &fp(&["5"], "u"));
    assert_eq!(store.models().len(), 4);
    assert!(ReferenceStore::new().get("a").is_none());
}

#[test]
fn own_baselines_are_references() {
    let mut with = entry_from_cached(&cached(1, None));
    with.logit_fingerprint = Some(fp(&["t"], "h"));
    let mut without = entry_from_cached(&cached(1, None));
    without.model = "y".to_string();
    let store = self_baseline_fingerprints(&[with, without]);
    assert_eq!(store.get("x").unwrap().output_sha256, "h");
    assert!(store.get("y").is_none());
}

#[test]
fn a_candidate_is_picked_by_the_clock() {
    let list = || {
        ["a", "b", "c"]
            .iter()
            .map(|id| AuditCandidate {
                peer_id: id.to_string(),
                model: "m".to_string(),
                reference: fp(&["t"], "h"),
            })
            .collect::<Vec<_>>()
    };
    assert_eq!(pick_candidate(list(), 0).unwrap().peer_id, "a");
    assert_eq!(pick_candidate(list(), 4).unwrap().peer_id, "b");
    assert_eq!(pick_candidate(list(), 999_999_998).unwrap().peer_id, "c");
    assert_eq!(
        pick_candidate(vec![], 7).err(),
        Some("no (peer, model) pairs with an available reference")
    );
    let config = VerifierConfig::default();
    assert_eq!(
        (config.settle_secs, config.interval_secs, config.probe_timeout_secs),
        (60, 120, 60)
    );
}

#[test]
fn a_probe_request_counts_its_bytes() {
    let raw = probe_http_request("{\"ä\":1}".as_bytes());
    let text = String::from_utf8(raw).unwrap();
    assert!(text.starts_with("POST /v1/chat/completions HTTP/1.1\r\nHost: localhost\r\n"));
    assert!(text.ends_with("Content-Length: 8\r\n\r\n{\"ä\":1}"));
}

#[test]
fn a_response_is_cut_at_its_blank_line() {
    let (status, body) = split_http_response("HTTP/1.1 200 OK\r\nA: b\r\n\r\nx\r\n\r\ny").unwrap();
    assert_eq!((status, body.as_str()), (200, "x\r\n\r\ny"));
    let (status, _) = split_http_response("HTTP/1.1\r\n\r\n").unwrap();
    assert_eq!(status, 0);
    assert_eq!(
        split_http_response("HTTP/1.1 200 OK\r\n").err(),
        Some("malformed HTTP response: no header terminator")
    );
}

#[test]
fn an_answer_is_judged_by_status_and_output() {
    assert_eq!(judge_answer(503, "").err().unwrap(), "peer returned HTTP 503");
    assert!(judge_answer(200, "{")
        .err()
        .unwrap()
        .starts_with("failed to parse peer probe response: "));
    assert_eq!(
        judge_answer(200, "{}").err().unwrap(),
        "peer probe response had no usable output"
    );
    let raw = b"HTTP/1.1 200 OK\r\n\r\n{\"choices\":[{\"message\":{\"content\":\"abc\"}}]}";
    let found = fingerprint_from_response(raw).unwrap();
    assert_eq!(
        found.output_sha256,
        "ba7816bf8f01cfea414140de5dae2223b00361a396177a9cb410ff61f20015ad"
    );
    assert_eq!(
        fingerprint_from_response(b"nothing").err().unwrap(),
        "malformed HTTP response: no header terminator"
    );
}

#[test]
fn documents_are_read_as_they_are_written() {
    let json = parse_json(r#"{"t":"ä\n","n":18446744073709551615,"f":1.5,"l":[true,null,-1]}"#).unwrap();
    assert_eq!(json.get("t").and_then(|v| v.as_text()), Some("ä\n"));
    assert_eq!(json.get("n").and_then(|v| v.as_number()), Some(u64::MAX));
    assert!(matches!(json.get("f"), Some(Json::Other)));
    match json.get("l") {
        Some(Json::Array(list)) => {
            assert!(matches!(list[0], Json::Flag(true)));
            assert!(matches!(list[1], Json::Null));
            assert!(matches!(list[2], Json::Other));
        }
        other => panic!("no list: {other:?}"),
    }
    assert!(parse_json("[1,").is_err());
}
