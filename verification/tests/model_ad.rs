//! Signed model advertisements.

use senda::crypto::OwnerKeypair;
use senda::model_ad::{
    canonical_claim_bytes, gather_evidence, judge_model_advertisement, sign_model_advertisement,
    sign_model_advertisement_at, verify_model_advertisement, AdEvidence, ModelAdStatus, ModelClaim,
    SignedModelAdvertisement, DEFAULT_MODEL_AD_TTL_MS,
};
use senda::trust::{RevokedOwner, TrustPolicy, TrustStore, TrustedOwner};

fn bits(x: f64) -> Option<u64> {
    Some(x.to_bits())
}

fn now_ms() -> u64 {
    std::time::SystemTime::now()
        .duration_since(std::time::UNIX_EPOCH)
        .unwrap()
        .as_millis() as u64
}

/// Key pairs that differ from call to call.
fn generate() -> OwnerKeypair {
    let mut secret = [0u8; 32];
    let nanos = std::time::SystemTime::now()
        .duration_since(std::time::UNIX_EPOCH)
        .unwrap()
        .as_nanos();
    secret[..16].copy_from_slice(&nanos.to_le_bytes());
    OwnerKeypair::from_bytes(secret)
}

fn sample_models() -> Vec<ModelClaim> {
    vec![
        ModelClaim {
            model: "Qwen2.5-32B-Instruct-Q4_K_M".into(),
            quant: Some("Q4_K_M".into()),
            measured_tps_p50: bits(37.148),
            measured_ttft_ms_p50: bits(115.0),
            samples_in_window: 24,
            native_tps_p50: bits(37.18),
            native_ttft_ms_p50: bits(40.0),
            native_backend: Some("cuda".into()),
            native_logit_fingerprint: Some("abcd1234".into()),
        },
        ModelClaim {
            model: "Qwen2.5-0.5B-Instruct-Q4_K_M".into(),
            quant: Some("Q4_K_M".into()),
            measured_tps_p50: bits(180.0),
            measured_ttft_ms_p50: bits(20.0),
            samples_in_window: 5,
            native_tps_p50: None,
            native_ttft_ms_p50: None,
            native_backend: None,
            native_logit_fingerprint: None,
        },
    ]
}

fn check(ad: &SignedModelAdvertisement, node: &[u8; 32], now: u64) -> senda::model_ad::ModelAdSummary {
    verify_model_advertisement(
        Some(ad),
        node,
        &TrustStore::default(),
        TrustPolicy::Off,
        now,
        DEFAULT_MODEL_AD_TTL_MS,
    )
}

#[test]
fn sign_then_verify_roundtrips() {
    let owner = generate();
    let node_id = [7u8; 32];
    let ad = sign_model_advertisement(&owner, &node_id, sample_models()).unwrap();
    let now = ad.claim.issued_at_unix_ms;
    let summary = check(&ad, &node_id, now);
    assert!(summary.is_verified(), "status was {:?}", summary.status);
    assert_eq!(summary.model_count, 2);
    assert_eq!(summary.owner_id.as_deref(), Some(owner.owner_id().as_str()));
}

#[test]
fn none_advertisement_is_unsigned() {
    let summary = verify_model_advertisement(
        None,
        &[0u8; 32],
        &TrustStore::default(),
        TrustPolicy::Off,
        now_ms(),
        DEFAULT_MODEL_AD_TTL_MS,
    );
    assert_eq!(summary.status, ModelAdStatus::Unsigned);
    assert!(!summary.verified);
}

#[test]
fn tampered_metric_fails_verification() {
    let owner = generate();
    let node_id = [7u8; 32];
    let mut ad = sign_model_advertisement(&owner, &node_id, sample_models()).unwrap();
    ad.claim.models[0].measured_tps_p50 = bits(999.0);
    let now = ad.claim.issued_at_unix_ms;
    assert_eq!(check(&ad, &node_id, now).status, ModelAdStatus::InvalidSignature);
}

#[test]
fn model_order_does_not_affect_verification() {
    let owner = generate();
    let node_id = [7u8; 32];
    let ad = sign_model_advertisement(&owner, &node_id, sample_models()).unwrap();
    let now = ad.claim.issued_at_unix_ms;
    let mut reordered = ad;
    reordered.claim.models.reverse();
    let summary = check(&reordered, &node_id, now);
    assert!(summary.is_verified(), "status was {:?}", summary.status);
}

#[test]
fn wrong_node_id_is_rejected() {
    let owner = generate();
    let ad = sign_model_advertisement(&owner, &[7u8; 32], sample_models()).unwrap();
    let now = ad.claim.issued_at_unix_ms;
    assert_eq!(check(&ad, &[9u8; 32], now).status, ModelAdStatus::MismatchedNodeId);
}

#[test]
fn stale_advertisement_is_rejected() {
    let owner = generate();
    let node_id = [7u8; 32];
    let ad = sign_model_advertisement(&owner, &node_id, sample_models()).unwrap();
    let now = ad.claim.issued_at_unix_ms + DEFAULT_MODEL_AD_TTL_MS + 1;
    assert_eq!(check(&ad, &node_id, now).status, ModelAdStatus::Stale);
}

#[test]
fn future_advertisement_beyond_skew_is_rejected() {
    let owner = generate();
    let node_id = [7u8; 32];
    let ad = sign_model_advertisement(&owner, &node_id, sample_models()).unwrap();
    let now = ad.claim.issued_at_unix_ms.saturating_sub(10 * 60 * 1000);
    assert_eq!(check(&ad, &node_id, now).status, ModelAdStatus::Stale);
}

#[test]
fn revoked_owner_is_rejected() {
    let owner = generate();
    let node_id = [7u8; 32];
    let ad = sign_model_advertisement(&owner, &node_id, sample_models()).unwrap();
    let now = ad.claim.issued_at_unix_ms;
    let trust = TrustStore {
        revoked_owners: vec![RevokedOwner {
            owner_id: owner.owner_id(),
            reason: Some("test".into()),
        }],
        ..TrustStore::default()
    };
    let summary = verify_model_advertisement(
        Some(&ad),
        &node_id,
        &trust,
        TrustPolicy::Off,
        now,
        DEFAULT_MODEL_AD_TTL_MS,
    );
    assert_eq!(summary.status, ModelAdStatus::RevokedOwner);
}

#[test]
fn allowlist_policy_rejects_unknown_owner() {
    let owner = generate();
    let node_id = [7u8; 32];
    let ad = sign_model_advertisement(&owner, &node_id, sample_models()).unwrap();
    let now = ad.claim.issued_at_unix_ms;

    let empty = TrustStore {
        policy: TrustPolicy::Allowlist,
        ..TrustStore::default()
    };
    let summary = verify_model_advertisement(
        Some(&ad),
        &node_id,
        &empty,
        TrustPolicy::Allowlist,
        now,
        DEFAULT_MODEL_AD_TTL_MS,
    );
    assert_eq!(summary.status, ModelAdStatus::UntrustedOwner);

    let allowed = TrustStore {
        policy: TrustPolicy::Allowlist,
        trusted_owners: vec![TrustedOwner {
            owner_id: owner.owner_id(),
            label: None,
        }],
        ..TrustStore::default()
    };
    let summary = verify_model_advertisement(
        Some(&ad),
        &node_id,
        &allowed,
        TrustPolicy::Allowlist,
        now,
        DEFAULT_MODEL_AD_TTL_MS,
    );
    assert!(summary.is_verified(), "status was {:?}", summary.status);
}

#[test]
fn forged_owner_id_mismatch_is_rejected() {
    let owner = generate();
    let node_id = [7u8; 32];
    let mut ad = sign_model_advertisement(&owner, &node_id, sample_models()).unwrap();
    ad.claim.owner_id = "0".repeat(64);
    let now = ad.claim.issued_at_unix_ms;
    assert_eq!(check(&ad, &node_id, now).status, ModelAdStatus::InvalidSignature);
}

#[test]
fn a_known_key_derives_its_public_key_and_signature() {
    // The first test vector of RFC 8032, section 7.1.
    let secret = [
        0x9d, 0x61, 0xb1, 0x9d, 0xef, 0xfd, 0x5a, 0x60, 0xba, 0x84, 0x4a, 0xf4, 0x92, 0xec, 0x2c,
        0xc4, 0x44, 0x49, 0xc5, 0x69, 0x7b, 0x32, 0x69, 0x19, 0x70, 0x3b, 0xac, 0x03, 0x1c, 0xae,
        0x7f, 0x60,
    ];
    let owner = OwnerKeypair::from_bytes(secret);
    let key = owner.verifying_key();
    assert_eq!(key[..4], [0xd7, 0x5a, 0x98, 0x01]);
    assert_eq!(key[28..], [0xf7, 0x07, 0x51, 0x1a]);
    let signature = owner.sign(&[]);
    assert_eq!(signature[..4], [0xe5, 0x56, 0x43, 0x00]);
    assert_eq!(signature[60..], [0x8e, 0x7a, 0x10, 0x0b]);
}

#[test]
fn an_owner_id_is_the_hash_of_the_key() {
    // SHA-256 of 32 zero bytes.
    assert_eq!(
        senda::crypto::owner_id_from_verifying_key(&[0u8; 32]),
        "66687aadf862bd776c8fc18b8e9f8e20089714856ee233b3902a591d0d5f2925"
    );
}

#[test]
fn the_signed_bytes_hold_every_claim_in_name_order() {
    let owner = OwnerKeypair::from_bytes([3u8; 32]);
    let ad = sign_model_advertisement_at(&owner, &[7u8; 32], sample_models(), 1_000).unwrap();
    let bytes = canonical_claim_bytes(&ad.claim).unwrap();
    let small = b"Qwen2.5-0.5B-Instruct-Q4_K_M";
    let large = b"Qwen2.5-32B-Instruct-Q4_K_M";
    let at = |needle: &[u8]| bytes.windows(needle.len()).position(|w| w == needle).unwrap();
    assert!(at(small) < at(large));
    assert!(bytes
        .windows(8)
        .any(|w| w == 37.148f64.to_bits().to_le_bytes()));
}

#[test]
fn claims_under_one_name_are_signed_in_one_order() {
    let owner = OwnerKeypair::from_bytes([3u8; 32]);
    let twins = || {
        let mut models = sample_models();
        models[0].model = "same".into();
        models[1].model = "same".into();
        models
    };
    let mut turned = twins();
    turned.reverse();
    let a = sign_model_advertisement_at(&owner, &[7u8; 32], twins(), 1_000).unwrap();
    let b = sign_model_advertisement_at(&owner, &[7u8; 32], turned, 1_000).unwrap();
    let bytes = canonical_claim_bytes(&a.claim).unwrap();
    assert_eq!(bytes, canonical_claim_bytes(&b.claim).unwrap());
    assert_eq!(a.signature, b.signature);
    let at = |needle: [u8; 8]| bytes.windows(8).position(|w| w == needle).unwrap();
    assert!(at(37.148f64.to_bits().to_le_bytes()) != at(180.0f64.to_bits().to_le_bytes()));
}

#[test]
fn a_key_that_is_no_hexadecimal_text_has_no_signed_bytes() {
    let owner = OwnerKeypair::from_bytes([3u8; 32]);
    let mut ad = sign_model_advertisement_at(&owner, &[7u8; 32], sample_models(), 1_000).unwrap();
    ad.claim.owner_sign_public_key = "zz".repeat(32);
    assert!(canonical_claim_bytes(&ad.claim).is_err());
    assert_eq!(check(&ad, &[7u8; 32], 1_000).status, ModelAdStatus::InvalidSignature);
    ad.claim.owner_sign_public_key = "ab".repeat(31);
    assert!(canonical_claim_bytes(&ad.claim).is_err());
}

#[test]
fn an_unknown_version_is_unsupported() {
    let owner = OwnerKeypair::from_bytes([3u8; 32]);
    let mut ad = sign_model_advertisement_at(&owner, &[7u8; 32], sample_models(), 1_000).unwrap();
    ad.claim.version += 1;
    assert_eq!(check(&ad, &[7u8; 32], 1_000).status, ModelAdStatus::UnsupportedProtocol);
}

#[test]
fn a_signature_of_another_key_is_no_evidence() {
    let owner = OwnerKeypair::from_bytes([3u8; 32]);
    let other = OwnerKeypair::from_bytes([4u8; 32]);
    let mut ad = sign_model_advertisement_at(&owner, &[7u8; 32], sample_models(), 1_000).unwrap();
    assert!(gather_evidence(&ad).signature_valid);
    ad.signature = sign_model_advertisement_at(&other, &[7u8; 32], sample_models(), 1_000)
        .unwrap()
        .signature;
    let evidence = gather_evidence(&ad);
    assert!(evidence.key_valid);
    assert!(!evidence.signature_valid);
    assert_eq!(evidence.derived_owner_id, owner.owner_id());
}

#[test]
fn evidence_decides_the_status() {
    let owner = OwnerKeypair::from_bytes([3u8; 32]);
    let ad = sign_model_advertisement_at(&owner, &[7u8; 32], sample_models(), 1_000).unwrap();
    let judge = |key_valid: bool, signature_valid: bool, now: u64| {
        judge_model_advertisement(
            &ad.claim,
            &AdEvidence {
                key_valid,
                derived_owner_id: owner.owner_id(),
                signature_valid,
            },
            &[7u8; 32],
            &TrustStore::default(),
            TrustPolicy::Off,
            now,
            500,
        )
    };
    assert_eq!(judge(true, true, 1_000), ModelAdStatus::Verified);
    assert_eq!(judge(true, true, 1_500), ModelAdStatus::Verified);
    assert_eq!(judge(true, true, 1_501), ModelAdStatus::Stale);
    assert_eq!(judge(true, true, 90_000), ModelAdStatus::Stale);
    assert_eq!(judge(false, true, 1_000), ModelAdStatus::InvalidSignature);
    assert_eq!(judge(true, false, 1_000), ModelAdStatus::InvalidSignature);
}
