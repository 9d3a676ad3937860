//! Owner-signed model advertisements.
//!
//! A node gossips per-model performance claims, and other peers relay them. An
//! advertisement binds the claims to the owner's Ed25519 key and to the node, so
//! that a relay can neither change the metrics nor attach them to another node.
//! `issued_at_unix_ms` and a time to live bound for how long an advertisement
//! can be replayed.

use vstd::prelude::*;
use vstd::relations::total_ordering;
use vstd::utf8::encode_utf8;

use crate::bytes::{
    law_text_front, le_bytes, lemma_append, lemma_byte_ranges, lemma_number_front,
    lemma_opt_number_front, lemma_opt_text_front, lemma_same_split, opt_number_bytes, opt_text_bytes, opt_text_fits, text_bytes, text_fits, write_bytes,
    write_le, write_optional_number, write_optional_string, write_string,
};
use crate::clock::current_time_unix_ms;
use crate::crypto::{
    ed25519_accepts, ed25519_check_key, ed25519_key_valid, ed25519_public_key, ed25519_signature,
    ed25519_verify_strict, neutral_nonce, owner_id_from_verifying_key, owner_id_of, CryptoError,
    OwnerKeypair,
};
use crate::hexcodec::{hex_bytes, hex_decode, hex_encode, hex_error_text, hex_text, law_hex_round_trip};
use crate::order::{
    bytes_le, bytes_not_after, insert_place, law_sorting_forgets_order, law_stable_order,
    lemma_bytes_le_antisymmetric, lemma_bytes_le_reflexive, lemma_bytes_le_total,
    lemma_bytes_le_transitive, lemma_sorted_multiset, lemma_text_le_antisymmetric,
    lemma_text_le_total, lemma_text_le_transitive, sorted_by, stable_order, text_le,
    text_not_after,
};
use crate::text::{opt_text, same_text};
use crate::trust::{law_every_listed_owner_counts, TrustPolicy, TrustStore};

verus! {

/// The version of the advertisement format.
pub const MODEL_AD_VERSION: u32 = 1;

/// How long a signed advertisement stays fresh: five minutes.
pub const DEFAULT_MODEL_AD_TTL_MS: u64 = 300_000;

/// How far the issuer's clock may run ahead.
pub const SKEW_TOLERANCE_MS: u64 = 60_000;

/// One per-model performance claim. Throughputs and latencies are double
/// precision numbers, held as their IEEE 754 bit patterns.
#[derive(Debug)]
pub struct ModelClaim {
    pub model: String,
    pub quant: Option<String>,
    pub measured_tps_p50: Option<u64>,
    pub measured_ttft_ms_p50: Option<u64>,
    pub samples_in_window: u32,
    pub native_tps_p50: Option<u64>,
    pub native_ttft_ms_p50: Option<u64>,
    pub native_backend: Option<String>,
    pub native_logit_fingerprint: Option<String>,
}

/// The mathematical content of a [`ModelClaim`].
#[verifier::ext_equal]
pub struct ModelClaimView {
    pub model: Seq<char>,
    pub quant: Option<Seq<char>>,
    pub measured_tps_p50: Option<u64>,
    pub measured_ttft_ms_p50: Option<u64>,
    pub samples_in_window: u32,
    pub native_tps_p50: Option<u64>,
    pub native_ttft_ms_p50: Option<u64>,
    pub native_backend: Option<Seq<char>>,
    pub native_logit_fingerprint: Option<Seq<char>>,
}

impl View for ModelClaim {
    type V = ModelClaimView;

    open spec fn view(&self) -> ModelClaimView {
        ModelClaimView {
            model: self.model@,
            quant: opt_text(self.quant),
            measured_tps_p50: self.measured_tps_p50,
            measured_ttft_ms_p50: self.measured_ttft_ms_p50,
            samples_in_window: self.samples_in_window,
            native_tps_p50: self.native_tps_p50,
            native_ttft_ms_p50: self.native_ttft_ms_p50,
            native_backend: opt_text(self.native_backend),
            native_logit_fingerprint: opt_text(self.native_logit_fingerprint),
        }
    }
}

/// What an advertisement states.
#[derive(Debug)]
pub struct ModelAdvertisementClaim {
    pub version: u32,
    pub owner_id: String,
    pub owner_sign_public_key: String,
    pub node_endpoint_id: String,
    pub issued_at_unix_ms: u64,
    pub models: Vec<ModelClaim>,
}

/// The mathematical content of a [`ModelAdvertisementClaim`].
#[verifier::ext_equal]
pub struct ClaimView {
    pub version: u32,
    pub owner_id: Seq<char>,
    pub owner_sign_public_key: Seq<char>,
    pub node_endpoint_id: Seq<char>,
    pub issued_at_unix_ms: u64,
    pub models: Seq<ModelClaimView>,
}

/// The content of each claim of a list.
pub open spec fn claims(models: Seq<ModelClaim>) -> Seq<ModelClaimView> {
    models.map_values(|m: ModelClaim| m@)
}

impl View for ModelAdvertisementClaim {
    type V = ClaimView;

    open spec fn view(&self) -> ClaimView {
        ClaimView {
            version: self.version,
            owner_id: self.owner_id@,
            owner_sign_public_key: self.owner_sign_public_key@,
            node_endpoint_id: self.node_endpoint_id@,
            issued_at_unix_ms: self.issued_at_unix_ms,
            models: claims(self.models@),
        }
    }
}

/// A claim with the owner's signature in hexadecimal.
#[derive(Debug)]
pub struct SignedModelAdvertisement {
    pub claim: ModelAdvertisementClaim,
    pub signature: String,
}

/// What came of checking an advertisement.
#[derive(Debug, Clone, Copy, PartialEq, Eq, Structural)]
pub enum ModelAdStatus {
    /// Signature valid, node id matches, fresh, owner neither revoked nor
    /// untrusted.
    Verified,
    /// There is no advertisement.
    Unsigned,
    InvalidSignature,
    MismatchedNodeId,
    /// Issued in the future, or longer ago than the time to live.
    Stale,
    RevokedOwner,
    UntrustedOwner,
    UnsupportedProtocol,
}

impl Default for ModelAdStatus {
    fn default() -> (status: ModelAdStatus)
        ensures
            status == ModelAdStatus::Unsigned,
    {
        ModelAdStatus::Unsigned
    }
}

/// The outcome of a check, with what the advertisement says of itself.
#[derive(Debug)]
pub struct ModelAdSummary {
    pub owner_id: Option<String>,
    pub status: ModelAdStatus,
    pub issued_at_unix_ms: Option<u64>,
    pub model_count: usize,
    pub verified: bool,
}

impl ModelAdSummary {
    /// The summary of an advertisement that is not there.
    pub open spec fn is_unsigned(&self) -> bool {
        &&& self.owner_id is None
        &&& self.status == ModelAdStatus::Unsigned
        &&& self.issued_at_unix_ms is None
        &&& self.model_count == 0
        &&& !self.verified
    }

    /// Whether the check ended in `Verified`.
    pub fn is_verified(&self) -> (r: bool)
        ensures
            r == (self.verified && self.status == ModelAdStatus::Verified),
    {
        self.verified && self.status == ModelAdStatus::Verified
    }
}

impl Default for ModelAdSummary {
    fn default() -> (summary: ModelAdSummary)
        ensures
            summary.is_unsigned(),
    {
        ModelAdSummary {
            owner_id: None,
            status: ModelAdStatus::Unsigned,
            issued_at_unix_ms: None,
            model_count: 0,
            verified: false,
        }
    }
}

/// The 32 bytes that hexadecimal text stands for.
pub open spec fn hex_32(text: Seq<char>) -> Option<Seq<u8>> {
    match hex_bytes(text) {
        Some(bytes) => if bytes.len() == 32 {
            Some(bytes)
        } else {
            None
        },
        None => None,
    }
}

/// Why text is not 32 bytes of hexadecimal: it is no hexadecimal text at all,
/// or it stands for another number of bytes.
pub open spec fn hex_32_error(label: Seq<char>, text: Seq<char>) -> Seq<char> {
    if hex_bytes(text) is None {
        "bad "@ + label + " hex: "@ + hex_error_text(text)
    } else {
        label + " must be 32 bytes"@
    }
}

/// Reads 32 bytes of hexadecimal.
fn decode_hex_32(label: &str, value: &str) -> (r: Result<[u8; 32], CryptoError>)
    ensures
        match r {
            Ok(bytes) => hex_32(value@) == Some(bytes@),
            Err(error) => hex_32(value@) is None && error.reason() == hex_32_error(label@, value@),
        },
{
    match hex_decode(value) {
        Ok(decoded) => {
            if decoded.len() == 32 {
                let mut bytes: [u8; 32] = [0u8;32];
                let mut i: usize = 0;
                while i < 32
                    invariant
                        i <= 32,
                        decoded.len() == 32,
                        forall|j: int| 0 <= j < i ==> bytes@[j] == decoded@[j],
                    decreases 32 - i,
                {
                    bytes[i] = decoded[i];
                    i = i + 1;
                }
                assert(bytes@ =~= decoded@);
                Ok(bytes)
            } else {
                let reason = label.to_owned().concat(" must be 32 bytes");
                Err(CryptoError::InvalidKeyMaterial { reason })
            }
        },
        Err(error) => {
            let reason = "bad ".to_owned().concat(label).concat(" hex: ").concat(error.as_str());
            Err(CryptoError::InvalidKeyMaterial { reason })
        },
    }
}

/// One claim, field after field.
pub open spec fn model_bytes(m: ModelClaimView) -> Seq<u8> {
    text_bytes(m.model) + opt_text_bytes(m.quant) + opt_number_bytes(m.measured_tps_p50)
        + opt_number_bytes(m.measured_ttft_ms_p50) + le_bytes(m.samples_in_window as nat, 4)
        + opt_number_bytes(m.native_tps_p50) + opt_number_bytes(m.native_ttft_ms_p50)
        + opt_text_bytes(m.native_backend) + opt_text_bytes(m.native_logit_fingerprint)
}

/// By what claims are sorted: their name and their bytes.
pub open spec fn claim_key() -> spec_fn(ModelClaimView) -> (Seq<char>, Seq<u8>) {
    |m: ModelClaimView| (m.model, model_bytes(m))
}

/// Claims are sorted by name, and those of one name by their bytes.
pub open spec fn claim_order() -> spec_fn((Seq<char>, Seq<u8>), (Seq<char>, Seq<u8>)) -> bool {
    |a: (Seq<char>, Seq<u8>), b: (Seq<char>, Seq<u8>)|
        if a.0 == b.0 {
            bytes_le(a.1, b.1)
        } else {
            text_le(a.0, b.0)
        }
}

/// The claims in the order in which they are signed.
pub open spec fn sorted_claims(models: Seq<ModelClaimView>) -> Seq<ModelClaimView> {
    sorted_by(models, claim_key(), claim_order())
}

/// The order of the claims is total.
proof fn lemma_claim_order_is_total()
    ensures
        total_ordering(claim_order()),
{
    let le = claim_order();
    assert forall|a: (Seq<char>, Seq<u8>)| #[trigger] le(a, a) by {
        lemma_bytes_le_reflexive(a.1);
    }
    assert forall|a: (Seq<char>, Seq<u8>), b: (Seq<char>, Seq<u8>)| #[trigger]
        le(a, b) && #[trigger] le(b, a) implies a == b by {
        if a.0 == b.0 {
            lemma_bytes_le_antisymmetric(a.1, b.1);
        } else {
            lemma_text_le_antisymmetric(a.0, b.0);
        }
    }
    assert forall|
        a: (Seq<char>, Seq<u8>),
        b: (Seq<char>, Seq<u8>),
        c: (Seq<char>, Seq<u8>),
    | #[trigger] le(a, b) && #[trigger] le(b, c) implies le(a, c) by {
        if a.0 == b.0 && b.0 == c.0 {
            lemma_bytes_le_transitive(a.1, b.1, c.1);
        } else if a.0 != b.0 && b.0 != c.0 {
            lemma_text_le_transitive(a.0, b.0, c.0);
            if a.0 == c.0 {
                lemma_text_le_antisymmetric(a.0, b.0);
            }
        }
    }
    assert forall|a: (Seq<char>, Seq<u8>), b: (Seq<char>, Seq<u8>)| #[trigger]
        le(a, b) || #[trigger] le(b, a) by {
        lemma_text_le_total(a.0, b.0);
        lemma_bytes_le_total(a.1, b.1);
    }
}

/// Claims one after another.
pub open spec fn models_bytes(models: Seq<ModelClaimView>) -> Seq<u8>
    decreases models.len(),
{
    if models.len() == 0 {
        Seq::empty()
    } else {
        model_bytes(models[0]) + models_bytes(models.drop_first())
    }
}

/// The text in front of everything that is signed.
pub open spec fn signing_tag() -> Seq<u8> {
    encode_utf8("senda-model-ad-v1:"@)
}

/// The signed bytes of a claim whose keys decode to `key` and `node`. The models
/// go in sorted, so their order in the claim does not matter.
pub open spec fn claim_bytes(claim: ClaimView, key: Seq<u8>, node: Seq<u8>) -> Seq<u8> {
    signing_tag() + le_bytes(claim.version as nat, 4) + text_bytes(claim.owner_id) + key + node
        + le_bytes(claim.issued_at_unix_ms as nat, 8) + le_bytes(claim.models.len(), 8)
        + models_bytes(sorted_claims(claim.models))
}

/// The signed bytes of a claim, if both of its keys decode.
pub open spec fn canonical_bytes(claim: ClaimView) -> Option<Seq<u8>> {
    match (hex_32(claim.owner_sign_public_key), hex_32(claim.node_endpoint_id)) {
        (Some(key), Some(node)) => Some(claim_bytes(claim, key, node)),
        _ => None,
    }
}

/// Why a claim has no signed bytes: the owner's key is looked at first.
pub open spec fn canonical_error(claim: ClaimView) -> Seq<char> {
    if hex_32(claim.owner_sign_public_key) is None {
        hex_32_error("owner_sign_public_key"@, claim.owner_sign_public_key)
    } else {
        hex_32_error("node_endpoint_id"@, claim.node_endpoint_id)
    }
}

/// Appends one claim.
fn write_model(buf: &mut Vec<u8>, m: &ModelClaim)
    ensures
        final(buf)@ == old(buf)@ + model_bytes(m@),
{
    let ghost start = buf@;
    let ghost v = m@;
    write_string(buf, m.model.as_str());
    write_optional_string(buf, &m.quant);
    write_optional_number(buf, m.measured_tps_p50);
    write_optional_number(buf, m.measured_ttft_ms_p50);
    write_le(buf, m.samples_in_window as u64, 4);
    write_optional_number(buf, m.native_tps_p50);
    write_optional_number(buf, m.native_ttft_ms_p50);
    write_optional_string(buf, &m.native_backend);
    write_optional_string(buf, &m.native_logit_fingerprint);
    proof {
        let p1 = text_bytes(v.model);
        let p2 = p1 + opt_text_bytes(v.quant);
        let p3 = p2 + opt_number_bytes(v.measured_tps_p50);
        let p4 = p3 + opt_number_bytes(v.measured_ttft_ms_p50);
        let p5 = p4 + le_bytes(v.samples_in_window as nat, 4);
        let p6 = p5 + opt_number_bytes(v.native_tps_p50);
        let p7 = p6 + opt_number_bytes(v.native_ttft_ms_p50);
        let p8 = p7 + opt_text_bytes(v.native_backend);
        lemma_append(start, p1, opt_text_bytes(v.quant));
        lemma_append(start, p2, opt_number_bytes(v.measured_tps_p50));
        lemma_append(start, p3, opt_number_bytes(v.measured_ttft_ms_p50));
        lemma_append(start, p4, le_bytes(v.samples_in_window as nat, 4));
        lemma_append(start, p5, opt_number_bytes(v.native_tps_p50));
        lemma_append(start, p6, opt_number_bytes(v.native_ttft_ms_p50));
        lemma_append(start, p7, opt_text_bytes(v.native_backend));
        lemma_append(start, p8, opt_text_bytes(v.native_logit_fingerprint));
    }
}

/// The bytes of each claim.
fn encode_models(models: &[ModelClaim]) -> (encoded: Vec<Vec<u8>>)
    ensures
        encoded.len() == models.len(),
        forall|i: int| 0 <= i < models.len() ==> (#[trigger] encoded@[i])@ == model_bytes(models@[i]@),
{
    let mut encoded: Vec<Vec<u8>> = Vec::new();
    let mut i: usize = 0;
    while i < models.len()
        invariant
            i <= models.len(),
            encoded.len() == i,
            forall|j: int| 0 <= j < i ==> (#[trigger] encoded@[j])@ == model_bytes(models@[j]@),
        decreases models.len() - i,
    {
        let mut one: Vec<u8> = Vec::new();
        write_model(&mut one, &models[i]);
        assert(one@ =~= model_bytes(models@[i as int]@));
        encoded.push(one);
        i = i + 1;
    }
    encoded
}

/// Whether one claim is signed before another, or has the same name and bytes.
fn claim_not_after(a: &ModelClaim, a_bytes: &[u8], b: &ModelClaim, b_bytes: &[u8]) -> (r: bool)
    requires
        a_bytes@ == model_bytes(a@),
        b_bytes@ == model_bytes(b@),
    ensures
        r == claim_order()(claim_key()(a@), claim_key()(b@)),
{
    if same_text(a.model.as_str(), b.model.as_str()) {
        bytes_not_after(a_bytes, b_bytes)
    } else {
        text_not_after(a.model.as_str(), b.model.as_str())
    }
}

/// The positions of the claims in the order in which they are signed.
fn sort_claims(models: &[ModelClaim], encoded: &[Vec<u8>]) -> (order: Vec<usize>)
    requires
        encoded.len() == models.len(),
        forall|i: int| 0 <= i < models.len() ==> (#[trigger] encoded@[i])@ == model_bytes(models@[i]@),
    ensures
        order.len() == models.len(),
        order@.map_values(|i: usize| i as int) == stable_order(
            claims(models@).map_values(claim_key()),
            claim_order(),
        ),
        forall|i: int| 0 <= i < order.len() ==> #[trigger] order@[i] < models.len(),
{
    let mut order: Vec<usize> = Vec::new();
    let mut n: usize = 0;
    let ghost all = claims(models@).map_values(claim_key());
    let ghost le = claim_order();
    assert(order@.map_values(|i: usize| i as int) =~= stable_order(all.take(0), le));
    while n < models.len()
        invariant
            n <= models.len(),
            order.len() == n,
            encoded.len() == models.len(),
            forall|i: int|
                0 <= i < models.len() ==> (#[trigger] encoded@[i])@ == model_bytes(models@[i]@),
            all == claims(models@).map_values(claim_key()),
            le == claim_order(),
            order@.map_values(|i: usize| i as int) == stable_order(all.take(n as int), le),
            forall|i: int| 0 <= i < order.len() ==> #[trigger] order@[i] < n,
        decreases models.len() - n,
    {
        let ghost before = order@.map_values(|i: usize| i as int);
        let ghost now = all.take(n + 1);
        assert(now.drop_last() =~= all.take(n as int));
        assert(now.last() == claim_key()(models@[n as int]@));
        let mut p: usize = 0;
        while p < order.len() && claim_not_after(
            &models[order[p]],
            encoded[order[p]].as_slice(),
            &models[n],
            encoded[n].as_slice(),
        )
            invariant
                p <= order.len(),
                order.len() == n < models.len(),
                encoded.len() == models.len(),
                forall|i: int|
                    0 <= i < models.len() ==> (#[trigger] encoded@[i])@ == model_bytes(models@[i]@),
                all == claims(models@).map_values(claim_key()),
                le == claim_order(),
                now == all.take(n + 1),
                now.last() == claim_key()(models@[n as int]@),
                before == order@.map_values(|i: usize| i as int),
                forall|i: int| 0 <= i < order.len() ==> #[trigger] order@[i] < n,
                insert_place(now, le, before, now.last(), 0) == insert_place(
                    now,
                    le,
                    before,
                    now.last(),
                    p as int,
                ),
            ensures
                p <= order.len(),
                insert_place(now, le, before, now.last(), 0) == p,
            decreases order.len() - p,
        {
            assert(before[p as int] == order@[p as int] as int);
            assert(now[before[p as int]] == claim_key()(models@[order@[p as int] as int]@));
            p = p + 1;
        }
        let ghost old_order = order@;
        order.insert(p, n);
        assert(order@.map_values(|i: usize| i as int) =~= before.insert(p as int, n as int));
        assert forall|i: int| 0 <= i < order.len() implies #[trigger] order@[i] < n + 1 by {
            if i < p {
                assert(order@[i] == old_order[i]);
            } else if i > p {
                assert(order@[i] == old_order[i - 1]);
            }
        }
        n = n + 1;
    }
    assert(all.take(n as int) =~= all);
    order
}

/// Appends the claims in the order in which they are signed.
fn write_sorted_models(buf: &mut Vec<u8>, models: &[ModelClaim])
    ensures
        final(buf)@ == old(buf)@ + models_bytes(sorted_claims(claims(models@))),
{
    let encoded = encode_models(models);
    let order = sort_claims(models, encoded.as_slice());
    let ghost sorted = sorted_claims(claims(models@));
    proof {
        let positions = order@.map_values(|i: usize| i as int);
        assert(sorted == positions.map_values(|i: int| claims(models@)[i]));
    }
    let mut i: usize = 0;
    assert(sorted.skip(0) =~= sorted);
    while i < order.len()
        invariant
            i <= order.len(),
            sorted.len() == order.len(),
            encoded.len() == models.len(),
            forall|j: int| 0 <= j < order.len() ==> #[trigger] order@[j] < models.len(),
            forall|j: int|
                0 <= j < models.len() ==> (#[trigger] encoded@[j])@ == model_bytes(models@[j]@),
            forall|j: int|
                0 <= j < order.len() ==> #[trigger] sorted[j] == models@[order@[j] as int]@,
            buf@ + models_bytes(sorted.skip(i as int)) == old(buf)@ + models_bytes(sorted),
        decreases order.len() - i,
    {
        let ghost before = buf@;
        write_bytes(buf, encoded[order[i]].as_slice());
        proof {
            let rest = sorted.skip(i as int);
            assert(rest[0] == sorted[i as int]);
            assert(rest.drop_first() =~= sorted.skip(i + 1));
            assert(before + models_bytes(rest) =~= buf@ + models_bytes(sorted.skip(i + 1)));
        }
        i = i + 1;
    }
    assert(sorted.skip(i as int) =~= Seq::empty());
    assert(buf@ =~= buf@ + models_bytes(sorted.skip(i as int)));
}

/// The deterministic byte encoding of a claim.
pub fn canonical_claim_bytes(claim: &ModelAdvertisementClaim) -> (r: Result<Vec<u8>, CryptoError>)
    ensures
        match r {
            Ok(bytes) => canonical_bytes(claim@) == Some(bytes@),
            Err(error) => canonical_bytes(claim@) is None && error.reason() == canonical_error(
                claim@,
            ),
        },
{
    let key = match decode_hex_32("owner_sign_public_key", claim.owner_sign_public_key.as_str()) {
        Ok(bytes) => bytes,
        Err(error) => return Err(error),
    };
    let node = match decode_hex_32("node_endpoint_id", claim.node_endpoint_id.as_str()) {
        Ok(bytes) => bytes,
        Err(error) => return Err(error),
    };
    let mut buf: Vec<u8> = Vec::new();
    write_bytes(&mut buf, "senda-model-ad-v1:".as_bytes());
    write_le(&mut buf, claim.version as u64, 4);
    write_string(&mut buf, claim.owner_id.as_str());
    write_bytes(&mut buf, key.as_slice());
    write_bytes(&mut buf, node.as_slice());
    write_le(&mut buf, claim.issued_at_unix_ms, 8);
    write_le(&mut buf, claim.models.len() as u64, 8);
    write_sorted_models(&mut buf, claim.models.as_slice());
    assert(buf@ =~= claim_bytes(claim@, key@, node@));
    Ok(buf)
}

/// The claims that a machine can hold: every length fits in eight bytes.
pub open spec fn model_fits(m: ModelClaimView) -> bool {
    &&& text_fits(m.model)
    &&& opt_text_fits(m.quant)
    &&& opt_text_fits(m.native_backend)
    &&& opt_text_fits(m.native_logit_fingerprint)
}

/// Every length in the claim fits in eight bytes.
pub open spec fn claim_fits(claim: ClaimView) -> bool {
    &&& text_fits(claim.owner_id)
    &&& claim.models.len() < 0x1_0000_0000_0000_0000
    &&& forall|i: int| 0 <= i < claim.models.len() ==> model_fits(#[trigger] claim.models[i])
}

/// A claim can be read back from the front of a byte string.
proof fn lemma_model_front(a: ModelClaimView, x: Seq<u8>, b: ModelClaimView, y: Seq<u8>)
    requires
        model_fits(a),
        model_fits(b),
        model_bytes(a) + x == model_bytes(b) + y,
    ensures
        a == b,
        x == y,
{
    let a9 = opt_text_bytes(a.native_logit_fingerprint) + x;
    let a8 = opt_text_bytes(a.native_backend) + a9;
    let a7 = opt_number_bytes(a.native_ttft_ms_p50) + a8;
    let a6 = opt_number_bytes(a.native_tps_p50) + a7;
    let a5 = le_bytes(a.samples_in_window as nat, 4) + a6;
    let a4 = opt_number_bytes(a.measured_ttft_ms_p50) + a5;
    let a3 = opt_number_bytes(a.measured_tps_p50) + a4;
    let a2 = opt_text_bytes(a.quant) + a3;
    let b9 = opt_text_bytes(b.native_logit_fingerprint) + y;
    let b8 = opt_text_bytes(b.native_backend) + b9;
    let b7 = opt_number_bytes(b.native_ttft_ms_p50) + b8;
    let b6 = opt_number_bytes(b.native_tps_p50) + b7;
    let b5 = le_bytes(b.samples_in_window as nat, 4) + b6;
    let b4 = opt_number_bytes(b.measured_ttft_ms_p50) + b5;
    let b3 = opt_number_bytes(b.measured_tps_p50) + b4;
    let b2 = opt_text_bytes(b.quant) + b3;
    lemma_model_nested(a, x);
    lemma_model_nested(b, y);
    law_text_front(a.model, a2, b.model, b2);
    lemma_opt_text_front(a.quant, a3, b.quant, b3);
    lemma_opt_number_front(a.measured_tps_p50, a4, b.measured_tps_p50, b4);
    lemma_opt_number_front(a.measured_ttft_ms_p50, a5, b.measured_ttft_ms_p50, b5);
    lemma_byte_ranges();
    lemma_number_front(a.samples_in_window as nat, a6, b.samples_in_window as nat, b6, 4);
    lemma_opt_number_front(a.native_tps_p50, a7, b.native_tps_p50, b7);
    lemma_opt_number_front(a.native_ttft_ms_p50, a8, b.native_ttft_ms_p50, b8);
    lemma_opt_text_front(a.native_backend, a9, b.native_backend, b9);
    lemma_opt_text_front(a.native_logit_fingerprint, x, b.native_logit_fingerprint, y);
}

/// The bytes of a claim and what follows, with the fields grouped to the right.
proof fn lemma_model_nested(m: ModelClaimView, x: Seq<u8>)
    ensures
        model_bytes(m) + x == text_bytes(m.model) + (opt_text_bytes(m.quant) + (opt_number_bytes(
            m.measured_tps_p50,
        ) + (opt_number_bytes(m.measured_ttft_ms_p50) + (le_bytes(m.samples_in_window as nat, 4) + (
        opt_number_bytes(m.native_tps_p50) + (opt_number_bytes(m.native_ttft_ms_p50) + (
        opt_text_bytes(m.native_backend) + (opt_text_bytes(m.native_logit_fingerprint) + x)))))))),
{
    let p1 = text_bytes(m.model);
    let p2 = p1 + opt_text_bytes(m.quant);
    let p3 = p2 + opt_number_bytes(m.measured_tps_p50);
    let p4 = p3 + opt_number_bytes(m.measured_ttft_ms_p50);
    let p5 = p4 + le_bytes(m.samples_in_window as nat, 4);
    let p6 = p5 + opt_number_bytes(m.native_tps_p50);
    let p7 = p6 + opt_number_bytes(m.native_ttft_ms_p50);
    let p8 = p7 + opt_text_bytes(m.native_backend);
    let q9 = opt_text_bytes(m.native_logit_fingerprint) + x;
    let q8 = opt_text_bytes(m.native_backend) + q9;
    let q7 = opt_number_bytes(m.native_ttft_ms_p50) + q8;
    let q6 = opt_number_bytes(m.native_tps_p50) + q7;
    let q5 = le_bytes(m.samples_in_window as nat, 4) + q6;
    let q4 = opt_number_bytes(m.measured_ttft_ms_p50) + q5;
    let q3 = opt_number_bytes(m.measured_tps_p50) + q4;
    lemma_append(p8, opt_text_bytes(m.native_logit_fingerprint), x);
    lemma_append(p7, opt_text_bytes(m.native_backend), q9);
    lemma_append(p6, opt_number_bytes(m.native_ttft_ms_p50), q8);
    lemma_append(p5, opt_number_bytes(m.native_tps_p50), q7);
    lemma_append(p4, le_bytes(m.samples_in_window as nat, 4), q6);
    lemma_append(p3, opt_number_bytes(m.measured_ttft_ms_p50), q5);
    lemma_append(p2, opt_number_bytes(m.measured_tps_p50), q4);
    lemma_append(p1, opt_text_bytes(m.quant), q3);
}

/// Lists of the same length can be read back from their bytes.
proof fn lemma_models_injective(a: Seq<ModelClaimView>, b: Seq<ModelClaimView>)
    requires
        a.len() == b.len(),
        forall|i: int| 0 <= i < a.len() ==> model_fits(#[trigger] a[i]),
        forall|i: int| 0 <= i < b.len() ==> model_fits(#[trigger] b[i]),
        models_bytes(a) == models_bytes(b),
    ensures
        a == b,
    decreases a.len(),
{
    if a.len() > 0 {
        lemma_model_front(
            a[0],
            models_bytes(a.drop_first()),
            b[0],
            models_bytes(b.drop_first()),
        );
        assert forall|i: int| 0 <= i < a.drop_first().len() implies model_fits(
            #[trigger] a.drop_first()[i],
        ) by {
            assert(a.drop_first()[i] == a[i + 1]);
        }
        assert forall|i: int| 0 <= i < b.drop_first().len() implies model_fits(
            #[trigger] b.drop_first()[i],
        ) by {
            assert(b.drop_first()[i] == b[i + 1]);
        }
        lemma_models_injective(a.drop_first(), b.drop_first());
        assert(a =~= seq![a[0]] + a.drop_first());
        assert(b =~= seq![b[0]] + b.drop_first());
    } else {
        assert(a =~= b);
    }
}

/// Sorting keeps what holds of every claim.
proof fn lemma_sorted_fits(models: Seq<ModelClaimView>)
    requires
        forall|i: int| 0 <= i < models.len() ==> model_fits(#[trigger] models[i]),
    ensures
        forall|i: int|
            0 <= i < models.len() ==> model_fits(#[trigger] sorted_claims(models)[i]),
        sorted_claims(models).len() == models.len(),
{
    let keys = models.map_values(claim_key());
    lemma_claim_order_is_total();
    law_stable_order(keys, claim_order());
    let order = stable_order(keys, claim_order());
    let sorted = sorted_claims(models);
    assert forall|i: int| 0 <= i < models.len() implies model_fits(#[trigger] sorted[i]) by {
        assert(sorted[i] == models[order[i]]);
    }
}

/// The signed bytes determine the claim: two claims with the same signed bytes
/// agree in version, owner, owner key, node, time of issue, and in their models
/// up to order. So a relay that changes any metric, or the node, changes what
/// the signature covers.
pub proof fn law_signed_bytes_determine_claim(a: ClaimView, b: ClaimView)
    requires
        claim_fits(a),
        claim_fits(b),
        canonical_bytes(a) is Some,
        canonical_bytes(a) == canonical_bytes(b),
    ensures
        a.version == b.version,
        a.owner_id == b.owner_id,
        hex_32(a.owner_sign_public_key) == hex_32(b.owner_sign_public_key),
        hex_32(a.node_endpoint_id) == hex_32(b.node_endpoint_id),
        a.issued_at_unix_ms == b.issued_at_unix_ms,
        sorted_claims(a.models) == sorted_claims(b.models),
        a.models.to_multiset() == b.models.to_multiset(),
{
    let (ka, kb) = (hex_32(a.owner_sign_public_key)->0, hex_32(b.owner_sign_public_key)->0);
    let (na, nb) = (hex_32(a.node_endpoint_id)->0, hex_32(b.node_endpoint_id)->0);
    let sa = sorted_claims(a.models);
    let sb = sorted_claims(b.models);
    let a7 = le_bytes(a.models.len(), 8) + models_bytes(sa);
    let b7 = le_bytes(b.models.len(), 8) + models_bytes(sb);
    let a6 = le_bytes(a.issued_at_unix_ms as nat, 8) + a7;
    let b6 = le_bytes(b.issued_at_unix_ms as nat, 8) + b7;
    let a3 = text_bytes(a.owner_id) + (ka + (na + a6));
    let b3 = text_bytes(b.owner_id) + (kb + (nb + b6));
    let a2 = le_bytes(a.version as nat, 4) + a3;
    let b2 = le_bytes(b.version as nat, 4) + b3;
    lemma_claim_nested(a, ka, na);
    lemma_claim_nested(b, kb, nb);
    lemma_byte_ranges();
    lemma_same_split(signing_tag(), a2, signing_tag(), b2);
    lemma_number_front(a.version as nat, a3, b.version as nat, b3, 4);
    law_text_front(a.owner_id, ka + (na + a6), b.owner_id, kb + (nb + b6));
    lemma_same_split(ka, na + a6, kb, nb + b6);
    lemma_same_split(na, a6, nb, b6);
    lemma_number_front(a.issued_at_unix_ms as nat, a7, b.issued_at_unix_ms as nat, b7, 8);
    lemma_number_front(a.models.len(), models_bytes(sa), b.models.len(), models_bytes(sb), 8);
    lemma_sorted_fits(a.models);
    lemma_sorted_fits(b.models);
    lemma_models_injective(sa, sb);
    lemma_claim_order_is_total();
    lemma_sorted_multiset(a.models, claim_key(), claim_order());
    lemma_sorted_multiset(b.models, claim_key(), claim_order());
}

/// The signed bytes with the fields grouped to the right.
proof fn lemma_claim_nested(claim: ClaimView, key: Seq<u8>, node: Seq<u8>)
    ensures
        claim_bytes(claim, key, node) == signing_tag() + (le_bytes(claim.version as nat, 4) + (
        text_bytes(claim.owner_id) + (key + (node + (le_bytes(claim.issued_at_unix_ms as nat, 8) + (
        le_bytes(claim.models.len(), 8) + models_bytes(
            sorted_claims(claim.models),
        ))))))),
{
    let p1 = signing_tag();
    let p2 = p1 + le_bytes(claim.version as nat, 4);
    let p3 = p2 + text_bytes(claim.owner_id);
    let p4 = p3 + key;
    let p5 = p4 + node;
    let p6 = p5 + le_bytes(claim.issued_at_unix_ms as nat, 8);
    let q8 = models_bytes(sorted_claims(claim.models));
    let q7 = le_bytes(claim.models.len(), 8) + q8;
    let q6 = le_bytes(claim.issued_at_unix_ms as nat, 8) + q7;
    let q5 = node + q6;
    let q4 = key + q5;
    let q3 = text_bytes(claim.owner_id) + q4;
    lemma_append(p6, le_bytes(claim.models.len(), 8), q8);
    lemma_append(p5, le_bytes(claim.issued_at_unix_ms as nat, 8), q7);
    lemma_append(p4, node, q6);
    lemma_append(p3, key, q5);
    lemma_append(p2, text_bytes(claim.owner_id), q4);
    lemma_append(p1, le_bytes(claim.version as nat, 4), q3);
}

/// Claims with the same keys have the same bytes.
proof fn lemma_models_bytes_by_key(a: Seq<ModelClaimView>, b: Seq<ModelClaimView>)
    requires
        a.map_values(claim_key()) == b.map_values(claim_key()),
    ensures
        models_bytes(a) == models_bytes(b),
    decreases a.len(),
{
    let (ka, kb) = (a.map_values(claim_key()), b.map_values(claim_key()));
    assert(ka.len() == a.len() && kb.len() == b.len());
    if a.len() > 0 {
        assert(ka[0] == kb[0]);
        assert(a.drop_first().map_values(claim_key()) =~= ka.drop_first());
        assert(b.drop_first().map_values(claim_key()) =~= kb.drop_first());
        lemma_models_bytes_by_key(a.drop_first(), b.drop_first());
    }
}

/// The order of the models does not change the signed bytes.
pub proof fn law_model_order_is_not_signed(a: ClaimView, b: ClaimView)
    requires
        a.models.to_multiset() == b.models.to_multiset(),
        b == (ClaimView { models: b.models, ..a }),
    ensures
        canonical_bytes(a) == canonical_bytes(b),
{
    lemma_claim_order_is_total();
    law_sorting_forgets_order(a.models, b.models, claim_key(), claim_order());
    lemma_models_bytes_by_key(sorted_claims(a.models), sorted_claims(b.models));
    lemma_sorted_multiset(a.models, claim_key(), claim_order());
    lemma_sorted_multiset(b.models, claim_key(), claim_order());
    let (ka, kb) = (
        sorted_claims(a.models).map_values(claim_key()),
        sorted_claims(b.models).map_values(claim_key()),
    );
    assert(ka.len() == a.models.len() && kb.len() == b.models.len());
}

/// An advertisement issued at `issued` is fresh at `now`: it comes from at most
/// one skew tolerance in the future and is not older than `ttl`.
pub open spec fn is_fresh_at(issued: u64, now: u64, ttl: u64) -> bool {
    issued <= now + SKEW_TOLERANCE_MS && now - issued <= ttl
}

/// What the cryptographic primitives say of an advertisement.
pub struct AdEvidence {
    /// The owner's key decodes to a curve point.
    pub key_valid: bool,
    /// The owner id that the owner's key derives to.
    pub derived_owner_id: String,
    /// The signature is well formed and covers the claim.
    pub signature_valid: bool,
}

/// The status that a present advertisement gets. The first check that fails
/// decides.
pub open spec fn judged_status(
    claim: ClaimView,
    actual_node: Seq<u8>,
    revoked: bool,
    trusted: bool,
    policy: TrustPolicy,
    now: u64,
    ttl: u64,
    key_valid: bool,
    derived_owner_id: Seq<char>,
    signature_valid: bool,
) -> ModelAdStatus {
    if claim.version != MODEL_AD_VERSION {
        ModelAdStatus::UnsupportedProtocol
    } else if hex_32(claim.owner_sign_public_key) is None || hex_32(claim.node_endpoint_id)
        is None {
        ModelAdStatus::InvalidSignature
    } else if hex_32(claim.node_endpoint_id) != Some(actual_node) {
        ModelAdStatus::MismatchedNodeId
    } else if !key_valid || derived_owner_id != claim.owner_id || !signature_valid {
        ModelAdStatus::InvalidSignature
    } else if !is_fresh_at(claim.issued_at_unix_ms, now, ttl) {
        ModelAdStatus::Stale
    } else if revoked {
        ModelAdStatus::RevokedOwner
    } else if policy == TrustPolicy::Allowlist && !trusted {
        ModelAdStatus::UntrustedOwner
    } else {
        ModelAdStatus::Verified
    }
}

/// Whether two 32-byte ids are the same.
fn same_id(a: &[u8; 32], b: &[u8; 32]) -> (r: bool)
    ensures
        r == (a@ == b@),
{
    let mut i: usize = 0;
    while i < 32
        invariant
            i <= 32,
            forall|j: int| 0 <= j < i ==> a@[j] == b@[j],
        decreases 32 - i,
    {
        if a[i] != b[i] {
            return false;
        }
        i = i + 1;
    }
    assert(a@ =~= b@);
    true
}

/// Judges a claim by what the cryptographic primitives said of it.
pub fn judge_model_advertisement(
    claim: &ModelAdvertisementClaim,
    evidence: &AdEvidence,
    actual_node_endpoint_id: &[u8; 32],
    trust_store: &TrustStore,
    policy: TrustPolicy,
    now_unix_ms: u64,
    ttl_ms: u64,
) -> (status: ModelAdStatus)
    ensures
        status == judged_status(
            claim@,
            actual_node_endpoint_id@,
            trust_store.revokes(claim.owner_id@),
            trust_store.trusts(claim.owner_id@),
            policy,
            now_unix_ms,
            ttl_ms,
            evidence.key_valid,
            evidence.derived_owner_id@,
            evidence.signature_valid,
        ),
{
    if claim.version != MODEL_AD_VERSION {
        return ModelAdStatus::UnsupportedProtocol;
    }
    if decode_hex_32("owner_sign_public_key", claim.owner_sign_public_key.as_str()).is_err() {
        return ModelAdStatus::InvalidSignature;
    }
    let node = match decode_hex_32("node_endpoint_id", claim.node_endpoint_id.as_str()) {
        Ok(bytes) => bytes,
        Err(_) => return ModelAdStatus::InvalidSignature,
    };
    if !same_id(&node, actual_node_endpoint_id) {
        return ModelAdStatus::MismatchedNodeId;
    }
    if !evidence.key_valid || !same_text(
        evidence.derived_owner_id.as_str(),
        claim.owner_id.as_str(),
    ) || !evidence.signature_valid {
        return ModelAdStatus::InvalidSignature;
    }
    if claim.issued_at_unix_ms > now_unix_ms.saturating_add(SKEW_TOLERANCE_MS)
        || now_unix_ms.saturating_sub(claim.issued_at_unix_ms) > ttl_ms {
        return ModelAdStatus::Stale;
    }
    if trust_store.is_revoked(claim.owner_id.as_str()) {
        return ModelAdStatus::RevokedOwner;
    }
    if policy == TrustPolicy::Allowlist && !trust_store.is_trusted(claim.owner_id.as_str()) {
        return ModelAdStatus::UntrustedOwner;
    }
    ModelAdStatus::Verified
}

/// The mathematical content of a [`SignedModelAdvertisement`].
pub struct AdView {
    pub claim: ClaimView,
    pub signature: Seq<char>,
}

impl View for SignedModelAdvertisement {
    type V = AdView;

    open spec fn view(&self) -> AdView {
        AdView { claim: self.claim@, signature: self.signature@ }
    }
}

/// The owner's key decodes to a curve point.
pub open spec fn ad_key_valid(ad: AdView) -> bool {
    match hex_32(ad.claim.owner_sign_public_key) {
        Some(key) => ed25519_key_valid(key),
        None => false,
    }
}

/// The owner id that the owner's key derives to; empty if the key does not
/// decode.
pub open spec fn ad_derived_owner_id(ad: AdView) -> Seq<char> {
    match hex_32(ad.claim.owner_sign_public_key) {
        Some(key) => owner_id_of(key),
        None => Seq::empty(),
    }
}

/// The signature is 64 bytes of hexadecimal that strict verification accepts
/// for the signed bytes of the claim under the owner's key.
pub open spec fn ad_signature_valid(ad: AdView) -> bool {
    match (canonical_bytes(ad.claim), hex_bytes(ad.signature)) {
        (Some(message), Some(signature)) => {
            &&& ad_key_valid(ad)
            &&& signature.len() == 64
            &&& ed25519_accepts(hex_32(ad.claim.owner_sign_public_key)->0, message, signature)
        },
        _ => false,
    }
}

/// The status of an advertisement that may not be there.
pub open spec fn advertisement_status(
    ad: Option<AdView>,
    actual_node: Seq<u8>,
    trust_store: TrustStore,
    policy: TrustPolicy,
    now: u64,
    ttl: u64,
) -> ModelAdStatus {
    match ad {
        None => ModelAdStatus::Unsigned,
        Some(ad) => judged_status(
            ad.claim,
            actual_node,
            trust_store.revokes(ad.claim.owner_id),
            trust_store.trusts(ad.claim.owner_id),
            policy,
            now,
            ttl,
            ad_key_valid(ad),
            ad_derived_owner_id(ad),
            ad_signature_valid(ad),
        ),
    }
}

/// The first 64 bytes of a vector that has exactly 64.
fn signature_array(bytes: &Vec<u8>) -> (r: [u8; 64])
    requires
        bytes.len() == 64,
    ensures
        r@ == bytes@,
{
    let mut r: [u8; 64] = [0u8;64];
    let mut i: usize = 0;
    while i < 64
        invariant
            i <= 64,
            bytes.len() == 64,
            forall|j: int| 0 <= j < i ==> r@[j] == bytes@[j],
        decreases 64 - i,
    {
        r[i] = bytes[i];
        i = i + 1;
    }
    assert(r@ =~= bytes@);
    r
}

/// Asks the cryptographic primitives about an advertisement.
pub fn gather_evidence(advertisement: &SignedModelAdvertisement) -> (evidence: AdEvidence)
    ensures
        evidence.key_valid == ad_key_valid(advertisement@),
        evidence.derived_owner_id@ == ad_derived_owner_id(advertisement@),
        evidence.signature_valid == ad_signature_valid(advertisement@),
{
    let claim = &advertisement.claim;
    let key = match decode_hex_32("owner_sign_public_key", claim.owner_sign_public_key.as_str()) {
        Ok(bytes) => bytes,
        Err(_) => return AdEvidence {
            key_valid: false,
            derived_owner_id: String::new(),
            signature_valid: false,
        },
    };
    let derived_owner_id = owner_id_from_verifying_key(&key);
    if !ed25519_check_key(&key) {
        return AdEvidence { key_valid: false, derived_owner_id, signature_valid: false };
    }
    let signature_valid = match (
        canonical_claim_bytes(claim),
        hex_decode(advertisement.signature.as_str()),
    ) {
        (Ok(message), Ok(signature)) => {
            if signature.len() == 64 {
                let signature = signature_array(&signature);
                ed25519_verify_strict(&key, message.as_slice(), &signature)
            } else {
                false
            }
        },
        _ => false,
    };
    AdEvidence { key_valid: true, derived_owner_id, signature_valid }
}

/// Verifies a signed advertisement against the node it claims to describe and
/// the local trust store. `ttl_ms` bounds how old it may be.
pub fn verify_model_advertisement(
    advertisement: Option<&SignedModelAdvertisement>,
    actual_node_endpoint_id: &[u8; 32],
    trust_store: &TrustStore,
    policy: TrustPolicy,
    now_unix_ms: u64,
    ttl_ms: u64,
) -> (summary: ModelAdSummary)
    ensures
        advertisement is None ==> summary.is_unsigned(),
        summary.status == advertisement_status(
            match advertisement {
                Some(ad) => Some(ad@),
                None => None,
            },
            actual_node_endpoint_id@,
            *trust_store,
            policy,
            now_unix_ms,
            ttl_ms,
        ),
        summary.verified == (summary.status == ModelAdStatus::Verified),
        advertisement matches Some(ad) ==> {
            &&& opt_text(summary.owner_id) == Some(ad.claim.owner_id@)
            &&& summary.issued_at_unix_ms == Some(ad.claim.issued_at_unix_ms)
            &&& summary.model_count == ad.claim.models@.len()
        },
{
    match advertisement {
        None => ModelAdSummary::default(),
        Some(advertisement) => {
            let claim = &advertisement.claim;
            let evidence = gather_evidence(advertisement);
            let status = judge_model_advertisement(
                claim,
                &evidence,
                actual_node_endpoint_id,
                trust_store,
                policy,
                now_unix_ms,
                ttl_ms,
            );
            ModelAdSummary {
                owner_id: Some(claim.owner_id.clone()),
                status,
                issued_at_unix_ms: Some(claim.issued_at_unix_ms),
                model_count: claim.models.len(),
                verified: status == ModelAdStatus::Verified,
            }
        },
    }
}

/// Everything about the advertisement that does not depend on the verifier
/// holds: its version, its keys, its owner id and its signature.
pub open spec fn is_genuine(ad: AdView) -> bool {
    &&& ad.claim.version == MODEL_AD_VERSION
    &&& hex_32(ad.claim.node_endpoint_id) is Some
    &&& ad_key_valid(ad)
    &&& ad_derived_owner_id(ad) == ad.claim.owner_id
    &&& ad_signature_valid(ad)
}

/// An advertisement is verified exactly if it is genuine, describes the node at
/// hand, is fresh, comes from an owner that is not revoked, and, under an
/// allowlist, from a listed one.
pub proof fn law_verified_iff(
    ad: AdView,
    actual_node: Seq<u8>,
    trust_store: TrustStore,
    policy: TrustPolicy,
    now: u64,
    ttl: u64,
)
    ensures
        advertisement_status(Some(ad), actual_node, trust_store, policy, now, ttl)
            == ModelAdStatus::Verified <==> {
            &&& is_genuine(ad)
            &&& hex_32(ad.claim.node_endpoint_id) == Some(actual_node)
            &&& is_fresh_at(ad.claim.issued_at_unix_ms, now, ttl)
            &&& !trust_store.revokes(ad.claim.owner_id)
            &&& policy == TrustPolicy::Allowlist ==> trust_store.trusts(ad.claim.owner_id)
        },
{
}

/// An advertisement that a relay attaches to another node is never verified:
/// whatever else holds of it, the other node's id does not match.
pub proof fn law_reattached_is_rejected(
    ad: AdView,
    node: Seq<u8>,
    other: Seq<u8>,
    trust_store: TrustStore,
    policy: TrustPolicy,
    now: u64,
    ttl: u64,
)
    requires
        advertisement_status(Some(ad), node, trust_store, policy, now, ttl)
            == ModelAdStatus::Verified,
        other != node,
    ensures
        advertisement_status(Some(ad), other, trust_store, policy, now, ttl)
            == ModelAdStatus::MismatchedNodeId,
{
}

/// Once an advertisement has outlived its time to live it stays stale.
pub proof fn law_stale_stays_stale(
    ad: AdView,
    actual_node: Seq<u8>,
    trust_store: TrustStore,
    policy: TrustPolicy,
    now: u64,
    later: u64,
    ttl: u64,
)
    requires
        advertisement_status(Some(ad), actual_node, trust_store, policy, now, ttl)
            == ModelAdStatus::Stale,
        now - ad.claim.issued_at_unix_ms > ttl,
        now <= later,
    ensures
        advertisement_status(Some(ad), actual_node, trust_store, policy, later, ttl)
            == ModelAdStatus::Stale,
{
}

/// The order in which a relay lists the models does not affect the outcome of a
/// check.
pub proof fn law_model_order_does_not_affect_verification(
    a: AdView,
    b: AdView,
    actual_node: Seq<u8>,
    trust_store: TrustStore,
    policy: TrustPolicy,
    now: u64,
    ttl: u64,
)
    requires
        a.claim.models.to_multiset() == b.claim.models.to_multiset(),
        b.claim == (ClaimView { models: b.claim.models, ..a.claim }),
        a.signature == b.signature,
    ensures
        advertisement_status(Some(a), actual_node, trust_store, policy, now, ttl)
            == advertisement_status(Some(b), actual_node, trust_store, policy, now, ttl),
{
    law_model_order_is_not_signed(a.claim, b.claim);
}

/// The claim that an owner makes for a node at a given time.
pub open spec fn fresh_claim(
    secret: Seq<u8>,
    node: Seq<u8>,
    models: Seq<ModelClaimView>,
    now: u64,
) -> ClaimView {
    ClaimView {
        version: MODEL_AD_VERSION,
        owner_id: owner_id_of(ed25519_public_key(secret)),
        owner_sign_public_key: hex_text(ed25519_public_key(secret)),
        node_endpoint_id: hex_text(node),
        issued_at_unix_ms: now,
        models,
    }
}

/// Signs the node's current model claims under the owner key, as issued at
/// `now_unix_ms`.
pub fn sign_model_advertisement_at(
    owner: &OwnerKeypair,
    node_endpoint_id: &[u8; 32],
    models: Vec<ModelClaim>,
    now_unix_ms: u64,
) -> (r: Result<SignedModelAdvertisement, CryptoError>)
    ensures
        r is Ok,
        r->Ok_0@.claim == fresh_claim(
            owner.secret(),
            node_endpoint_id@,
            claims(models@),
            now_unix_ms,
        ),
        canonical_bytes(r->Ok_0@.claim) is Some,
        r->Ok_0.signature@ == hex_text(
            ed25519_signature(owner.secret(), canonical_bytes(r->Ok_0@.claim)->0),
        ),
        !neutral_nonce(
            ed25519_signature(owner.secret(), canonical_bytes(r->Ok_0@.claim)->0),
        ) ==> is_genuine(r->Ok_0@),
{
    let key = owner.verifying_key();
    let claim = ModelAdvertisementClaim {
        version: MODEL_AD_VERSION,
        owner_id: owner.owner_id(),
        owner_sign_public_key: hex_encode(key.as_slice()),
        node_endpoint_id: hex_encode(node_endpoint_id.as_slice()),
        issued_at_unix_ms: now_unix_ms,
        models,
    };
    proof {
        law_hex_round_trip(key@);
        law_hex_round_trip(node_endpoint_id@);
    }
    let bytes = match canonical_claim_bytes(&claim) {
        Ok(bytes) => bytes,
        Err(error) => return Err(error),
    };
    let signature = owner.sign(bytes.as_slice());
    proof {
        law_hex_round_trip(signature@);
    }
    Ok(SignedModelAdvertisement { claim, signature: hex_encode(signature.as_slice()) })
}

/// Signs the node's current model claims under the owner key, as issued now.
pub fn sign_model_advertisement(
    owner: &OwnerKeypair,
    node_endpoint_id: &[u8; 32],
    models: Vec<ModelClaim>,
) -> (r: Result<SignedModelAdvertisement, CryptoError>)
    ensures
        r is Ok,
        r->Ok_0@.claim == fresh_claim(
            owner.secret(),
            node_endpoint_id@,
            claims(models@),
            r->Ok_0.claim.issued_at_unix_ms,
        ),
        canonical_bytes(r->Ok_0@.claim) is Some,
        r->Ok_0.signature@ == hex_text(
            ed25519_signature(owner.secret(), canonical_bytes(r->Ok_0@.claim)->0),
        ),
        !neutral_nonce(
            ed25519_signature(owner.secret(), canonical_bytes(r->Ok_0@.claim)->0),
        ) ==> is_genuine(r->Ok_0@),
{
    sign_model_advertisement_at(owner, node_endpoint_id, models, current_time_unix_ms())
}

/// What an owner signs for a node verifies there, for as long as it is fresh
/// and the owner is neither revoked nor kept out by an allowlist.
pub proof fn law_sign_then_verify(
    ad: AdView,
    secret: Seq<u8>,
    node: Seq<u8>,
    models: Seq<ModelClaimView>,
    issued: u64,
    trust_store: TrustStore,
    policy: TrustPolicy,
    now: u64,
    ttl: u64,
)
    requires
        node.len() == 32,
        ad.claim == fresh_claim(secret, node, models, issued),
        is_genuine(ad),
        is_fresh_at(issued, now, ttl),
        !trust_store.revokes(ad.claim.owner_id),
        policy == TrustPolicy::Allowlist ==> trust_store.trusts(ad.claim.owner_id),
    ensures
        advertisement_status(Some(ad), node, trust_store, policy, now, ttl)
            == ModelAdStatus::Verified,
{
    law_hex_round_trip(node);
}

/// Under an allowlist, a genuine and fresh advertisement for the node at hand is
/// verified if any entry of the list names its owner and no entry of the other list
/// does; without an allowlist the first list does not matter.
pub proof fn law_every_listed_owner_is_verified(
    ad: AdView,
    node: Seq<u8>,
    trust_store: TrustStore,
    now: u64,
    ttl: u64,
    i: int,
)
    requires
        is_genuine(ad),
        hex_32(ad.claim.node_endpoint_id) == Some(node),
        ad.claim.issued_at_unix_ms <= now + 60_000,
        now - ad.claim.issued_at_unix_ms <= ttl,
        forall|j: int|
            0 <= j < trust_store.revoked_owners@.len() ==> (
            #[trigger] trust_store.revoked_owners@[j]).owner_id@ != ad.claim.owner_id,
    ensures
        0 <= i < trust_store.trusted_owners@.len() && trust_store.trusted_owners@[i].owner_id@
            == ad.claim.owner_id ==> advertisement_status(
            Some(ad),
            node,
            trust_store,
            TrustPolicy::Allowlist,
            now,
            ttl,
        ) == ModelAdStatus::Verified,
        (forall|j: int|
            0 <= j < trust_store.trusted_owners@.len() ==> (
            #[trigger] trust_store.trusted_owners@[j]).owner_id@ != ad.claim.owner_id)
            ==> advertisement_status(
            Some(ad),
            node,
            trust_store,
            TrustPolicy::Allowlist,
            now,
            ttl,
        ) == ModelAdStatus::UntrustedOwner,
        advertisement_status(Some(ad), node, trust_store, TrustPolicy::Off, now, ttl)
            == ModelAdStatus::Verified,
{
    law_every_listed_owner_counts(trust_store, ad.claim.owner_id);
    if 0 <= i < trust_store.trusted_owners@.len() {
        assert(trust_store.trusts(trust_store.trusted_owners@[i].owner_id@));
    }
}

/// A revoked owner is rejected wherever it stands on the list, whatever the policy.
pub proof fn law_every_revoked_owner_is_rejected(
    ad: AdView,
    node: Seq<u8>,
    trust_store: TrustStore,
    policy: TrustPolicy,
    now: u64,
    ttl: u64,
    i: int,
)
    requires
        is_genuine(ad),
        hex_32(ad.claim.node_endpoint_id) == Some(node),
        ad.claim.issued_at_unix_ms <= now + 60_000,
        now - ad.claim.issued_at_unix_ms <= ttl,
        0 <= i < trust_store.revoked_owners@.len(),
        trust_store.revoked_owners@[i].owner_id@ == ad.claim.owner_id,
    ensures
        advertisement_status(Some(ad), node, trust_store, policy, now, ttl)
            == ModelAdStatus::RevokedOwner,
{
    law_every_listed_owner_counts(trust_store, ad.claim.owner_id);
    assert(trust_store.revokes(trust_store.revoked_owners@[i].owner_id@));
}

/// The age alone makes a genuine advertisement for the node at hand stale: more than
/// a minute in the future, or older than the time to live.
pub proof fn law_stale_by_age_alone(
    ad: AdView,
    node: Seq<u8>,
    trust_store: TrustStore,
    policy: TrustPolicy,
    now: u64,
    ttl: u64,
)
    requires
        is_genuine(ad),
        hex_32(ad.claim.node_endpoint_id) == Some(node),
    ensures
        advertisement_status(Some(ad), node, trust_store, policy, now, ttl) == ModelAdStatus::Stale
            <==> (ad.claim.issued_at_unix_ms > now + 60_000 || now - ad.claim.issued_at_unix_ms
            > ttl),
{
}

/// Each of the earlier checks has its own answer, whatever the later ones would say:
/// a version other than the first, keys that are not 32 bytes of hexadecimal, another
/// node, and then a key that is no point, an owner id that is not the digest of the
/// key, or a signature that does not cover the claim.
pub proof fn law_each_check_has_its_answer(
    ad: AdView,
    node: Seq<u8>,
    trust_store: TrustStore,
    policy: TrustPolicy,
    now: u64,
    ttl: u64,
)
    ensures
        advertisement_status(None, node, trust_store, policy, now, ttl) == ModelAdStatus::Unsigned,
        ({
            let status = advertisement_status(Some(ad), node, trust_store, policy, now, ttl);
            let key = hex_bytes(ad.claim.owner_sign_public_key);
            let named = hex_bytes(ad.claim.node_endpoint_id);
            let signature = hex_bytes(ad.signature);
            let keys_read = key is Some && key->0.len() == 32 && named is Some && named->0.len()
                == 32;
            let signed = keys_read && ed25519_key_valid(key->0) && hex_text(
                crate::crypto::sha256(key->0),
            ) == ad.claim.owner_id && signature is Some && signature->0.len() == 64
                && ed25519_accepts(key->0, canonical_bytes(ad.claim)->0, signature->0);
            &&& status == ModelAdStatus::UnsupportedProtocol <==> ad.claim.version != 1
            &&& ad.claim.version == 1 && !keys_read ==> status == ModelAdStatus::InvalidSignature
            &&& ad.claim.version == 1 && keys_read ==> (status == ModelAdStatus::MismatchedNodeId
                <==> named->0 != node)
            &&& ad.claim.version == 1 && keys_read && named->0 == node ==> (status
                == ModelAdStatus::InvalidSignature <==> !signed)
            &&& status == ModelAdStatus::Verified ==> signed && named->0 == node
            &&& status != ModelAdStatus::Unsigned
        }),
{
}

/// Where the parts of the signed bytes stand: the tag, the version in four bytes, the
/// length of the owner id in eight and the id, the owner's key, the node's id, the
/// time of issue and the number of models in eight bytes each.
pub proof fn law_signed_layout(claim: ClaimView, i: int)
    requires
        canonical_bytes(claim) is Some,
    ensures
        ({
            let bytes = canonical_bytes(claim)->0;
            let t = encode_utf8("senda-model-ad-v1:"@).len() as int;
            let owner = encode_utf8(claim.owner_id);
            let n = owner.len() as int;
            &&& bytes.len() >= t + n + 92
            &&& bytes.take(t) == encode_utf8("senda-model-ad-v1:"@)
            &&& 0 <= i < 4 ==> bytes[t + i] == (claim.version as int / vstd::arithmetic::power::pow(
                256,
                i as nat,
            )) % 256
            &&& 0 <= i < 8 ==> bytes[t + 4 + i] == (n / vstd::arithmetic::power::pow(
                256,
                i as nat,
            )) % 256
            &&& bytes.subrange(t + 12, t + 12 + n) == owner
            &&& Some(bytes.subrange(t + 12 + n, t + 44 + n)) == hex_bytes(
                claim.owner_sign_public_key,
            )
            &&& Some(bytes.subrange(t + 44 + n, t + 76 + n)) == hex_bytes(claim.node_endpoint_id)
            &&& 0 <= i < 8 ==> bytes[t + 76 + n + i] == (claim.issued_at_unix_ms as int
                / vstd::arithmetic::power::pow(256, i as nat)) % 256
            &&& 0 <= i < 8 ==> bytes[t + 84 + n + i] == (claim.models.len() as int
                / vstd::arithmetic::power::pow(256, i as nat)) % 256
        }),
{
    let key = hex_32(claim.owner_sign_public_key)->0;
    let node = hex_32(claim.node_endpoint_id)->0;
    let bytes = claim_bytes(claim, key, node);
    let t = signing_tag().len() as int;
    let owner = encode_utf8(claim.owner_id);
    let n = owner.len() as int;
    crate::bytes::lemma_le_bytes_len(claim.version as nat, 4);
    crate::bytes::lemma_le_bytes_len(n as nat, 8);
    crate::bytes::lemma_le_bytes_len(claim.issued_at_unix_ms as nat, 8);
    crate::bytes::lemma_le_bytes_len(claim.models.len(), 8);
    assert(bytes.take(t) =~= signing_tag());
    assert(bytes.subrange(t + 12, t + 12 + n) =~= owner);
    assert(bytes.subrange(t + 12 + n, t + 44 + n) =~= key);
    assert(bytes.subrange(t + 44 + n, t + 76 + n) =~= node);
    if 0 <= i < 4 {
        assert(bytes[t + i] == le_bytes(claim.version as nat, 4)[i]);
        crate::bytes::law_bytes_are_digits(claim.version as nat, 4, i);
    }
    if 0 <= i < 8 {
        assert(bytes[t + 4 + i] == le_bytes(n as nat, 8)[i]);
        assert(bytes[t + 76 + n + i] == le_bytes(claim.issued_at_unix_ms as nat, 8)[i]);
        assert(bytes[t + 84 + n + i] == le_bytes(claim.models.len(), 8)[i]);
        crate::bytes::law_bytes_are_digits(n as nat, 8, i);
        crate::bytes::law_bytes_are_digits(claim.issued_at_unix_ms as nat, 8, i);
        crate::bytes::law_bytes_are_digits(claim.models.len(), 8, i);
    }
}

/// The models are signed in ascending order of their names, each as often as it is
/// claimed.
pub proof fn law_models_are_signed_by_name(models: Seq<ModelClaimView>, i: int, j: int)
    requires
        0 <= i < j < models.len(),
    ensures
        sorted_claims(models).len() == models.len(),
        sorted_claims(models).to_multiset() == models.to_multiset(),
        text_le(sorted_claims(models)[i].model, sorted_claims(models)[j].model),
{
    let keys = models.map_values(claim_key());
    lemma_claim_order_is_total();
    lemma_sorted_multiset(models, claim_key(), claim_order());
    law_stable_order(keys, claim_order());
    let order = stable_order(keys, claim_order());
    assert(claim_order()(keys[order[i]], keys[order[j]]));
    if sorted_claims(models)[i].model == sorted_claims(models)[j].model {
        crate::order::lemma_text_le_reflexive(sorted_claims(models)[i].model);
    }
}

/// How a signed model is read, field by field: its name, quantization, measured rate
/// and latency, the number of samples in four bytes, native rate and latency, backend
/// and fingerprint, then what follows.
pub proof fn law_model_layout(m: ModelClaimView, x: Seq<u8>)
    ensures
        model_bytes(m) + x == text_bytes(m.model) + (opt_text_bytes(m.quant) + (opt_number_bytes(
            m.measured_tps_p50,
        ) + (opt_number_bytes(m.measured_ttft_ms_p50) + (le_bytes(m.samples_in_window as nat, 4) + (
        opt_number_bytes(m.native_tps_p50) + (opt_number_bytes(m.native_ttft_ms_p50) + (
        opt_text_bytes(m.native_backend) + (opt_text_bytes(m.native_logit_fingerprint) + x)))))))),
{
    lemma_model_nested(m, x);
}

} // verus!
