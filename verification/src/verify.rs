//! Checks that a peer runs the model it claims to run.
//!
//! A verifier probes a peer with the fixed prompt and compares the fingerprint
//! of the answer with a reference. A bounded prefix is compared, and a small
//! disagreement is tolerated, because backends differ in near ties. A verdict is
//! only an observation: no peer is demoted by it.

use vstd::prelude::*;

use crate::baseline::NativeBaselineEntry;
use crate::fingerprint::{
    completion_fingerprint, fingerprint_from_completion_json, FingerprintView,
    LogitFingerprint,
};
use crate::json::{json_document, json_error_text, parse_json};
use crate::peers::{NodeRole, PeerInfo};
use crate::text::{
    chars_of, copy_range, decimal, decimal_text, find_chars, has_text, lossy_text, occurs_at,
    parse_number, parsed_number, parts, same_text, split, split_on, string_of, texts, utf8_lossy,
    words, words_of,
};
use crate::text_map::TextMap;

verus! {

/// A non-negative fraction.
#[derive(Debug, Clone, Copy, PartialEq, Eq, Structural)]
pub struct Ratio {
    pub num: u64,
    pub den: u64,
}

/// Tunables of a comparison.
#[derive(Debug, Clone)]
pub struct VerifyThresholds {
    /// Fraction of the compared tokens that must agree.
    pub min_prefix_agreement: Ratio,
    /// Fewer overlapping tokens than this give no verdict.
    pub min_compared_tokens: usize,
}

impl Default for VerifyThresholds {
    fn default() -> (r: VerifyThresholds)
        ensures
            r.min_prefix_agreement == (Ratio { num: 9, den: 10 }),
            r.min_compared_tokens == 8,
    {
        VerifyThresholds {
            min_prefix_agreement: Ratio { num: 9, den: 10 },
            min_compared_tokens: 8,
        }
    }
}

/// The outcome of a comparison.
#[derive(Debug, Clone, PartialEq)]
pub enum FingerprintVerdict {
    /// Plausibly the same model, run honestly.
    Match { prefix_agreement: Ratio, compared_tokens: usize },
    /// Clearly another model, or canned output.
    Mismatch { prefix_agreement: Ratio, compared_tokens: usize, reason: &'static str },
    /// Not enough to decide. Never a reason to demote a peer.
    Inconclusive { reason: &'static str },
}

/// The smaller of two lengths.
pub open spec fn shorter(a: nat, b: nat) -> nat {
    if a <= b {
        a
    } else {
        b
    }
}

/// In how many of the first `n` places two token lists agree.
pub open spec fn agreeing(a: Seq<Seq<char>>, b: Seq<Seq<char>>, n: nat) -> nat
    decreases n,
{
    if n == 0 {
        0
    } else {
        agreeing(a, b, (n - 1) as nat) + (if a[n - 1] == b[n - 1] {
            1nat
        } else {
            0
        })
    }
}

/// The tokens that two fingerprints can be compared in.
pub open spec fn overlap(reference: FingerprintView, candidate: FingerprintView) -> nat {
    shorter(reference.prefix_tokens.len(), candidate.prefix_tokens.len())
}

/// The verdict on a candidate. Without tokens on both sides only equal, non-empty
/// output hashes say anything.
pub open spec fn is_verdict(
    verdict: FingerprintVerdict,
    reference: FingerprintView,
    candidate: FingerprintView,
    thresholds: VerifyThresholds,
) -> bool {
    let n = overlap(reference, candidate);
    let same = agreeing(reference.prefix_tokens, candidate.prefix_tokens, n);
    let min = thresholds.min_prefix_agreement;
    if n == 0 {
        if reference.output_sha256.len() > 0 && reference.output_sha256
            == candidate.output_sha256 {
            verdict == (FingerprintVerdict::Match {
                prefix_agreement: Ratio { num: 1, den: 1 },
                compared_tokens: 0,
            })
        } else {
            &&& verdict matches FingerprintVerdict::Inconclusive { reason }
            &&& reason@
                == "no token prefix to compare and output hashes differ (expected across backends) \u{2014} cannot judge with tolerance"@
        }
    } else if n < thresholds.min_compared_tokens {
        &&& verdict matches FingerprintVerdict::Inconclusive { reason }
        &&& reason@ == "too few overlapping tokens to render a verdict"@
    } else if same * min.den < min.num * n {
        &&& verdict matches FingerprintVerdict::Mismatch {
            prefix_agreement,
            compared_tokens,
            reason,
        }
        &&& prefix_agreement == (Ratio { num: same as u64, den: n as u64 })
        &&& compared_tokens == n
        &&& reason@
            == "greedy decode diverges from reference \u{2014} likely a different/smaller model or canned output"@
    } else {
        verdict == (FingerprintVerdict::Match {
            prefix_agreement: Ratio { num: same as u64, den: n as u64 },
            compared_tokens: n as usize,
        })
    }
}

/// Compares a candidate fingerprint with a reference.
pub fn compare_fingerprints(
    reference: &LogitFingerprint,
    candidate: &LogitFingerprint,
    thresholds: &VerifyThresholds,
) -> (verdict: FingerprintVerdict)
    ensures
        is_verdict(verdict, reference@, candidate@, *thresholds),
{
    let a = &reference.prefix_tokens;
    let b = &candidate.prefix_tokens;
    if a.is_empty() || b.is_empty() {
        if !reference.output_sha256.as_str().is_empty() && same_text(
            reference.output_sha256.as_str(),
            candidate.output_sha256.as_str(),
        ) {
            return FingerprintVerdict::Match {
                prefix_agreement: Ratio { num: 1, den: 1 },
                compared_tokens: 0,
            };
        }
        return FingerprintVerdict::Inconclusive {
            reason:
                "no token prefix to compare and output hashes differ (expected across backends) \u{2014} cannot judge with tolerance",
        };
    }
    let n: usize = if a.len() <= b.len() {
        a.len()
    } else {
        b.len()
    };
    if n < thresholds.min_compared_tokens {
        return FingerprintVerdict::Inconclusive {
            reason: "too few overlapping tokens to render a verdict",
        };
    }
    let mut same: usize = 0;
    let mut i: usize = 0;
    while i < n
        invariant
            i <= n <= a.len(),
            n <= b.len(),
            a == reference.prefix_tokens,
            b == candidate.prefix_tokens,
            same <= i,
            same == agreeing(reference@.prefix_tokens, candidate@.prefix_tokens, i as nat),
        decreases n - i,
    {
        assert(reference@.prefix_tokens[i as int] == a@[i as int]@);
        assert(candidate@.prefix_tokens[i as int] == b@[i as int]@);
        if same_text(a[i].as_str(), b[i].as_str()) {
            same = same + 1;
        }
        i = i + 1;
    }
    let min = thresholds.min_prefix_agreement;
    let agreement = Ratio { num: same as u64, den: n as u64 };
    let (s, d, m, c) = (same as u128, min.den as u128, min.num as u128, n as u128);
    assert(s * d <= 0xffff_ffff_ffff_ffff * 0xffff_ffff_ffff_ffff && m * c <= 0xffff_ffff_ffff_ffff
        * 0xffff_ffff_ffff_ffff) by (nonlinear_arith)
        requires
            s <= 0xffff_ffff_ffff_ffff,
            d <= 0xffff_ffff_ffff_ffff,
            m <= 0xffff_ffff_ffff_ffff,
            c <= 0xffff_ffff_ffff_ffff,
    ;
    if s * d < m * c {
        return FingerprintVerdict::Mismatch {
            prefix_agreement: agreement,
            compared_tokens: n,
            reason:
                "greedy decode diverges from reference \u{2014} likely a different/smaller model or canned output",
        };
    }
    FingerprintVerdict::Match { prefix_agreement: agreement, compared_tokens: n }
}

proof fn lemma_agreeing_bounds(a: Seq<Seq<char>>, b: Seq<Seq<char>>, n: nat)
    ensures
        agreeing(a, b, n) <= n,
        agreeing(a, b, n) == agreeing(b, a, n),
        a == b ==> agreeing(a, b, n) == n,
    decreases n,
{
    if n > 0 {
        lemma_agreeing_bounds(a, b, (n - 1) as nat);
    }
}

/// A fingerprint never mismatches itself: it matches perfectly once it has enough
/// tokens, as long as the threshold is a fraction of at most one.
pub proof fn law_identical_fingerprints_match(
    verdict: FingerprintVerdict,
    fp: FingerprintView,
    thresholds: VerifyThresholds,
)
    requires
        thresholds.min_prefix_agreement.num <= thresholds.min_prefix_agreement.den,
        is_verdict(verdict, fp, fp, thresholds),
    ensures
        !(verdict is Mismatch),
        fp.prefix_tokens.len() > 0 && fp.prefix_tokens.len() >= thresholds.min_compared_tokens
            ==> (verdict matches FingerprintVerdict::Match { prefix_agreement, .. }
            && prefix_agreement.num == prefix_agreement.den),
{
    let n = fp.prefix_tokens.len();
    lemma_agreeing_bounds(fp.prefix_tokens, fp.prefix_tokens, n);
    let min = thresholds.min_prefix_agreement;
    let (x, y) = (min.num, min.den);
    assert(n * y >= x * n) by (nonlinear_arith)
        requires
            x <= y,
    ;
}

/// Which of the two fingerprints is the reference does not matter to the verdict or
/// to anything that it says.
pub proof fn law_comparison_is_symmetric(
    x: FingerprintVerdict,
    y: FingerprintVerdict,
    a: FingerprintView,
    b: FingerprintView,
    thresholds: VerifyThresholds,
)
    requires
        is_verdict(x, a, b, thresholds),
        is_verdict(y, b, a, thresholds),
    ensures
        match x {
            FingerprintVerdict::Match { .. } => y == x,
            FingerprintVerdict::Mismatch { prefix_agreement, compared_tokens, reason } => {
                &&& y matches FingerprintVerdict::Mismatch {
                    prefix_agreement: agreement,
                    compared_tokens: tokens,
                    reason: other,
                }
                &&& agreement == prefix_agreement
                &&& tokens == compared_tokens
                &&& other@ == reason@
            },
            FingerprintVerdict::Inconclusive { reason } => {
                &&& y matches FingerprintVerdict::Inconclusive { reason: other }
                &&& other@ == reason@
            },
        },
{
    lemma_agreeing_bounds(a.prefix_tokens, b.prefix_tokens, overlap(a, b));
    assert(overlap(a, b) == overlap(b, a));
}

/// A mismatch needs tokens on both sides, at least as many as the threshold, and
/// fewer agreeing ones than the tolerated fraction. So differing hashes alone
/// never convict a peer.
pub proof fn law_mismatch_needs_diverging_tokens(
    verdict: FingerprintVerdict,
    a: FingerprintView,
    b: FingerprintView,
    thresholds: VerifyThresholds,
)
    requires
        is_verdict(verdict, a, b, thresholds),
    ensures
        verdict is Mismatch ==> {
            &&& overlap(a, b) > 0
            &&& overlap(a, b) >= thresholds.min_compared_tokens
            &&& agreeing(a.prefix_tokens, b.prefix_tokens, overlap(a, b))
                * thresholds.min_prefix_agreement.den < thresholds.min_prefix_agreement.num
                * overlap(a, b)
        },
{
}

/// Timing of the verifier, in seconds.
#[derive(Debug, Clone)]
pub struct VerifierConfig {
    /// Delay before the first audit.
    pub settle_secs: u64,
    /// Pause between two audits.
    pub interval_secs: u64,
    /// Cap on a single probe.
    pub probe_timeout_secs: u64,
    pub thresholds: VerifyThresholds,
}

impl Default for VerifierConfig {
    fn default() -> (r: VerifierConfig)
        ensures
            r.settle_secs == 60,
            r.interval_secs == 120,
            r.probe_timeout_secs == 60,
            r.thresholds.min_prefix_agreement == (Ratio { num: 9, den: 10 }),
            r.thresholds.min_compared_tokens == 8,
    {
        VerifierConfig {
            settle_secs: 60,
            interval_secs: 120,
            probe_timeout_secs: 60,
            thresholds: VerifyThresholds::default(),
        }
    }
}

/// Fingerprints by model, as content.
pub open spec fn contents(map: Map<Seq<char>, LogitFingerprint>) -> Map<Seq<char>, FingerprintView> {
    map.map_values(|fp: LogitFingerprint| fp@)
}

/// A map with the pairs of a list put in one after another.
pub open spec fn with_all(
    map: Map<Seq<char>, FingerprintView>,
    pairs: Seq<(String, LogitFingerprint)>,
) -> Map<Seq<char>, FingerprintView>
    decreases pairs.len(),
{
    if pairs.len() == 0 {
        map
    } else {
        with_all(map, pairs.drop_last()).insert(pairs.last().0@, pairs.last().1@)
    }
}

/// Reference fingerprints by model name.
#[derive(Debug)]
pub struct ReferenceStore {
    refs: TextMap<LogitFingerprint>,
}

impl View for ReferenceStore {
    type V = Map<Seq<char>, FingerprintView>;

    closed spec fn view(&self) -> Map<Seq<char>, FingerprintView> {
        contents(self.refs@)
    }
}

impl ReferenceStore {
    /// A store without references.
    pub fn new() -> (store: ReferenceStore)
        ensures
            store@ == Map::<Seq<char>, FingerprintView>::empty(),
    {
        let store = ReferenceStore { refs: TextMap::new() };
        assert(store@ =~= Map::<Seq<char>, FingerprintView>::empty());
        store
    }

    /// The shipped references, with local ones layered on top: those replace or
    /// extend the shipped ones.
    pub fn layered(
        shipped: &[(String, LogitFingerprint)],
        local: &[(String, LogitFingerprint)],
    ) -> (store: ReferenceStore)
        ensures
            store@ == with_all(
                with_all(Map::<Seq<char>, FingerprintView>::empty(), shipped@),
                local@,
            ),
    {
        let mut store = ReferenceStore::new();
        store.put_all(shipped);
        store.put_all(local);
        store
    }

    /// Puts the pairs of a list in.
    fn put_all(&mut self, pairs: &[(String, LogitFingerprint)])
        ensures
            final(self)@ == with_all(old(self)@, pairs@),
    {
        let mut i: usize = 0;
        while i < pairs.len()
            invariant
                i <= pairs.len(),
                self@ == with_all(old(self)@, pairs@.take(i as int)),
            decreases pairs.len() - i,
        {
            assert(pairs@.take(i + 1).drop_last() =~= pairs@.take(i as int));
            self.upsert(pairs[i].0.as_str(), &pairs[i].1);
            i = i + 1;
        }
        assert(pairs@.take(i as int) =~= pairs@);
    }

    /// Inserts or replaces the reference of a model.
    pub fn upsert(&mut self, model: &str, fp: &LogitFingerprint)
        ensures
            final(self)@ == old(self)@.insert(model@, fp@),
    {
        self.refs.insert(model.to_owned(), fp.clone());
        assert(self@ =~= old(self)@.insert(model@, fp@));
    }

    /// The reference of a model.
    pub fn get(&self, model: &str) -> (r: Option<&LogitFingerprint>)
        ensures
            match r {
                Some(fp) => self@.contains_key(model@) && self@[model@] == fp@,
                None => !self@.contains_key(model@),
            },
    {
        self.refs.get(model)
    }

    /// The models that have a reference, each once.
    pub fn models(&self) -> (r: Vec<String>)
        ensures
            forall|k: Seq<char>| texts(r@).contains(k) <==> self@.contains_key(k),
            r@.len() == self@.dom().len(),
    {
        assert(self@.dom() =~= self.refs@.dom());
        self.refs.keys()
    }
}

/// A local reference replaces the shipped one, and models without a local one
/// keep what was shipped.
pub proof fn law_local_references_win(
    map: Map<Seq<char>, FingerprintView>,
    pairs: Seq<(String, LogitFingerprint)>,
    model: Seq<char>,
    i: int,
)
    requires
        0 <= i < pairs.len(),
        pairs[i].0@ == model,
        forall|j: int| i < j < pairs.len() ==> (#[trigger] pairs[j]).0@ != model,
    ensures
        with_all(map, pairs).contains_key(model),
        with_all(map, pairs)[model] == pairs[i].1@,
    decreases pairs.len(),
{
    if i < pairs.len() - 1 {
        assert(pairs[pairs.len() - 1].0@ != model);
        assert forall|j: int| i < j < pairs.drop_last().len() implies (
        #[trigger] pairs.drop_last()[j]).0@ != model by {
            assert(pairs.drop_last()[j] == pairs[j]);
        }
        law_local_references_win(map, pairs.drop_last(), model, i);
    }
}

/// Models that no pair names keep their reference.
pub proof fn law_other_references_stay(
    map: Map<Seq<char>, FingerprintView>,
    pairs: Seq<(String, LogitFingerprint)>,
    model: Seq<char>,
)
    requires
        forall|j: int| 0 <= j < pairs.len() ==> (#[trigger] pairs[j]).0@ != model,
    ensures
        with_all(map, pairs).contains_key(model) == map.contains_key(model),
        map.contains_key(model) ==> with_all(map, pairs)[model] == map[model],
    decreases pairs.len(),
{
    if pairs.len() > 0 {
        assert(pairs[pairs.len() - 1].0@ != model);
        assert forall|j: int| 0 <= j < pairs.drop_last().len() implies (
        #[trigger] pairs.drop_last()[j]).0@ != model by {
            assert(pairs.drop_last()[j] == pairs[j]);
        }
        law_other_references_stay(map, pairs.drop_last(), model);
    }
}

/// The fingerprints among a node's own baselines, by model; of several for one
/// model the last counts.
pub open spec fn own_references(entries: Seq<NativeBaselineEntry>) -> Map<Seq<char>, FingerprintView>
    decreases entries.len(),
{
    if entries.len() == 0 {
        Map::empty()
    } else {
        let before = own_references(entries.drop_last());
        match entries.last().logit_fingerprint {
            Some(fp) => before.insert(entries.last().model@, fp@),
            None => before,
        }
    }
}

/// Collects the fingerprints among a node's own baselines.
pub fn self_baseline_fingerprints(entries: &[NativeBaselineEntry]) -> (store: ReferenceStore)
    ensures
        store@ == own_references(entries@),
{
    let mut store = ReferenceStore::new();
    let mut i: usize = 0;
    while i < entries.len()
        invariant
            i <= entries.len(),
            store@ == own_references(entries@.take(i as int)),
        decreases entries.len() - i,
    {
        assert(entries@.take(i + 1).drop_last() =~= entries@.take(i as int));
        if let Some(fp) = &entries[i].logit_fingerprint {
            store.upsert(entries[i].model.as_str(), fp);
        }
        i = i + 1;
    }
    assert(entries@.take(i as int) =~= entries@);
    store
}

/// A peer and model that can be audited, with the reference to hold it to.
#[derive(Debug)]
pub struct AuditCandidate {
    pub peer_id: String,
    pub model: String,
    pub reference: LogitFingerprint,
}

/// The content of a candidate.
pub open spec fn candidate_view(c: AuditCandidate) -> (Seq<char>, Seq<char>, FingerprintView) {
    (c.peer_id@, c.model@, c.reference@)
}

/// The content of a list of candidates.
pub open spec fn candidate_views(list: Seq<AuditCandidate>) -> Seq<
    (Seq<char>, Seq<char>, FingerprintView),
> {
    list.map_values(|c: AuditCandidate| candidate_view(c))
}

/// The reference for a model: a stored one, or else the node's own.
pub open spec fn reference_for(
    store: Map<Seq<char>, FingerprintView>,
    own: Map<Seq<char>, FingerprintView>,
    model: Seq<char>,
) -> Option<FingerprintView> {
    if store.contains_key(model) {
        Some(store[model])
    } else if own.contains_key(model) {
        Some(own[model])
    } else {
        None
    }
}

/// The models of one peer that have a reference.
pub open spec fn model_candidates(
    peer_id: Seq<char>,
    models: Seq<Seq<char>>,
    store: Map<Seq<char>, FingerprintView>,
    own: Map<Seq<char>, FingerprintView>,
) -> Seq<(Seq<char>, Seq<char>, FingerprintView)>
    decreases models.len(),
{
    if models.len() == 0 {
        Seq::empty()
    } else {
        let before = model_candidates(peer_id, models.drop_last(), store, own);
        match reference_for(store, own, models.last()) {
            Some(reference) => before.push((peer_id, models.last(), reference)),
            None => before,
        }
    }
}

/// The models that can be audited on a peer: those that a host other than this
/// node answers for.
pub open spec fn auditable(p: PeerInfo, local_id: Seq<char>) -> Seq<Seq<char>> {
    if p.id@ != local_id && p.role is Host {
        p.routable()
    } else {
        Seq::empty()
    }
}

/// All peers and models that can be audited.
pub open spec fn audit_pairs(
    local_id: Seq<char>,
    peers: Seq<PeerInfo>,
    store: Map<Seq<char>, FingerprintView>,
    own: Map<Seq<char>, FingerprintView>,
) -> Seq<(Seq<char>, Seq<char>, FingerprintView)>
    decreases peers.len(),
{
    if peers.len() == 0 {
        Seq::empty()
    } else {
        audit_pairs(local_id, peers.drop_last(), store, own) + model_candidates(
            peers.last().id@,
            auditable(peers.last(), local_id),
            store,
            own,
        )
    }
}

/// Appends the candidates of one peer.
fn push_candidates(
    list: &mut Vec<AuditCandidate>,
    peer_id: &str,
    models: &[String],
    store: &ReferenceStore,
    own: &ReferenceStore,
)
    ensures
        candidate_views(final(list)@) == candidate_views(old(list)@) + model_candidates(
            peer_id@,
            texts(models@),
            store@,
            own@,
        ),
{
    let ghost start = candidate_views(list@);
    let ghost all = texts(models@);
    let mut i: usize = 0;
    assert(candidate_views(list@) =~= start + model_candidates(
        peer_id@,
        all.take(0),
        store@,
        own@,
    ));
    while i < models.len()
        invariant
            i <= models.len(),
            all == texts(models@),
            candidate_views(list@) == start + model_candidates(
                peer_id@,
                all.take(i as int),
                store@,
                own@,
            ),
        decreases models.len() - i,
    {
        proof {
            assert(all.take(i + 1).drop_last() =~= all.take(i as int));
            assert(all.take(i + 1).last() == models@[i as int]@);
        }
        let model = models[i].as_str();
        let reference = match store.get(model) {
            Some(fp) => Some(fp),
            None => own.get(model),
        };
        if let Some(fp) = reference {
            let ghost before = list@;
            list.push(
                AuditCandidate {
                    peer_id: peer_id.to_owned(),
                    model: model.to_owned(),
                    reference: fp.clone(),
                },
            );
            proof {
                assert(candidate_views(list@) =~= candidate_views(before).push(
                    (peer_id@, model@, fp@),
                ));
                assert(candidate_views(list@) =~= start + model_candidates(
                    peer_id@,
                    all.take(i + 1),
                    store@,
                    own@,
                ));
            }
        }
        i = i + 1;
    }
    assert(all.take(i as int) =~= all);
}

/// Lists all peers and models that can be audited.
pub fn audit_candidates(
    local_id: &str,
    peers: &[PeerInfo],
    store: &ReferenceStore,
    own: &ReferenceStore,
) -> (r: Vec<AuditCandidate>)
    ensures
        candidate_views(r@) == audit_pairs(local_id@, peers@, store@, own@),
{
    let mut list: Vec<AuditCandidate> = Vec::new();
    let mut i: usize = 0;
    assert(candidate_views(list@) =~= audit_pairs(local_id@, peers@.take(0), store@, own@));
    while i < peers.len()
        invariant
            i <= peers.len(),
            candidate_views(list@) == audit_pairs(local_id@, peers@.take(i as int), store@, own@),
        decreases peers.len() - i,
    {
        assert(peers@.take(i + 1).drop_last() =~= peers@.take(i as int));
        let is_host = match peers[i].role {
            NodeRole::Host { .. } => true,
            _ => false,
        };
        if is_host && !same_text(peers[i].id.as_str(), local_id) {
            push_candidates(
                &mut list,
                peers[i].id.as_str(),
                peers[i].routable_models().as_slice(),
                store,
                own,
            );
        } else {
            assert(candidate_views(list@) =~= audit_pairs(
                local_id@,
                peers@.take(i + 1),
                store@,
                own@,
            ));
        }
        i = i + 1;
    }
    assert(peers@.take(i as int) =~= peers@);
    list
}

/// Picks one candidate by the nanoseconds of the clock.
pub fn pick_candidate(candidates: Vec<AuditCandidate>, nanos: u32) -> (r: Result<
    AuditCandidate,
    &'static str,
>)
    ensures
        match r {
            Ok(c) => candidates@.len() > 0 && c == candidates@[nanos as int
                % candidates@.len() as int],
            Err(e) => candidates@.len() == 0 && e@
                == "no (peer, model) pairs with an available reference"@,
        },
{
    let mut candidates = candidates;
    if candidates.is_empty() {
        return Err("no (peer, model) pairs with an available reference");
    }
    let len: u64 = candidates.len() as u64;
    let place: usize = (nanos as u64 % len) as usize;
    Ok(candidates.swap_remove(place))
}

/// No node audits itself, and only models with a reference are audited.
pub proof fn law_audits_are_founded(
    local_id: Seq<char>,
    peers: Seq<PeerInfo>,
    store: Map<Seq<char>, FingerprintView>,
    own: Map<Seq<char>, FingerprintView>,
    i: int,
)
    requires
        0 <= i < audit_pairs(local_id, peers, store, own).len(),
    ensures
        audit_pairs(local_id, peers, store, own)[i].0 != local_id,
        reference_for(store, own, audit_pairs(local_id, peers, store, own)[i].1) == Some(
            audit_pairs(local_id, peers, store, own)[i].2,
        ),
    decreases peers.len(),
{
    let before = audit_pairs(local_id, peers.drop_last(), store, own);
    if i < before.len() {
        law_audits_are_founded(local_id, peers.drop_last(), store, own, i);
    } else {
        lemma_model_candidates(
            peers.last().id@,
            auditable(peers.last(), local_id),
            store,
            own,
            i - before.len(),
        );
    }
}

proof fn lemma_model_candidates(
    peer_id: Seq<char>,
    models: Seq<Seq<char>>,
    store: Map<Seq<char>, FingerprintView>,
    own: Map<Seq<char>, FingerprintView>,
    i: int,
)
    requires
        0 <= i < model_candidates(peer_id, models, store, own).len(),
    ensures
        models.len() > 0,
        model_candidates(peer_id, models, store, own)[i].0 == peer_id,
        reference_for(store, own, model_candidates(peer_id, models, store, own)[i].1) == Some(
            model_candidates(peer_id, models, store, own)[i].2,
        ),
    decreases models.len(),
{
    let before = model_candidates(peer_id, models.drop_last(), store, own);
    if i < before.len() {
        lemma_model_candidates(peer_id, models.drop_last(), store, own, i);
    }
}

/// The head of a probe request with a body of the given length.
pub open spec fn request_head(length: nat) -> Seq<char> {
    "POST /v1/chat/completions HTTP/1.1\r\nHost: localhost\r\nContent-Type: application/json\r\nContent-Length: "@
        + decimal(length) + "\r\n\r\n"@
}

/// A probe request: its head, then the body.
pub fn probe_http_request(body: &[u8]) -> (r: Vec<u8>)
    ensures
        r@ == vstd::utf8::encode_utf8(request_head(body@.len())) + body@,
{
    let length = decimal_text(body.len() as u128);
    let head =
        "POST /v1/chat/completions HTTP/1.1\r\nHost: localhost\r\nContent-Type: application/json\r\nContent-Length: ".to_owned().concat(
        length.as_str(),
    ).concat("\r\n\r\n");
    let mut r: Vec<u8> = Vec::new();
    crate::bytes::write_bytes(&mut r, head.as_str().as_bytes());
    crate::bytes::write_bytes(&mut r, body);
    assert(r@ =~= vstd::utf8::encode_utf8(request_head(body@.len())) + body@);
    r
}

/// The status code in the head of a response: the second word of its first line,
/// zero if that is no such number.
pub open spec fn status_code(head: Seq<char>) -> u16 {
    let line = words(split_on(head, '\n')[0]);
    if line.len() >= 2 {
        match parsed_number(line[1], u16::MAX as nat) {
            Some(n) => n as u16,
            None => 0,
        }
    } else {
        0
    }
}

/// The place of the first blank line of a response.
pub open spec fn is_head_end(text: Seq<char>, i: int) -> bool {
    occurs_at(text, "\r\n\r\n"@, i) && forall|j: int|
        0 <= j < i ==> !occurs_at(text, "\r\n\r\n"@, j)
}

/// Reads the status code from the head of a response.
fn read_status(head: &[char]) -> (r: u16)
    ensures
        r == status_code(head@),
{
    let lines = split(head, '\n');
    let line = words_of(lines[0].as_slice());
    assert(parts(lines@)[0] == lines@[0]@);
    if line.len() >= 2 {
        assert(parts(line@)[1] == line@[1]@);
        match parse_number(line[1].as_slice(), 65_535) {
            Some(n) => n as u16,
            None => 0,
        }
    } else {
        0
    }
}

/// Splits a response into its status code and its body.
pub fn split_http_response(text: &str) -> (r: Result<(u16, String), &'static str>)
    ensures
        match r {
            Ok((status, body)) => exists|i: int| #[trigger]
                is_head_end(text@, i) && status == status_code(text@.take(i)) && body@
                    == text@.skip(i + 4),
            Err(e) => !has_text(text@, "\r\n\r\n"@) && e@
                == "malformed HTTP response: no header terminator"@,
        },
{
    let chars = chars_of(text);
    let blank = chars_of("\r\n\r\n");
    proof {
        reveal_strlit("\r\n\r\n");
    }
    match find_chars(chars.as_slice(), blank.as_slice()) {
        Some(i) => {
            assert(is_head_end(text@, i as int));
            assert(blank@.len() == 4);
            assert(i + 4 <= chars@.len());
            assert(chars@.len() == chars.len());
            let head = copy_range(chars.as_slice(), 0, i);
            assert(head@ =~= text@.take(i as int));
            let body = copy_range(chars.as_slice(), i + 4, chars.len());
            assert(body@ =~= text@.skip(i + 4));
            Ok((read_status(head.as_slice()), string_of(body.as_slice())))
        },
        None => Err("malformed HTTP response: no header terminator"),
    }
}

/// The fingerprint of a probe's answer, or why there is none.
pub open spec fn is_answer(
    r: Result<LogitFingerprint, String>,
    status: u16,
    body: Seq<char>,
) -> bool {
    if status != 200 {
        r matches Err(e) && e@ == "peer returned HTTP "@ + decimal(status as nat)
    } else {
        match json_document(body) {
            None => r matches Err(e) && e@ == "failed to parse peer probe response: "@
                + json_error_text(body),
            Some(document) => match completion_fingerprint(document) {
                Some(fp) => r matches Ok(found) && found@ == fp,
                None => r matches Err(e) && e@ == "peer probe response had no usable output"@,
            },
        }
    }
}

/// Judges the answer to a probe.
pub fn judge_answer(status: u16, body: &str) -> (r: Result<LogitFingerprint, String>)
    ensures
        is_answer(r, status, body@),
{
    if status != 200 {
        return Err(
            "peer returned HTTP ".to_owned().concat(decimal_text(status as u128).as_str()),
        );
    }
    match parse_json(body) {
        Ok(document) => match fingerprint_from_completion_json(&document) {
            Some(fp) => Ok(fp),
            None => Err("peer probe response had no usable output".to_owned()),
        },
        Err(error) => Err(
            "failed to parse peer probe response: ".to_owned().concat(error.as_str()),
        ),
    }
}

/// Reads the fingerprint from the raw bytes of a probe's response.
pub fn fingerprint_from_response(response: &[u8]) -> (r: Result<LogitFingerprint, String>)
    ensures
        if has_text(lossy_text(response@), "\r\n\r\n"@) {
            exists|i: int| #[trigger]
                is_head_end(lossy_text(response@), i) && is_answer(
                    r,
                    status_code(lossy_text(response@).take(i)),
                    lossy_text(response@).skip(i + 4),
                )
        } else {
            r matches Err(e) && e@ == "malformed HTTP response: no header terminator"@
        },
{
    let text = utf8_lossy(response);
    match split_http_response(text.as_str()) {
        Ok((status, body)) => {
            let r = judge_answer(status, body.as_str());
            proof {
                let i = choose|i: int| #[trigger]
                    is_head_end(text@, i) && status == status_code(text@.take(i)) && body@
                        == text@.skip(i + 4);
                assert(is_head_end(lossy_text(response@), i));
            }
            r
        },
        Err(error) => Err(error.to_owned()),
    }
}

proof fn lemma_agreeing_places(a: Seq<Seq<char>>, b: Seq<Seq<char>>, n: nat)
    ensures
        Set::new(|i: int| 0 <= i < n && a[i] == b[i]).finite(),
        Set::new(|i: int| 0 <= i < n && a[i] == b[i]).len() == agreeing(a, b, n),
    decreases n,
{
    let here = Set::new(|i: int| 0 <= i < n && a[i] == b[i]);
    if n == 0 {
        assert(here =~= Set::empty());
    } else {
        let m = (n - 1) as nat;
        lemma_agreeing_places(a, b, m);
        let before = Set::new(|i: int| 0 <= i < m && a[i] == b[i]);
        if a[n - 1] == b[n - 1] {
            assert(here =~= before.insert(n - 1));
        } else {
            assert(here =~= before);
        }
    }
}

/// Two prefixes with enough tokens are always judged, whatever their lengths: by the
/// places up to the end of the shorter one at which they agree. They mismatch exactly
/// if those are fewer than the tolerated fraction of all such places.
pub proof fn law_agreeing_places_decide(
    verdict: FingerprintVerdict,
    a: FingerprintView,
    b: FingerprintView,
    thresholds: VerifyThresholds,
)
    requires
        is_verdict(verdict, a, b, thresholds),
        a.prefix_tokens.len() > 0,
        b.prefix_tokens.len() > 0,
        a.prefix_tokens.len() >= thresholds.min_compared_tokens,
        b.prefix_tokens.len() >= thresholds.min_compared_tokens,
        a.prefix_tokens.len() <= u32::MAX,
        b.prefix_tokens.len() <= u32::MAX,
    ensures
        ({
            let n = if a.prefix_tokens.len() <= b.prefix_tokens.len() {
                a.prefix_tokens.len()
            } else {
                b.prefix_tokens.len()
            };
            let same = Set::new(
                |i: int| 0 <= i < n && a.prefix_tokens[i] == b.prefix_tokens[i],
            ).len();
            if same * thresholds.min_prefix_agreement.den < thresholds.min_prefix_agreement.num
                * n {
                verdict matches FingerprintVerdict::Mismatch {
                    prefix_agreement,
                    compared_tokens,
                    ..
                } && prefix_agreement.num == same && prefix_agreement.den == n
                    && compared_tokens == n
            } else {
                verdict matches FingerprintVerdict::Match { prefix_agreement, compared_tokens }
                    && prefix_agreement.num == same && prefix_agreement.den == n
                    && compared_tokens == n
            }
        }),
{
    let n = if a.prefix_tokens.len() <= b.prefix_tokens.len() {
        a.prefix_tokens.len()
    } else {
        b.prefix_tokens.len()
    };
    lemma_agreeing_places(a.prefix_tokens, b.prefix_tokens, n);
    lemma_agreeing_bounds(a.prefix_tokens, b.prefix_tokens, n);
}

/// Prefixes that are too short are not judged. Without tokens on one side, equal and
/// non-empty output hashes match, and nothing else is said.
pub proof fn law_too_little_is_not_judged(
    verdict: FingerprintVerdict,
    a: FingerprintView,
    b: FingerprintView,
    thresholds: VerifyThresholds,
)
    requires
        is_verdict(verdict, a, b, thresholds),
    ensures
        a.prefix_tokens.len() > 0 && b.prefix_tokens.len() > 0 && (a.prefix_tokens.len()
            < thresholds.min_compared_tokens || b.prefix_tokens.len()
            < thresholds.min_compared_tokens) ==> verdict is Inconclusive,
        a.prefix_tokens.len() == 0 || b.prefix_tokens.len() == 0 ==> {
            if a.output_sha256 == b.output_sha256 && a.output_sha256.len() > 0 {
                verdict matches FingerprintVerdict::Match { prefix_agreement, compared_tokens }
                    && prefix_agreement.num == prefix_agreement.den && compared_tokens == 0
            } else {
                verdict is Inconclusive
            }
        },
{
}

/// The baselines of a node give a reference for a model exactly if one of them has a
/// fingerprint of it, and the last one counts.
pub proof fn law_last_own_fingerprint_counts(
    entries: Seq<NativeBaselineEntry>,
    model: Seq<char>,
    i: int,
)
    requires
        -1 <= i < entries.len(),
        i >= 0 ==> entries[i].model@ == model && entries[i].logit_fingerprint is Some,
        forall|j: int|
            i < j < entries.len() && (#[trigger] entries[j]).model@ == model
                ==> entries[j].logit_fingerprint is None,
    ensures
        own_references(entries).contains_key(model) <==> i >= 0,
        i >= 0 ==> own_references(entries)[model] == entries[i].logit_fingerprint->0@,
    decreases entries.len(),
{
    if entries.len() > 0 && i < entries.len() - 1 {
        let head = entries.drop_last();
        let last = entries[entries.len() - 1];
        assert forall|j: int| i < j < head.len() && (#[trigger] head[j]).model@ == model implies
            head[j].logit_fingerprint is None by {
            assert(head[j] == entries[j]);
        }
        law_last_own_fingerprint_counts(head, model, i);
    }
}

proof fn lemma_candidate_at(
    peer_id: Seq<char>,
    models: Seq<Seq<char>>,
    store: Map<Seq<char>, FingerprintView>,
    own: Map<Seq<char>, FingerprintView>,
    k: int,
) -> (j: int)
    requires
        0 <= k < models.len(),
        store.contains_key(models[k]) || own.contains_key(models[k]),
    ensures
        0 <= j < model_candidates(peer_id, models, store, own).len(),
        model_candidates(peer_id, models, store, own)[j] == (
            peer_id,
            models[k],
            if store.contains_key(models[k]) {
                store[models[k]]
            } else {
                own[models[k]]
            },
        ),
    decreases models.len(),
{
    let before = model_candidates(peer_id, models.drop_last(), store, own);
    if k == models.len() - 1 {
        before.len() as int
    } else {
        lemma_candidate_at(peer_id, models.drop_last(), store, own, k)
    }
}

/// Every model with a reference that a host other than this node answers for can be
/// audited, wherever the host and the model are listed. A stored reference goes before
/// one of the node's own.
pub proof fn law_every_reference_is_audited(
    local_id: Seq<char>,
    peers: Seq<PeerInfo>,
    store: Map<Seq<char>, FingerprintView>,
    own: Map<Seq<char>, FingerprintView>,
    i: int,
    k: int,
) -> (j: int)
    requires
        0 <= i < peers.len(),
        peers[i].id@ != local_id,
        peers[i].role is Host,
        0 <= k < peers[i].routable().len(),
        store.contains_key(peers[i].routable()[k]) || own.contains_key(peers[i].routable()[k]),
    ensures
        0 <= j < audit_pairs(local_id, peers, store, own).len(),
        audit_pairs(local_id, peers, store, own)[j] == (
            peers[i].id@,
            peers[i].routable()[k],
            if store.contains_key(peers[i].routable()[k]) {
                store[peers[i].routable()[k]]
            } else {
                own[peers[i].routable()[k]]
            },
        ),
    decreases peers.len(),
{
    let before = audit_pairs(local_id, peers.drop_last(), store, own);
    if i == peers.len() - 1 {
        before.len() + lemma_candidate_at(peers[i].id@, peers[i].routable(), store, own, k)
    } else {
        assert(peers.drop_last()[i] == peers[i]);
        law_every_reference_is_audited(local_id, peers.drop_last(), store, own, i, k)
    }
}

/// What can be audited is a model that some host other than this node answers for.
pub proof fn law_audited_models_are_hosted(
    local_id: Seq<char>,
    peers: Seq<PeerInfo>,
    store: Map<Seq<char>, FingerprintView>,
    own: Map<Seq<char>, FingerprintView>,
    j: int,
) -> (i: int)
    requires
        0 <= j < audit_pairs(local_id, peers, store, own).len(),
    ensures
        0 <= i < peers.len(),
        peers[i].id@ == audit_pairs(local_id, peers, store, own)[j].0,
        peers[i].id@ != local_id,
        peers[i].role is Host,
        peers[i].routable().contains(audit_pairs(local_id, peers, store, own)[j].1),
    decreases peers.len(),
{
    let before = audit_pairs(local_id, peers.drop_last(), store, own);
    if j < before.len() {
        let i = law_audited_models_are_hosted(local_id, peers.drop_last(), store, own, j);
        assert(peers.drop_last()[i] == peers[i]);
        i
    } else {
        let models = auditable(peers.last(), local_id);
        lemma_model_candidates(peers.last().id@, models, store, own, j - before.len());
        lemma_candidate_is_listed(peers.last().id@, models, store, own, j - before.len());
        peers.len() - 1
    }
}

proof fn lemma_candidate_is_listed(
    peer_id: Seq<char>,
    models: Seq<Seq<char>>,
    store: Map<Seq<char>, FingerprintView>,
    own: Map<Seq<char>, FingerprintView>,
    i: int,
)
    requires
        0 <= i < model_candidates(peer_id, models, store, own).len(),
    ensures
        models.contains(model_candidates(peer_id, models, store, own)[i].1),
    decreases models.len(),
{
    let before = model_candidates(peer_id, models.drop_last(), store, own);
    if models.len() > 0 {
        if i < before.len() {
            lemma_candidate_is_listed(peer_id, models.drop_last(), store, own, i);
            let m = before[i].1;
            let k = choose|k: int| 0 <= k < models.drop_last().len() && models.drop_last()[k] == m;
            assert(models[k] == m);
        } else {
            assert(models[models.len() - 1] == models.last());
        }
    }
}

/// The status code stands behind the first white space of the first line.
pub proof fn law_status_code(version: Seq<char>, code: nat, rest: Seq<char>)
    requires
        version.len() > 0,
        forall|i: int| 0 <= i < version.len() ==> !crate::text::is_space(#[trigger] version[i]),
        code <= u16::MAX,
    ensures
        status_code(version.push(' ') + decimal(code)) == code,
        status_code((version.push(' ') + decimal(code)).push('\n') + rest) == code,
{
    let line = version.push(' ') + decimal(code);
    crate::text::law_decimal_reads_back(code, u16::MAX as nat);
    crate::text::lemma_decimal_has_no_space(code);
    crate::text::law_words(version, ' ', decimal(code));
    crate::text::law_words(Seq::empty(), ' ', version);
    assert(words(line) == seq![version, decimal(code)]);
    assert(!line.contains('\n')) by {
        if line.contains('\n') {
            let i = choose|i: int| 0 <= i < line.len() && line[i] == '\n';
            if i < version.len() {
                assert(!crate::text::is_space(version[i]));
            } else if i > version.len() {
                assert(!crate::text::is_space(decimal(code)[i - version.len() - 1]));
            }
        }
    }
    crate::text::law_first_piece(line, '\n', rest);
}

/// An answer other than a success gives no fingerprint, nor does one that is no
/// document.
pub proof fn law_only_documents_give_fingerprints(
    r: Result<LogitFingerprint, String>,
    status: u16,
    body: Seq<char>,
)
    requires
        is_answer(r, status, body),
    ensures
        r is Ok ==> status == 200 && json_document(body) is Some,
        status == 200 ==> (json_document(body) matches Some(document) && completion_fingerprint(
            document,
        ) is Some ==> r is Ok && Some(r->Ok_0@) == completion_fingerprint(
            json_document(body)->0,
        )),
{
}

/// A probe request posts its body to the completions and announces its exact length
/// right before it.
pub proof fn law_request_announces_its_length(length: nat)
    ensures
        crate::text::has_prefix(request_head(length), "POST /v1/chat/completions HTTP/1.1\r\n"@),
        crate::text::has_suffix(
            request_head(length),
            "Content-Length: "@ + decimal(length) + "\r\n\r\n"@,
        ),
{
    let t = request_head(length);
    let front =
        "POST /v1/chat/completions HTTP/1.1\r\nHost: localhost\r\nContent-Type: application/json\r\nContent-Length: "@;
    reveal_strlit(
        "POST /v1/chat/completions HTTP/1.1\r\nHost: localhost\r\nContent-Type: application/json\r\nContent-Length: ",
    );
    reveal_strlit("POST /v1/chat/completions HTTP/1.1\r\n");
    reveal_strlit("Content-Length: ");
    let first = "POST /v1/chat/completions HTTP/1.1\r\n"@;
    assert(front.take(first.len() as int) =~= first);
    assert(t.take(first.len() as int) =~= first);
    let name = "Content-Length: "@;
    assert(front.skip(front.len() - name.len()) =~= name);
    let end = name + decimal(length) + "\r\n\r\n"@;
    assert(t.skip(t.len() - end.len()) =~= end);
}

} // verus!
