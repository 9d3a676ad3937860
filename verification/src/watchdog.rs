//! Why a model has been loading for too long.

use vstd::prelude::*;

use crate::double::{headroom, with_headroom};
use crate::gigabytes::{tenths, tenths_text, units_of_bytes, Gigabytes};
use crate::peers::{NodeRole, PeerInfo};
use crate::text::{any_text, copy_texts, same_text, texts};

verus! {

/// How long an unchanged diagnosis is not repeated: fifteen minutes.
pub const REEMIT_AFTER_NANOS: u128 = 900_000_000_000;

/// Seconds between two looks.
pub const POLL_SECS: u64 = 30;

/// Why a model is still not answered for.
#[derive(Debug, PartialEq, Eq)]
pub enum StuckReason {
    /// The model fits neither here nor together with the visible partners.
    ModelTooLargeForSoloAndNoPartner {
        model_bytes: u64,
        local_fast_bytes: u64,
        total_peer_fast_bytes: u64,
    },
    /// The model would fit together with others.
    WaitingForSplitPartner { model_bytes: Option<u64>, total_peer_fast_bytes: u64 },
    /// Nobody has claimed to host the model.
    NoHostElected,
    /// The model server does not start.
    LlamaServerStartFailed { detail: String },
}

/// The mathematical content of a [`StuckReason`].
pub enum ReasonView {
    TooLarge { model_bytes: u64, local_fast_bytes: u64, total_peer_fast_bytes: u64 },
    Waiting { model_bytes: Option<u64>, total_peer_fast_bytes: u64 },
    NoHost,
    StartFailed { detail: Seq<char> },
}

impl View for StuckReason {
    type V = ReasonView;

    open spec fn view(&self) -> ReasonView {
        match self {
            StuckReason::ModelTooLargeForSoloAndNoPartner {
                model_bytes,
                local_fast_bytes,
                total_peer_fast_bytes,
            } => ReasonView::TooLarge {
                model_bytes: *model_bytes,
                local_fast_bytes: *local_fast_bytes,
                total_peer_fast_bytes: *total_peer_fast_bytes,
            },
            StuckReason::WaitingForSplitPartner { model_bytes, total_peer_fast_bytes } =>
                ReasonView::Waiting {
                model_bytes: *model_bytes,
                total_peer_fast_bytes: *total_peer_fast_bytes,
            },
            StuckReason::NoHostElected => ReasonView::NoHost,
            StuckReason::LlamaServerStartFailed { detail } => ReasonView::StartFailed {
                detail: detail@,
            },
        }
    }
}

/// A number of bytes in gigabytes, with one decimal place.
pub open spec fn gb_text(bytes: u64) -> Seq<char> {
    tenths_text(tenths(units_of_bytes(bytes))) + " GB"@
}

/// A number of bytes in gigabytes, with one decimal place.
pub fn gigabytes_text(bytes: u64) -> (r: String)
    ensures
        r@ == gb_text(bytes),
{
    Gigabytes::from_bytes(bytes).text().concat(" GB")
}

/// The message for a reason.
pub open spec fn reason_text(reason: ReasonView, model: Seq<char>) -> Seq<char> {
    "`"@ + model + "` has been loading too long: "@ + match reason {
        ReasonView::TooLarge { model_bytes, local_fast_bytes, total_peer_fast_bytes } =>
            "model is "@ + gb_text(model_bytes) + ", local fast memory is "@ + gb_text(
            local_fast_bytes,
        ) + ", and visible split partners contribute "@ + gb_text(total_peer_fast_bytes)
            + ". No eligible split cohort is ready."@,
        ReasonView::Waiting { model_bytes, total_peer_fast_bytes } =>
            "waiting for a split partner/cohort. Model size: "@ + match model_bytes {
            Some(bytes) => gb_text(bytes),
            None => "unknown"@,
        } + "; visible peer fast memory: "@ + gb_text(total_peer_fast_bytes) + "."@,
        ReasonView::NoHost =>
            "no peer has claimed host. Check peer connectivity and host election logs."@,
        ReasonView::StartFailed { detail } =>
            "llama-server startup appears to be failing repeatedly. "@ + detail,
    }
}

impl StuckReason {
    /// The message for the user.
    pub fn message(&self, model: &str) -> (r: String)
        ensures
            r@ == reason_text(self@, model@),
    {
        let head = "`".to_owned().concat(model).concat("` has been loading too long: ");
        let tail = match self {
            StuckReason::ModelTooLargeForSoloAndNoPartner {
                model_bytes,
                local_fast_bytes,
                total_peer_fast_bytes,
            } => "model is ".to_owned().concat(gigabytes_text(*model_bytes).as_str()).concat(
                ", local fast memory is ",
            ).concat(gigabytes_text(*local_fast_bytes).as_str()).concat(
                ", and visible split partners contribute ",
            ).concat(gigabytes_text(*total_peer_fast_bytes).as_str()).concat(
                ". No eligible split cohort is ready.",
            ),
            StuckReason::WaitingForSplitPartner { model_bytes, total_peer_fast_bytes } => {
                let size = match model_bytes {
                    Some(bytes) => gigabytes_text(*bytes),
                    None => "unknown".to_owned(),
                };
                "waiting for a split partner/cohort. Model size: ".to_owned().concat(
                    size.as_str(),
                ).concat("; visible peer fast memory: ").concat(
                    gigabytes_text(*total_peer_fast_bytes).as_str(),
                ).concat(".")
            },
            StuckReason::NoHostElected =>
                "no peer has claimed host. Check peer connectivity and host election logs.".to_owned(),
            StuckReason::LlamaServerStartFailed { detail } =>
                "llama-server startup appears to be failing repeatedly. ".to_owned().concat(
                detail.as_str(),
            ),
        };
        head.concat(tail.as_str())
    }

    /// Whether two reasons are the same.
    pub fn same_as(&self, other: &StuckReason) -> (r: bool)
        ensures
            r == (self@ == other@),
    {
        match (self, other) {
            (
                StuckReason::ModelTooLargeForSoloAndNoPartner {
                    model_bytes: a,
                    local_fast_bytes: b,
                    total_peer_fast_bytes: c,
                },
                StuckReason::ModelTooLargeForSoloAndNoPartner {
                    model_bytes: x,
                    local_fast_bytes: y,
                    total_peer_fast_bytes: z,
                },
            ) => *a == *x && *b == *y && *c == *z,
            (
                StuckReason::WaitingForSplitPartner { model_bytes: a, total_peer_fast_bytes: b },
                StuckReason::WaitingForSplitPartner { model_bytes: x, total_peer_fast_bytes: y },
            ) => {
                let same_size = match (a, x) {
                    (Some(a), Some(x)) => *a == *x,
                    (None, None) => true,
                    _ => false,
                };
                same_size && *b == *y
            },
            (StuckReason::NoHostElected, StuckReason::NoHostElected) => true,
            (
                StuckReason::LlamaServerStartFailed { detail: a },
                StuckReason::LlamaServerStartFailed { detail: x },
            ) => same_text(a.as_str(), x.as_str()),
            _ => false,
        }
    }
}

/// What a diagnosis needs to know of a peer.
#[derive(Debug)]
pub struct LoadingPeerSnapshot {
    pub role: NodeRole,
    pub fast_memory_bytes: u64,
    pub serving_models: Vec<String>,
    pub hosted_models: Vec<String>,
}

/// What a diagnosis needs to know of a peer.
pub fn loading_snapshot(peer: &PeerInfo) -> (r: LoadingPeerSnapshot)
    ensures
        r.role == peer.role,
        r.fast_memory_bytes == peer.fast_memory(),
        texts(r.serving_models@) == texts(peer.serving_models@),
        texts(r.hosted_models@) == texts(peer.hosted_models@),
{
    LoadingPeerSnapshot {
        role: peer.role,
        fast_memory_bytes: peer.fast_memory_bytes(),
        serving_models: copy_texts(peer.serving_models.as_slice()),
        hosted_models: copy_texts(peer.hosted_models.as_slice()),
    }
}

/// The peer hosts the model.
pub open spec fn hosts(p: LoadingPeerSnapshot, model: Seq<char>) -> bool {
    p.role is Host && texts(p.hosted_models@).contains(model)
}

/// The peer serves the model.
pub open spec fn serves(p: LoadingPeerSnapshot, model: Seq<char>) -> bool {
    texts(p.serving_models@).contains(model)
}

/// Some peer hosts the model.
pub open spec fn some_host(peers: Seq<LoadingPeerSnapshot>, model: Seq<char>) -> bool {
    exists|i: int| 0 <= i < peers.len() && hosts(#[trigger] peers[i], model)
}

/// The fast memory of all peers together.
pub open spec fn total_memory(peers: Seq<LoadingPeerSnapshot>) -> nat
    decreases peers.len(),
{
    if peers.len() == 0 {
        0
    } else {
        total_memory(peers.drop_last()) + peers.last().fast_memory_bytes as nat
    }
}

/// The fast memory of the peers that serve the model.
pub open spec fn serving_memory(peers: Seq<LoadingPeerSnapshot>, model: Seq<char>) -> nat
    decreases peers.len(),
{
    if peers.len() == 0 {
        0
    } else {
        serving_memory(peers.drop_last(), model) + (if serves(peers.last(), model) {
            peers.last().fast_memory_bytes as nat
        } else {
            0
        })
    }
}

/// The memory that a diagnosis adds up fits: that of all peers if one of them hosts
/// the model, and that of the peers that serve it otherwise.
pub open spec fn memory_fits(peers: Seq<LoadingPeerSnapshot>, model: Seq<char>) -> bool {
    &&& some_host(peers, model) ==> total_memory(peers) <= u64::MAX
    &&& !some_host(peers, model) ==> serving_memory(peers, model) <= u64::MAX
}

proof fn lemma_serving_grows(peers: Seq<LoadingPeerSnapshot>, model: Seq<char>, i: int)
    requires
        0 <= i <= peers.len(),
    ensures
        serving_memory(peers.take(i), model) <= serving_memory(peers, model),
    decreases peers.len() - i,
{
    if i < peers.len() {
        lemma_serving_grows(peers, model, i + 1);
        assert(peers.take(i + 1).drop_last() =~= peers.take(i));
    } else {
        assert(peers.take(i) =~= peers);
    }
}

proof fn lemma_total_grows(peers: Seq<LoadingPeerSnapshot>, i: int)
    requires
        0 <= i <= peers.len(),
    ensures
        total_memory(peers.take(i)) <= total_memory(peers),
    decreases peers.len() - i,
{
    if i < peers.len() {
        lemma_total_grows(peers, i + 1);
        assert(peers.take(i + 1).drop_last() =~= peers.take(i));
    } else {
        assert(peers.take(i) =~= peers);
    }
}

/// The diagnosis. A server that does not start comes first; then a host without
/// enough partners; then a model that is too large here.
pub open spec fn diagnosis(
    model: Seq<char>,
    model_bytes: Option<u64>,
    local: u64,
    peers: Seq<LoadingPeerSnapshot>,
    failure: Option<Seq<char>>,
) -> ReasonView {
    let partners = serving_memory(peers, model);
    match failure {
        Some(detail) => ReasonView::StartFailed { detail },
        None => if some_host(peers, model) {
            ReasonView::Waiting { model_bytes, total_peer_fast_bytes: total_memory(peers) as u64 }
        } else {
            match model_bytes {
                Some(bytes) => if headroom(bytes) > local && local + partners < headroom(bytes) {
                    ReasonView::TooLarge {
                        model_bytes: bytes,
                        local_fast_bytes: local,
                        total_peer_fast_bytes: partners as u64,
                    }
                } else if headroom(bytes) > local {
                    ReasonView::Waiting { model_bytes, total_peer_fast_bytes: partners as u64 }
                } else {
                    ReasonView::NoHost
                },
                None => ReasonView::NoHost,
            }
        },
    }
}

/// Whether some peer hosts the model.
fn any_host(peers: &[LoadingPeerSnapshot], model: &str) -> (r: bool)
    ensures
        r == some_host(peers@, model@),
{
    let mut i: usize = 0;
    while i < peers.len()
        invariant
            i <= peers.len(),
            forall|j: int| 0 <= j < i ==> !hosts(#[trigger] peers@[j], model@),
        decreases peers.len() - i,
    {
        let is_host = match peers[i].role {
            NodeRole::Host { .. } => any_text(peers[i].hosted_models.as_slice(), model),
            _ => false,
        };
        if is_host {
            assert(hosts(peers@[i as int], model@));
            return true;
        }
        i = i + 1;
    }
    false
}

/// The fast memory of all peers together, if it fits.
fn add_total(peers: &[LoadingPeerSnapshot]) -> (r: Option<u64>)
    ensures
        match r {
            Some(n) => n == total_memory(peers@),
            None => total_memory(peers@) > u64::MAX,
        },
{
    let mut total: u64 = 0;
    let mut i: usize = 0;
    while i < peers.len()
        invariant
            i <= peers.len(),
            total == total_memory(peers@.take(i as int)),
        decreases peers.len() - i,
    {
        proof {
            assert(peers@.take(i + 1).drop_last() =~= peers@.take(i as int));
            lemma_total_grows(peers@, i + 1);
        }
        total = match total.checked_add(peers[i].fast_memory_bytes) {
            Some(sum) => sum,
            None => return None,
        };
        i = i + 1;
    }
    assert(peers@.take(i as int) =~= peers@);
    Some(total)
}

/// The fast memory of the peers that serve the model, if it fits.
fn add_serving(peers: &[LoadingPeerSnapshot], model: &str) -> (r: Option<u64>)
    ensures
        match r {
            Some(n) => n == serving_memory(peers@, model@),
            None => serving_memory(peers@, model@) > u64::MAX,
        },
{
    let mut total: u64 = 0;
    let mut i: usize = 0;
    while i < peers.len()
        invariant
            i <= peers.len(),
            total == serving_memory(peers@.take(i as int), model@),
        decreases peers.len() - i,
    {
        proof {
            assert(peers@.take(i + 1).drop_last() =~= peers@.take(i as int));
            lemma_serving_grows(peers@, model@, i + 1);
        }
        if any_text(peers[i].serving_models.as_slice(), model) {
            total = match total.checked_add(peers[i].fast_memory_bytes) {
                Some(sum) => sum,
                None => return None,
            };
        }
        i = i + 1;
    }
    assert(peers@.take(i as int) =~= peers@);
    Some(total)
}

/// Whether the memory that a diagnosis adds up fits.
pub fn diagnosis_memory_fits(model: &str, peers: &[LoadingPeerSnapshot]) -> (r: bool)
    ensures
        r == memory_fits(peers@, model@),
{
    if any_host(peers, model) {
        add_total(peers).is_some()
    } else {
        add_serving(peers, model).is_some()
    }
}

/// Diagnoses why a model is still loading.
pub fn diagnose_stuck_loading(
    model: &str,
    model_bytes: Option<u64>,
    local_fast_bytes: u64,
    peers: &[LoadingPeerSnapshot],
    llama_start_failure: Option<String>,
) -> (r: StuckReason)
    requires
        llama_start_failure is None ==> memory_fits(peers@, model@),
    ensures
        r@ == diagnosis(
            model@,
            model_bytes,
            local_fast_bytes,
            peers@,
            crate::text::opt_text(llama_start_failure),
        ),
{
    if let Some(detail) = llama_start_failure {
        return StuckReason::LlamaServerStartFailed { detail };
    }
    if any_host(peers, model) {
        let total = add_total(peers).unwrap();
        return StuckReason::WaitingForSplitPartner { model_bytes, total_peer_fast_bytes: total };
    }
    let partners = add_serving(peers, model).unwrap();
    if let Some(bytes) = model_bytes {
        let needed = with_headroom(bytes);
        if needed > local_fast_bytes && local_fast_bytes.saturating_add(partners) < needed {
            return StuckReason::ModelTooLargeForSoloAndNoPartner {
                model_bytes: bytes,
                local_fast_bytes,
                total_peer_fast_bytes: partners,
            };
        }
        if needed > local_fast_bytes {
            return StuckReason::WaitingForSplitPartner {
                model_bytes,
                total_peer_fast_bytes: partners,
            };
        }
    }
    StuckReason::NoHostElected
}

/// A diagnosis is emitted if it is new or if the last one was long ago.
pub open spec fn emission_due(
    last: Option<(ReasonView, u128)>,
    reason: ReasonView,
    now_nanos: u128,
) -> bool {
    match last {
        Some((previous, when)) => previous != reason || now_nanos - when >= REEMIT_AFTER_NANOS,
        None => true,
    }
}

/// The diagnosis that was emitted last, and when.
#[derive(Debug)]
pub struct Emission {
    pub reason: StuckReason,
    pub at_nanos: u128,
}

/// What the watchdog does after a look.
pub enum WatchdogAction {
    /// The model is answered for: stop.
    Done,
    /// Tell the user.
    Emit { message: String },
    /// Say nothing this time.
    Quiet,
}

/// One look of the watchdog: it stops once the model is answered for, and
/// otherwise emits the diagnosis if that is due, and remembers it.
pub fn watchdog_step(
    last: &mut Option<Emission>,
    model: &str,
    routable_models: &[String],
    model_bytes: Option<u64>,
    local_fast_bytes: u64,
    peers: &[LoadingPeerSnapshot],
    now_nanos: u128,
) -> (action: WatchdogAction)
    requires
        texts(routable_models@).contains(model@) || memory_fits(peers@, model@),
    ensures
        ({
            let reason = diagnosis(model@, model_bytes, local_fast_bytes, peers@, None);
            let previous = match *old(last) {
                Some(e) => Some((e.reason@, e.at_nanos)),
                None => None,
            };
            if texts(routable_models@).contains(model@) {
                action is Done && *final(last) == *old(last)
            } else if emission_due(previous, reason, now_nanos) {
                &&& action matches WatchdogAction::Emit { message }
                &&& message@ == reason_text(reason, model@)
                &&& *final(last) matches Some(e)
                &&& e.reason@ == reason
                &&& e.at_nanos == now_nanos
            } else {
                action is Quiet && *final(last) == *old(last)
            }
        }),
{
    if any_text(routable_models, model) {
        return WatchdogAction::Done;
    }
    let reason = diagnose_stuck_loading(model, model_bytes, local_fast_bytes, peers, None);
    let due = match &*last {
        Some(e) => !e.reason.same_as(&reason) || now_nanos.saturating_sub(e.at_nanos)
            >= REEMIT_AFTER_NANOS,
        None => true,
    };
    if due {
        let message = reason.message(model);
        *last = Some(Emission { reason, at_nanos: now_nanos });
        WatchdogAction::Emit { message }
    } else {
        WatchdogAction::Quiet
    }
}

/// A server that does not start is diagnosed before anything else.
pub proof fn law_start_failure_comes_first(
    model: Seq<char>,
    model_bytes: Option<u64>,
    local: u64,
    peers: Seq<LoadingPeerSnapshot>,
    detail: Seq<char>,
)
    ensures
        diagnosis(model, model_bytes, local, peers, Some(detail)) == (ReasonView::StartFailed {
            detail,
        }),
{
}

/// A model is called too large exactly if its size with headroom exceeds what
/// this node and its partners have together, and nobody hosts it.
pub proof fn law_too_large_iff(
    model: Seq<char>,
    model_bytes: Option<u64>,
    local: u64,
    peers: Seq<LoadingPeerSnapshot>,
)
    ensures
        diagnosis(model, model_bytes, local, peers, None) is TooLarge <==> {
            &&& !some_host(peers, model)
            &&& model_bytes matches Some(bytes)
            &&& local + serving_memory(peers, model) < headroom(bytes)
        },
{
}

/// While nobody hosts a model, a peer that has nothing to do with it never counts:
/// whatever memory it announces, the diagnosis stays the same.
pub proof fn law_bystanders_do_not_count(
    model: Seq<char>,
    model_bytes: Option<u64>,
    local: u64,
    peers: Seq<LoadingPeerSnapshot>,
    q: LoadingPeerSnapshot,
)
    requires
        !some_host(peers, model),
        !hosts(q, model),
        !serves(q, model),
    ensures
        memory_fits(peers.push(q), model) == memory_fits(peers, model),
        diagnosis(model, model_bytes, local, peers.push(q), None) == diagnosis(
            model,
            model_bytes,
            local,
            peers,
            None,
        ),
{
    let more = peers.push(q);
    assert(more.drop_last() =~= peers);
    assert(!some_host(more, model)) by {
        if some_host(more, model) {
            let i = choose|i: int| 0 <= i < more.len() && hosts(#[trigger] more[i], model);
            if i < peers.len() {
                assert(hosts(peers[i], model));
            }
        }
    }
}

/// The fast memory of the peers in bytes, added up.
pub open spec fn memory_of(peers: Seq<LoadingPeerSnapshot>) -> int {
    peers.fold_left(0int, |t: int, p: LoadingPeerSnapshot| t + p.fast_memory_bytes)
}

proof fn lemma_total_is_the_sum(peers: Seq<LoadingPeerSnapshot>)
    ensures
        total_memory(peers) == memory_of(peers),
    decreases peers.len(),
{
    if peers.len() > 0 {
        lemma_total_is_the_sum(peers.drop_last());
    }
}

proof fn lemma_serving_is_the_sum(
    peers: Seq<LoadingPeerSnapshot>,
    model: Seq<char>,
    keep: spec_fn(LoadingPeerSnapshot) -> bool,
)
    requires
        forall|p: LoadingPeerSnapshot| #[trigger]
            keep(p) <==> texts(p.serving_models@).contains(model),
    ensures
        serving_memory(peers, model) == memory_of(peers.filter(keep)),
    decreases peers.len(),
{
    reveal(Seq::filter);
    if peers.len() > 0 {
        lemma_serving_is_the_sum(peers.drop_last(), model, keep);
        let before = peers.drop_last().filter(keep);
        if keep(peers.last()) {
            assert(before.push(peers.last()).drop_last() =~= before);
        }
    }
}

/// Whenever a host lists the model, wherever in its list and wherever among the peers,
/// it is a matter of waiting for partners: the diagnosis gives the size of the model
/// and the fast memory of all peers added up.
pub proof fn law_hosted_model_waits_for_partners(
    model: Seq<char>,
    model_bytes: Option<u64>,
    local: u64,
    peers: Seq<LoadingPeerSnapshot>,
    i: int,
    k: int,
)
    requires
        0 <= i < peers.len(),
        peers[i].role is Host,
        0 <= k < peers[i].hosted_models@.len(),
        peers[i].hosted_models@[k]@ == model,
        memory_of(peers) <= u64::MAX,
    ensures
        diagnosis(model, model_bytes, local, peers, None) == (ReasonView::Waiting {
            model_bytes,
            total_peer_fast_bytes: memory_of(peers) as u64,
        }),
{
    assert(texts(peers[i].hosted_models@)[k] == model);
    assert(hosts(peers[i], model));
    lemma_total_is_the_sum(peers);
}

/// That there is no host is said exactly if there is none: no host lists the model, and
/// its size is unknown or fits here with headroom.
pub proof fn law_no_host_means_nobody_hosts(
    model: Seq<char>,
    model_bytes: Option<u64>,
    local: u64,
    peers: Seq<LoadingPeerSnapshot>,
)
    ensures
        diagnosis(model, model_bytes, local, peers, None) is NoHost <==> (forall|i: int, k: int|
            0 <= i < peers.len() && peers[i].role is Host && 0 <= k
                < peers[i].hosted_models@.len() ==> (#[trigger] peers[i].hosted_models@[k])@
                != model) && (model_bytes matches Some(bytes) ==> headroom(bytes) <= local),
{
    if some_host(peers, model) {
        let i = choose|i: int| 0 <= i < peers.len() && hosts(#[trigger] peers[i], model);
        let list = texts(peers[i].hosted_models@);
        let k = choose|k: int| 0 <= k < list.len() && list[k] == model;
        assert(peers[i].hosted_models@[k]@ == model);
    } else {
        assert forall|i: int, k: int|
            0 <= i < peers.len() && peers[i].role is Host && 0 <= k
                < peers[i].hosted_models@.len() implies (#[trigger] peers[i].hosted_models@[k])@
            != model by {
            if peers[i].hosted_models@[k]@ == model {
                assert(texts(peers[i].hosted_models@)[k] == model);
                assert(hosts(peers[i], model));
            }
        }
    }
}

/// A model that nobody hosts and that does not fit here with headroom waits for
/// partners if it fits together with every peer that serves it, and is too large
/// otherwise. Either way the diagnosis gives the memory of those peers added up.
pub proof fn law_partners_are_added_up(
    model: Seq<char>,
    bytes: u64,
    local: u64,
    peers: Seq<LoadingPeerSnapshot>,
)
    requires
        forall|i: int, k: int|
            0 <= i < peers.len() && peers[i].role is Host && 0 <= k
                < peers[i].hosted_models@.len() ==> (#[trigger] peers[i].hosted_models@[k])@
                != model,
        headroom(bytes) > local,
        memory_of(
            peers.filter(|p: LoadingPeerSnapshot| texts(p.serving_models@).contains(model)),
        ) <= u64::MAX,
    ensures
        ({
            let partners = memory_of(
                peers.filter(|p: LoadingPeerSnapshot| texts(p.serving_models@).contains(model)),
            );
            diagnosis(model, Some(bytes), local, peers, None) == if local + partners < headroom(
                bytes,
            ) {
                ReasonView::TooLarge {
                    model_bytes: bytes,
                    local_fast_bytes: local,
                    total_peer_fast_bytes: partners as u64,
                }
            } else {
                ReasonView::Waiting {
                    model_bytes: Some(bytes),
                    total_peer_fast_bytes: partners as u64,
                }
            }
        }),
{
    law_no_host_means_nobody_hosts(model, None, local, peers);
    assert(!some_host(peers, model));
    lemma_serving_is_the_sum(
        peers,
        model,
        |p: LoadingPeerSnapshot| texts(p.serving_models@).contains(model),
    );
}

/// A diagnosis is told once. The same one is told again after fifteen minutes and not
/// before; another one is told at once.
pub proof fn law_diagnosis_is_told_once(
    reason: ReasonView,
    other: ReasonView,
    then: u128,
    now: u128,
)
    ensures
        emission_due(None, reason, now),
        emission_due(Some((reason, then)), reason, now) <==> now - then >= 900_000_000_000,
        other != reason ==> emission_due(Some((reason, then)), other, now),
{
}

/// A message names the model and gives every figure of its diagnosis.
pub proof fn law_message_gives_the_figures(
    model: Seq<char>,
    model_bytes: u64,
    local: u64,
    partners: u64,
    detail: Seq<char>,
)
    ensures
        ({
            let large = reason_text(
                ReasonView::TooLarge {
                    model_bytes,
                    local_fast_bytes: local,
                    total_peer_fast_bytes: partners,
                },
                model,
            );
            let waiting = reason_text(
                ReasonView::Waiting {
                    model_bytes: Some(model_bytes),
                    total_peer_fast_bytes: partners,
                },
                model,
            );
            let failed = reason_text(ReasonView::StartFailed { detail }, model);
            &&& crate::text::has_text(large, model)
            &&& crate::text::has_text(large, "model is "@ + gb_text(model_bytes))
            &&& crate::text::has_text(large, "local fast memory is "@ + gb_text(local))
            &&& crate::text::has_text(
                large,
                "visible split partners contribute "@ + gb_text(partners),
            )
            &&& crate::text::has_text(waiting, "Model size: "@ + gb_text(model_bytes))
            &&& crate::text::has_text(
                waiting,
                "visible peer fast memory: "@ + gb_text(partners),
            )
            &&& crate::text::has_suffix(failed, detail)
        }),
{
    let (m, l, p) = (gb_text(model_bytes), gb_text(local), gb_text(partners));
    let none = Seq::<char>::empty();
    let head = "`"@ + model + "` has been loading too long: "@;
    let end = ". No eligible split cohort is ready."@;
    let (a, b, c) = (
        "model is "@,
        ", local fast memory is "@,
        ", and visible split partners contribute "@,
    );
    let large = head + (a + m + b + l + c + p + end);
    assert(large =~= "`"@ + model + ("` has been loading too long: "@ + (a + m + b + l + c + p
        + end)));
    lemma_stands_in("`"@, model, "` has been loading too long: "@ + (a + m + b + l + c + p + end));
    assert(large =~= head + (a + m) + (b + l + c + p + end));
    lemma_stands_in(head, a + m, b + l + c + p + end);
    reveal_strlit(", local fast memory is ");
    reveal_strlit("local fast memory is ");
    reveal_strlit(", and visible split partners contribute ");
    reveal_strlit("visible split partners contribute ");
    reveal_strlit("waiting for a split partner/cohort. Model size: ");
    reveal_strlit("Model size: ");
    reveal_strlit("; visible peer fast memory: ");
    reveal_strlit("visible peer fast memory: ");
    assert(b =~= ", "@ + "local fast memory is "@) by {
        reveal_strlit(", ");
    }
    assert(c =~= ", and "@ + "visible split partners contribute "@) by {
        reveal_strlit(", and ");
    }
    assert(large =~= (head + a + m + ", "@) + ("local fast memory is "@ + l) + (c + p + end));
    lemma_stands_in(head + a + m + ", "@, "local fast memory is "@ + l, c + p + end);
    assert(large =~= (head + a + m + b + l + ", and "@) + ("visible split partners contribute "@ + p)
        + end);
    lemma_stands_in(
        head + a + m + b + l + ", and "@,
        "visible split partners contribute "@ + p,
        end,
    );
    let (d, e) = (
        "waiting for a split partner/cohort. Model size: "@,
        "; visible peer fast memory: "@,
    );
    let waiting = head + (d + m + e + p + "."@);
    assert(d =~= "waiting for a split partner/cohort. "@ + "Model size: "@) by {
        reveal_strlit("waiting for a split partner/cohort. ");
    }
    assert(e =~= "; "@ + "visible peer fast memory: "@) by {
        reveal_strlit("; ");
    }
    assert(waiting =~= (head + "waiting for a split partner/cohort. "@) + ("Model size: "@ + m) + (e
        + p + "."@));
    lemma_stands_in(
        head + "waiting for a split partner/cohort. "@,
        "Model size: "@ + m,
        e + p + "."@,
    );
    assert(waiting =~= (head + d + m + "; "@) + ("visible peer fast memory: "@ + p) + "."@);
    lemma_stands_in(head + d + m + "; "@, "visible peer fast memory: "@ + p, "."@);
    let failed = reason_text(ReasonView::StartFailed { detail }, model);
    assert(failed.skip(failed.len() - detail.len()) =~= detail);
}

proof fn lemma_stands_in(before: Seq<char>, part: Seq<char>, behind: Seq<char>)
    ensures
        crate::text::has_text(before + part + behind, part),
{
    assert(part.subrange(0, part.len() as int) =~= part);
    assert(crate::text::occurs_at(part, part, 0));
    crate::text::law_found_in_a_part(before, part, behind, part);
}

/// A whole number of gigabytes reads as such.
pub proof fn law_gigabytes_are_read_as_such(g: nat)
    requires
        g <= 4_000_000_000,
    ensures
        gb_text((g * 1_000_000_000) as u64) == crate::text::decimal(g) + ".0 GB"@,
{
    crate::gigabytes::law_whole_gigabytes(g);
    crate::gigabytes::law_whole_gigabytes_text(g);
    reveal_strlit(" GB");
    reveal_strlit(".0 GB");
    assert(seq!['.', '0'] + " GB"@ =~= ".0 GB"@);
    assert(gb_text((g * 1_000_000_000) as u64) =~= crate::text::decimal(g) + ".0 GB"@);
}

} // verus!
