//! How a model is spread over the mesh.
//!
//! Everything here is inferred from what peers gossip. A split is only reported
//! where it must exist: one peer answers for the model, others take part in
//! serving it, and the model does not fit on the answering peer alone.

use vstd::prelude::*;

use crate::double::{headroom, rounded, with_headroom};
use crate::gigabytes::{bytes_of_units, units_of_bytes, Gigabytes, EXPONENT_END};
use crate::order::{sort_unique, unique_sorted};
use crate::peers::{nonblank, says_something, NodeRole, PeerInfo};
use crate::text::{any_text, has_prefix, same_text, starts_with, texts};

verus! {

/// The double next to 0.95, times two to the power 53.
pub const FIT_FACTOR: u64 = 8_556_839_292_003_942;

/// A group of peers that serve one model together.
#[derive(Debug)]
pub struct SplitGroupPayload {
    pub model: String,
    /// Short id of the peer that answers for the model.
    pub host_id: String,
    /// Short ids of all members, sorted, each once.
    pub peer_ids: Vec<String>,
    /// Combined fast memory of the members.
    pub total_group_vram_gb: Gigabytes,
}

/// Membership in a group of expert shards.
#[derive(Debug)]
pub struct MoeShardPayload {
    pub model: String,
    pub total_shards: u32,
}

/// A peer's part in serving a model with others.
#[derive(Debug)]
pub struct PeerSplitClassification {
    pub role: Option<String>,
    pub group: Option<SplitGroupPayload>,
    pub moe_shard: Option<MoeShardPayload>,
}

/// The mathematical content of a classification that found a group.
pub struct SplitView {
    pub role: Option<Seq<char>>,
    pub model: Seq<char>,
    pub host_id: Seq<char>,
    pub peer_ids: Seq<Seq<char>>,
    pub vram_units: nat,
}

impl PeerSplitClassification {
    /// What the classification says; nothing if it says nothing at all.
    pub open spec fn shows(&self, split: Option<SplitView>) -> bool {
        &&& self.moe_shard is None
        &&& match split {
            None => self.role is None && self.group is None,
            Some(s) => {
                &&& crate::text::opt_text(self.role) == s.role
                &&& self.group matches Some(g)
                &&& g.model@ == s.model
                &&& g.host_id@ == s.host_id
                &&& texts(g.peer_ids@) == s.peer_ids
                &&& g.total_group_vram_gb.units() == s.vram_units
            },
        }
    }

    /// A classification that says nothing.
    fn none() -> (r: PeerSplitClassification)
        ensures
            r.shows(None),
    {
        PeerSplitClassification { role: None, group: None, moe_shard: None }
    }
}

/// The largest size that a peer has observed for the model, zero if none has.
pub open spec fn observed_bytes(peers: Seq<PeerInfo>, model: Seq<char>) -> u64
    decreases peers.len(),
{
    if peers.len() == 0 {
        0
    } else {
        let before = observed_bytes(peers.drop_last(), model);
        let sizes = peers.last().available_model_sizes@;
        if sizes.contains_key(model) && sizes[model] > before {
            sizes[model]
        } else {
            before
        }
    }
}

/// The largest size in bytes that any peer has observed for the model.
pub fn model_bytes_observed_in_mesh(model: &str, all_peers: &[PeerInfo]) -> (bytes: u64)
    ensures
        bytes == observed_bytes(all_peers@, model@),
{
    let mut bytes: u64 = 0;
    let mut i: usize = 0;
    while i < all_peers.len()
        invariant
            i <= all_peers.len(),
            bytes == observed_bytes(all_peers@.take(i as int), model@),
        decreases all_peers.len() - i,
    {
        assert(all_peers@.take(i + 1).drop_last() =~= all_peers@.take(i as int));
        match all_peers[i].available_model_sizes.get(model) {
            Some(size) => if *size > bytes {
                bytes = *size;
            },
            None => {},
        }
        i = i + 1;
    }
    assert(all_peers@.take(i as int) =~= all_peers@);
    bytes
}

/// A host can run a model of known size alone if its fast memory covers the
/// model with headroom.
pub open spec fn can_solo(host_bytes: int, model_bytes: u64) -> bool {
    model_bytes > 0 && host_bytes >= headroom(model_bytes)
}

/// Whether a host can run a model alone.
pub fn host_can_solo_model(host_fast_memory_bytes: u64, model_bytes: u64) -> (r: bool)
    ensures
        r == can_solo(host_fast_memory_bytes as int, model_bytes),
{
    model_bytes > 0 && host_fast_memory_bytes >= with_headroom(model_bytes)
}

/// The peers other than `id` that take part in serving the model.
pub open spec fn cohort(peers: Seq<PeerInfo>, id: Option<Seq<char>>, model: Seq<char>) -> Seq<
    PeerInfo,
>
    decreases peers.len(),
{
    if peers.len() == 0 {
        Seq::empty()
    } else {
        let before = cohort(peers.drop_last(), id, model);
        if id != Some(peers.last().id@) && peers.last().is_assigned(model) {
            before.push(peers.last())
        } else {
            before
        }
    }
}

/// The places of the peers other than `id` that take part in serving the model.
fn cohort_places(all_peers: &[PeerInfo], id: Option<&str>, model: &str) -> (places: Vec<usize>)
    ensures
        places.len() == cohort(
            all_peers@,
            match id {
                Some(id) => Some(id@),
                None => None,
            },
            model@,
        ).len(),
        forall|i: int| 0 <= i < places.len() ==> #[trigger] places@[i] < all_peers.len(),
        forall|i: int|
            0 <= i < places.len() ==> all_peers@[#[trigger] places@[i] as int] == cohort(
                all_peers@,
                match id {
                    Some(id) => Some(id@),
                    None => None,
                },
                model@,
            )[i],
{
    let ghost gid = match id {
        Some(id) => Some(id@),
        None => None,
    };
    let mut places: Vec<usize> = Vec::new();
    let mut i: usize = 0;
    while i < all_peers.len()
        invariant
            i <= all_peers.len(),
            gid == (match id {
                Some(id) => Some(id@),
                None => None,
            }),
            places.len() == cohort(all_peers@.take(i as int), gid, model@).len(),
            forall|j: int| 0 <= j < places.len() ==> #[trigger] places@[j] < all_peers.len(),
            forall|j: int|
                0 <= j < places.len() ==> all_peers@[#[trigger] places@[j] as int] == cohort(
                    all_peers@.take(i as int),
                    gid,
                    model@,
                )[j],
        decreases all_peers.len() - i,
    {
        assert(all_peers@.take(i + 1).drop_last() =~= all_peers@.take(i as int));
        let is_self = match id {
            Some(id) => same_text(id, all_peers[i].id.as_str()),
            None => false,
        };
        if !is_self && all_peers[i].is_assigned_model(model) {
            places.push(i);
        }
        i = i + 1;
    }
    assert(all_peers@.take(i as int) =~= all_peers@);
    places
}

/// The place of the first peer that answers for the model, counted from `from`.
pub open spec fn first_router(peers: Seq<PeerInfo>, model: Seq<char>, from: int) -> Option<int>
    decreases peers.len() - from,
{
    if 0 <= from < peers.len() {
        if peers[from].routes(model) {
            Some(from)
        } else {
            first_router(peers, model, from + 1)
        }
    } else {
        None
    }
}

/// The first peer that answers for the model is one of the peers and answers for
/// it; if there is none, no peer answers for it.
pub proof fn lemma_first_router(peers: Seq<PeerInfo>, model: Seq<char>, from: int)
    requires
        0 <= from,
    ensures
        match first_router(peers, model, from) {
            Some(i) => from <= i < peers.len() && peers[i].routes(model),
            None => forall|i: int| from <= i < peers.len() ==> !(#[trigger] peers[i]).routes(model),
        },
    decreases peers.len() - from,
{
    if from < peers.len() && !peers[from].routes(model) {
        lemma_first_router(peers, model, from + 1);
    }
}

/// The place of the first peer that answers for the model.
fn find_router(all_peers: &[PeerInfo], model: &str) -> (r: Option<usize>)
    ensures
        match r {
            Some(i) => i < all_peers.len() && first_router(all_peers@, model@, 0) == Some(i as int),
            None => first_router(all_peers@, model@, 0) is None,
        },
{
    let mut i: usize = 0;
    while i < all_peers.len()
        invariant
            i <= all_peers.len(),
            first_router(all_peers@, model@, 0) == first_router(all_peers@, model@, i as int),
        decreases all_peers.len() - i,
    {
        if all_peers[i].routes_http_model(model) {
            return Some(i);
        }
        i = i + 1;
    }
    None
}

/// How many peers other than `id` answer for the model.
pub open spec fn router_count(peers: Seq<PeerInfo>, id: Option<Seq<char>>, model: Seq<char>) -> nat
    decreases peers.len(),
{
    if peers.len() == 0 {
        0
    } else {
        let before = router_count(peers.drop_last(), id, model);
        if id != Some(peers.last().id@) && peers.last().routes(model) {
            before + 1
        } else {
            before
        }
    }
}

/// Counts the peers other than `id` that answer for the model.
fn count_routers(all_peers: &[PeerInfo], id: Option<&str>, model: &str) -> (n: usize)
    ensures
        n == router_count(
            all_peers@,
            match id {
                Some(id) => Some(id@),
                None => None,
            },
            model@,
        ),
        n <= all_peers.len(),
{
    let ghost gid = match id {
        Some(id) => Some(id@),
        None => None,
    };
    let mut n: usize = 0;
    let mut i: usize = 0;
    while i < all_peers.len()
        invariant
            i <= all_peers.len(),
            n <= i,
            gid == (match id {
                Some(id) => Some(id@),
                None => None,
            }),
            n == router_count(all_peers@.take(i as int), gid, model@),
        decreases all_peers.len() - i,
    {
        assert(all_peers@.take(i + 1).drop_last() =~= all_peers@.take(i as int));
        let is_self = match id {
            Some(id) => same_text(id, all_peers[i].id.as_str()),
            None => false,
        };
        if !is_self && all_peers[i].routes_http_model(model) {
            n = n + 1;
        }
        i = i + 1;
    }
    assert(all_peers@.take(i as int) =~= all_peers@);
    n
}

/// The model that the most other peers take part in serving, the earliest one of
/// several; none if nobody else takes part in any.
pub open spec fn shared_model(
    models: Seq<Seq<char>>,
    peers: Seq<PeerInfo>,
    id: Option<Seq<char>>,
) -> Option<Seq<char>>
    decreases models.len(),
{
    if models.len() == 0 {
        None
    } else {
        let best = shared_model(models.drop_last(), peers, id);
        if cohort(peers, id, models.last()).len() > best_size(best, peers, id) {
            Some(models.last())
        } else {
            best
        }
    }
}

/// How many other peers take part in serving the model.
pub open spec fn best_size(
    best: Option<Seq<char>>,
    peers: Seq<PeerInfo>,
    id: Option<Seq<char>>,
) -> nat {
    match best {
        Some(model) => cohort(peers, id, model).len(),
        None => 0,
    }
}

/// The identity of a peer as text.
pub open spec fn opt_id(id: Option<&str>) -> Option<Seq<char>> {
    match id {
        Some(id) => Some(id@),
        None => None,
    }
}

/// Goes on looking for the model with the most other peers in a further list.
fn find_larger<'a>(
    best: Option<&'a String>,
    models: &'a [String],
    all_peers: &[PeerInfo],
    id: Option<&str>,
    before: Ghost<Seq<Seq<char>>>,
) -> (r: Option<&'a String>)
    requires
        opt_name(best) == shared_model(before@, all_peers@, opt_id(id)),
    ensures
        opt_name(r) == shared_model(before@ + texts(models@), all_peers@, opt_id(id)),
{
    let ghost all = before@ + texts(models@);
    let ghost n = before@.len();
    let mut best = best;
    let mut size: usize = match best {
        Some(model) => cohort_places(all_peers, id, model.as_str()).len(),
        None => 0,
    };
    let mut i: usize = 0;
    assert(all.take(n as int) =~= before@);
    while i < models.len()
        invariant
            i <= models.len(),
            n == before@.len(),
            all == before@ + texts(models@),
            opt_name(best) == shared_model(all.take(n + i), all_peers@, opt_id(id)),
            size == best_size(opt_name(best), all_peers@, opt_id(id)),
        decreases models.len() - i,
    {
        proof {
            let now = all.take(n + i + 1);
            assert(now.last() == models@[i as int]@);
            assert(now.drop_last() =~= all.take(n + i));
        }
        let found = cohort_places(all_peers, id, models[i].as_str()).len();
        if found > size {
            best = Some(&models[i]);
            size = found;
        }
        i = i + 1;
    }
    assert(all.take(n + i) =~= all);
    best
}

/// The text of an optional string.
pub open spec fn opt_name(name: Option<&String>) -> Option<Seq<char>> {
    match name {
        Some(name) => Some(name@),
        None => None,
    }
}

/// Finds the model that the most other peers take part in serving: the hosted ones
/// count as coming after the served ones.
fn find_shared_model<'a>(
    serving: &'a [String],
    hosted: &'a [String],
    all_peers: &[PeerInfo],
    id: Option<&str>,
) -> (r: Option<&'a String>)
    ensures
        opt_name(r) == shared_model(texts(serving@) + texts(hosted@), all_peers@, opt_id(id)),
{
    let best = find_larger(None, serving, all_peers, id, Ghost(Seq::empty()));
    assert(Seq::<Seq<char>>::empty() + texts(serving@) =~= texts(serving@));
    find_larger(best, hosted, all_peers, id, Ghost(texts(serving@)))
}

/// The short ids of the peers.
pub open spec fn short_ids(peers: Seq<PeerInfo>) -> Seq<Seq<char>> {
    peers.map_values(|p: PeerInfo| p.short_id@)
}

/// The combined fast memory of the peers, added up one after another.
pub open spec fn pooled_units(peers: Seq<PeerInfo>) -> nat
    decreases peers.len(),
{
    if peers.len() == 0 {
        0
    } else {
        rounded(
            pooled_units(peers.drop_last()) + units_of_bytes(peers.last().fast_memory() as u64),
        )
    }
}

/// The group of a member: its short ids and its combined fast memory.
pub open spec fn split_group(
    role: Option<Seq<char>>,
    model: Seq<char>,
    host_id: Seq<char>,
    own_id: Seq<char>,
    own_units: nat,
    others: Seq<PeerInfo>,
) -> SplitView {
    SplitView {
        role,
        model,
        host_id,
        peer_ids: unique_sorted(seq![own_id] + short_ids(others)),
        vram_units: rounded(own_units + pooled_units(others)),
    }
}

/// Puts a group together.
fn build_group(
    role: Option<String>,
    model: &str,
    host_id: &str,
    own_id: &str,
    own_vram: Gigabytes,
    all_peers: &[PeerInfo],
    places: &Vec<usize>,
    others: Ghost<Seq<PeerInfo>>,
) -> (r: PeerSplitClassification)
    requires
        own_vram.exponent() < EXPONENT_END,
        others@.len() == places.len(),
        forall|i: int| 0 <= i < places.len() ==> #[trigger] places@[i] < all_peers.len(),
        forall|i: int|
            0 <= i < places.len() ==> all_peers@[#[trigger] places@[i] as int] == others@[i],
    ensures
        r.shows(
            Some(
                split_group(
                    crate::text::opt_text(role),
                    model@,
                    host_id@,
                    own_id@,
                    own_vram.units(),
                    others@,
                ),
            ),
        ),
{
    let mut ids: Vec<String> = Vec::new();
    ids.push(own_id.to_owned());
    let mut pooled = Gigabytes::zero();
    let mut i: usize = 0;
    assert(texts(ids@) =~= seq![own_id@] + short_ids(others@.take(0)));
    while i < places.len()
        invariant
            i <= places.len(),
            others@.len() == places.len(),
            forall|j: int| 0 <= j < places.len() ==> #[trigger] places@[j] < all_peers.len(),
            forall|j: int|
                0 <= j < places.len() ==> all_peers@[#[trigger] places@[j] as int] == others@[j],
            texts(ids@) == seq![own_id@] + short_ids(others@.take(i as int)),
            pooled.units() == pooled_units(others@.take(i as int)),
            pooled.exponent() <= 74 + i,
        decreases places.len() - i,
    {
        let peer = &all_peers[places[i]];
        let ghost before = ids@;
        proof {
            let now = others@.take(i + 1);
            assert(now.drop_last() =~= others@.take(i as int));
            assert(now.last() == *peer);
            assert(short_ids(now) =~= short_ids(others@.take(i as int)).push(peer.short_id@));
        }
        ids.push(peer.short_id.clone());
        assert(texts(ids@) =~= texts(before).push(peer.short_id@));
        assert(texts(ids@) =~= seq![own_id@] + short_ids(others@.take(i + 1)));
        pooled = pooled.plus(&Gigabytes::from_bytes(peer.fast_memory_bytes()));
        i = i + 1;
    }
    assert(others@.take(i as int) =~= others@);
    let peer_ids = sort_unique(ids.as_slice());
    PeerSplitClassification {
        role,
        group: Some(
            SplitGroupPayload {
                model: model.to_owned(),
                host_id: host_id.to_owned(),
                peer_ids,
                total_group_vram_gb: own_vram.plus(&pooled),
            },
        ),
        moe_shard: None,
    }
}

/// A peer's part in a split. There is one only if the peer is no client, another
/// peer takes part in serving one of its models, some peer answers for that
/// model, the model does not fit on that peer alone, and no second peer answers
/// for it.
pub open spec fn peer_split(peer: PeerInfo, all: Seq<PeerInfo>) -> Option<SplitView> {
    let id = Some(peer.id@);
    match shared_model(texts(peer.serving_models@) + texts(peer.hosted_models@), all, id) {
        None => None,
        Some(model) => {
            let router = first_router(all, model, 0);
            let host = match router {
                Some(i) => all[i],
                None => peer,
            };
            if peer.role is Client || (router is None && !peer.routes(model)) {
                None
            } else if can_solo(host.fast_memory(), observed_bytes(all, model)) {
                None
            } else if router_count(all, id, model) + (if peer.routes(model) {
                1int
            } else {
                0
            }) >= 2 {
                None
            } else {
                let role = if peer.routes(model) {
                    Some("pipeline_host"@)
                } else if peer.role is Worker {
                    Some("pipeline_worker"@)
                } else {
                    None
                };
                Some(
                    split_group(
                        role,
                        model,
                        host.short_id@,
                        peer.short_id@,
                        units_of_bytes(peer.fast_memory() as u64),
                        cohort(all, id, model),
                    ),
                )
            }
        },
    }
}

/// Classifies a peer's part in serving a model with others.
pub fn classify_peer_split_role(peer: &PeerInfo, all_peers: &[PeerInfo]) -> (r:
    PeerSplitClassification)
    ensures
        r.shows(peer_split(*peer, all_peers@)),
{
    if let NodeRole::Client = peer.role {
        return PeerSplitClassification::none();
    }
    let id = peer.id.as_str();
    let model = match find_shared_model(
        peer.serving_models.as_slice(),
        peer.hosted_models.as_slice(),
        all_peers,
        Some(id),
    ) {
        Some(model) => model.as_str(),
        None => return PeerSplitClassification::none(),
    };
    let routes = peer.routes_http_model(model);
    let router = find_router(all_peers, model);
    if router.is_none() && !routes {
        return PeerSplitClassification::none();
    }
    let host = match router {
        Some(i) => &all_peers[i],
        None => peer,
    };
    let model_bytes = model_bytes_observed_in_mesh(model, all_peers);
    if host_can_solo_model(host.fast_memory_bytes(), model_bytes) {
        return PeerSplitClassification::none();
    }
    let others = count_routers(all_peers, Some(id), model);
    if others >= 2 || (others == 1 && routes) {
        return PeerSplitClassification::none();
    }
    let role = if routes {
        Some("pipeline_host".to_owned())
    } else if let NodeRole::Worker = peer.role {
        Some("pipeline_worker".to_owned())
    } else {
        None
    };
    let places = cohort_places(all_peers, Some(id), model);
    build_group(
        role,
        model,
        host.short_id.as_str(),
        peer.short_id.as_str(),
        Gigabytes::from_bytes(peer.fast_memory_bytes()),
        all_peers,
        &places,
        Ghost(cohort(all_peers@, Some(peer.id@), model@)),
    )
}

/// The local node's part in a split, by the same rules. The local node is not
/// among the peers.
pub open spec fn local_split(
    self_id: Seq<char>,
    is_host: bool,
    is_client: bool,
    models: Seq<Seq<char>>,
    vram_units: nat,
    all: Seq<PeerInfo>,
) -> Option<SplitView> {
    match shared_model(models, all, None) {
        None => None,
        Some(model) => {
            let router = first_router(all, model, 0);
            let host_bytes = match router {
                Some(i) => all[i].fast_memory(),
                None => bytes_of_units(vram_units),
            };
            if is_client || (router is None && !is_host) {
                None
            } else if can_solo(host_bytes, observed_bytes(all, model)) {
                None
            } else if router_count(all, None, model) + (if is_host {
                1int
            } else {
                0
            }) >= 2 {
                None
            } else {
                let role = if router is None && is_host {
                    Some("pipeline_host"@)
                } else {
                    Some("pipeline_worker"@)
                };
                let host_id = match router {
                    Some(i) => all[i].short_id@,
                    None => self_id,
                };
                Some(
                    split_group(
                        role,
                        model,
                        host_id,
                        self_id,
                        vram_units,
                        cohort(all, None, model),
                    ),
                )
            }
        },
    }
}

/// Classifies the local node's part in serving a model with others.
pub fn classify_local_split_role(
    self_id: &str,
    is_host: bool,
    is_client: bool,
    serving_models: &[String],
    hosted_models: &[String],
    my_vram_gb: Gigabytes,
    all_peers: &[PeerInfo],
) -> (r: PeerSplitClassification)
    requires
        my_vram_gb.exponent() < EXPONENT_END,
    ensures
        r.shows(
            local_split(
                self_id@,
                is_host,
                is_client,
                texts(serving_models@) + texts(hosted_models@),
                my_vram_gb.units(),
                all_peers@,
            ),
        ),
{
    if is_client {
        return PeerSplitClassification::none();
    }
    let model = match find_shared_model(serving_models, hosted_models, all_peers, None) {
        Some(model) => model.as_str(),
        None => return PeerSplitClassification::none(),
    };
    let router = find_router(all_peers, model);
    if router.is_none() && !is_host {
        return PeerSplitClassification::none();
    }
    let model_bytes = model_bytes_observed_in_mesh(model, all_peers);
    let host_bytes = match router {
        Some(i) => all_peers[i].fast_memory_bytes(),
        None => my_vram_gb.to_bytes(),
    };
    if host_can_solo_model(host_bytes, model_bytes) {
        return PeerSplitClassification::none();
    }
    let others = count_routers(all_peers, None, model);
    if others >= 2 || (others == 1 && is_host) {
        return PeerSplitClassification::none();
    }
    let host_id = match router {
        Some(i) => all_peers[i].short_id.as_str(),
        None => self_id,
    };
    let role = if router.is_none() && is_host {
        Some("pipeline_host".to_owned())
    } else {
        Some("pipeline_worker".to_owned())
    };
    let places = cohort_places(all_peers, None, model);
    build_group(
        role,
        model,
        host_id,
        self_id,
        my_vram_gb,
        all_peers,
        &places,
        Ghost(cohort(all_peers@, None, model@)),
    )
}

/// A peer that answers for the model is counted.
proof fn lemma_router_counted(peers: Seq<PeerInfo>, id: Option<Seq<char>>, model: Seq<char>, i: int)
    requires
        0 <= i < peers.len(),
        peers[i].routes(model),
        id != Some(peers[i].id@),
    ensures
        router_count(peers, id, model) >= 1,
    decreases peers.len(),
{
    if i < peers.len() - 1 {
        assert(peers.drop_last()[i] == peers[i]);
        lemma_router_counted(peers.drop_last(), id, model, i);
    }
}

/// A split always names a host that answers for the model: the classifier never
/// invents a host where the election has not produced one.
pub proof fn law_split_has_a_host(peer: PeerInfo, all: Seq<PeerInfo>)
    ensures
        peer_split(peer, all) matches Some(s) ==> (exists|i: int|
            0 <= i < all.len() && (#[trigger] all[i]).routes(s.model) && all[i].short_id@
                == s.host_id) || (peer.routes(s.model) && peer.short_id@ == s.host_id),
{
    let id = Some(peer.id@);
    match shared_model(texts(peer.serving_models@) + texts(peer.hosted_models@), all, id) {
        Some(model) => {
            lemma_first_router(all, model, 0);
        },
        None => {},
    }
}

/// A model that fits on the peer that answers for it is not split: the others
/// are standing by.
pub proof fn law_standby_is_no_split(peer: PeerInfo, all: Seq<PeerInfo>, host: int)
    requires
        0 <= host < all.len(),
        peer_split(peer, all) matches Some(s) && first_router(all, s.model, 0) == Some(host),
    ensures
        !can_solo(
            all[host].fast_memory(),
            observed_bytes(all, peer_split(peer, all)->0.model),
        ),
{
}

/// Two peers that each answer for a model are replicas: neither of them is part
/// of a split of that model.
pub proof fn law_replicas_are_no_split(peer: PeerInfo, all: Seq<PeerInfo>, other: int)
    requires
        0 <= other < all.len(),
        all[other].id@ != peer.id@,
    ensures
        peer_split(peer, all) matches Some(s) ==> !(peer.routes(s.model)
            && all[other].routes(s.model)),
{
    match peer_split(peer, all) {
        Some(s) => {
            if all[other].routes(s.model) {
                lemma_router_counted(all, Some(peer.id@), s.model, other);
            }
        },
        None => {},
    }
}

/// A client takes part in no split, and neither does a peer whose models nobody
/// else serves.
pub proof fn law_no_split_alone(peer: PeerInfo, all: Seq<PeerInfo>)
    ensures
        peer.role is Client ==> peer_split(peer, all) is None,
        peer_split(peer, all) matches Some(s) ==> cohort(all, Some(peer.id@), s.model).len() > 0,
{
    law_largest_cohort_decides(
        texts(peer.serving_models@) + texts(peer.hosted_models@),
        all,
        Some(peer.id@),
    );
}

/// The local node is classified by the same rules as a peer: its split names a host
/// that answers for the model, has other members, is no split of a model that the
/// host could hold alone, and is no pair of replicas; a client has none.
pub proof fn law_local_split_is_genuine(
    self_id: Seq<char>,
    is_host: bool,
    is_client: bool,
    models: Seq<Seq<char>>,
    vram_units: nat,
    all: Seq<PeerInfo>,
)
    ensures
        is_client ==> local_split(self_id, is_host, is_client, models, vram_units, all) is None,
        local_split(self_id, is_host, is_client, models, vram_units, all) matches Some(s) ==> {
            &&& cohort(all, None, s.model).len() > 0
            &&& (exists|i: int|
                0 <= i < all.len() && (#[trigger] all[i]).routes(s.model) && all[i].short_id@
                    == s.host_id && !can_solo(
                    all[i].fast_memory(),
                    observed_bytes(all, s.model),
                )) || (is_host && s.host_id == self_id && !can_solo(
                bytes_of_units(vram_units),
                observed_bytes(all, s.model),
            ))
            &&& is_host ==> forall|i: int|
                0 <= i < all.len() ==> !(#[trigger] all[i]).routes(s.model)
        },
{
    law_largest_cohort_decides(models, all, None);
    match local_split(self_id, is_host, is_client, models, vram_units, all) {
        Some(s) => {
            lemma_first_router(all, s.model, 0);
            if is_host {
                assert forall|i: int| 0 <= i < all.len() implies !(#[trigger] all[i]).routes(
                    s.model,
                ) by {
                    if all[i].routes(s.model) {
                        lemma_router_counted(all, None, s.model, i);
                    }
                }
            }
        },
        None => {},
    }
}

/// A node is classified by the model with the largest cohort, the earliest one of
/// several: no other of its models has a larger one, and those before it have
/// smaller ones. It is in no cohort exactly if nobody else serves its models.
pub proof fn law_largest_cohort_decides(
    models: Seq<Seq<char>>,
    peers: Seq<PeerInfo>,
    id: Option<Seq<char>>,
)
    ensures
        match shared_model(models, peers, id) {
            Some(model) => {
                &&& cohort(peers, id, model).len() > 0
                &&& forall|i: int|
                    0 <= i < models.len() ==> cohort(peers, id, #[trigger] models[i]).len()
                        <= cohort(peers, id, model).len()
                &&& exists|k: int|
                    0 <= k < models.len() && #[trigger] models[k] == model && forall|i: int|
                        0 <= i < k ==> cohort(peers, id, #[trigger] models[i]).len() < cohort(
                            peers,
                            id,
                            model,
                        ).len()
            },
            None => forall|i: int|
                0 <= i < models.len() ==> cohort(peers, id, #[trigger] models[i]).len() == 0,
        },
    decreases models.len(),
{
    if models.len() > 0 {
        let head = models.drop_last();
        let n = models.len() - 1;
        law_largest_cohort_decides(head, peers, id);
        assert forall|i: int| 0 <= i < n implies head[i] == #[trigger] models[i] by {}
        let best = shared_model(head, peers, id);
        if cohort(peers, id, models[n]).len() > best_size(best, peers, id) {
            assert forall|i: int| 0 <= i < n implies cohort(
                peers,
                id,
                #[trigger] models[i],
            ).len() < cohort(peers, id, models[n]).len() by {
                assert(head[i] == models[i]);
            }
            assert(models[n] == models.last());
        } else if best is Some {
            let k = choose|k: int|
                0 <= k < head.len() && #[trigger] head[k] == best->0 && forall|i: int|
                    0 <= i < k ==> cohort(peers, id, #[trigger] head[i]).len() < cohort(
                        peers,
                        id,
                        best->0,
                    ).len();
            assert(models[k] == best->0);
            assert forall|i: int| 0 <= i < k implies cohort(peers, id, #[trigger] models[i]).len()
                < cohort(peers, id, best->0).len() by {
                assert(head[i] == models[i]);
            }
            assert forall|i: int| 0 <= i < models.len() implies cohort(
                peers,
                id,
                #[trigger] models[i],
            ).len() <= cohort(peers, id, best->0).len() by {
                if i < n {
                    assert(head[i] == models[i]);
                }
            }
        } else {
            assert forall|i: int| 0 <= i < models.len() implies cohort(
                peers,
                id,
                #[trigger] models[i],
            ).len() == 0 by {
                if i < n {
                    assert(head[i] == models[i]);
                }
            }
        }
    }
}

/// How a peer that serves or hosts anything does it, by its split role.
pub open spec fn serving_mode(peer: PeerInfo, split: PeerSplitClassification) -> Option<Seq<char>> {
    if peer.serving_models@.len() == 0 && peer.hosted_models@.len() == 0 {
        None
    } else if split.moe_shard is Some {
        Some("moe_shard"@)
    } else if crate::text::opt_text(split.role) == Some("pipeline_host"@) {
        Some("split_host"@)
    } else if crate::text::opt_text(split.role) == Some("pipeline_worker"@) {
        Some("split_worker"@)
    } else {
        Some("solo"@)
    }
}

/// How a peer serves its models.
pub fn serving_mode_from_classification(peer: &PeerInfo, split: &PeerSplitClassification) -> (r:
    Option<String>)
    ensures
        crate::text::opt_text(r) == serving_mode(*peer, *split),
{
    if peer.serving_models.is_empty() && peer.hosted_models.is_empty() {
        return None;
    }
    if split.moe_shard.is_some() {
        return Some("moe_shard".to_owned());
    }
    match &split.role {
        Some(role) => if same_text(role.as_str(), "pipeline_host") {
            Some("split_host".to_owned())
        } else if same_text(role.as_str(), "pipeline_worker") {
            Some("split_worker".to_owned())
        } else {
            Some("solo".to_owned())
        },
        None => Some("solo".to_owned()),
    }
}

/// A figure fits into a memory if it is at most 95 percent of it.
pub open spec fn fits_in(vram_units: nat, size_units: nat) -> bool {
    rounded(vram_units * FIT_FACTOR as nat) >= size_units * vstd::arithmetic::power2::pow2(53)
}

/// A peer that answers for the model could hold it alone.
pub open spec fn some_router_fits(peers: Seq<PeerInfo>, model: Seq<char>, size_units: nat) -> bool {
    exists|i: int|
        0 <= i < peers.len() && (#[trigger] peers[i]).routes(model) && fits_in(
            units_of_bytes(peers[i].fast_memory() as u64),
            size_units,
        )
}

/// How the mesh serves a model.
pub open spec fn split_kind(
    model: Seq<char>,
    is_warm: bool,
    moe: bool,
    node_count: usize,
    size_units: nat,
    peers: Seq<PeerInfo>,
    my_vram_units: nat,
    local_serves: bool,
) -> Seq<char> {
    if !is_warm || node_count == 0 {
        "cold"@
    } else if node_count == 1 {
        "solo"@
    } else if moe {
        "moe"@
    } else if (local_serves && fits_in(my_vram_units, size_units)) || some_router_fits(
        peers,
        model,
        size_units,
    ) {
        "multi_host"@
    } else {
        "pipeline"@
    }
}

/// Classifies how the mesh serves a model: `cold` without a live host, `solo` on
/// one node, `moe` on several for a mixture of experts, `multi_host` on several
/// that each could hold it, `pipeline` otherwise.
pub fn classify_model_split_kind(
    model_name: &str,
    is_warm: bool,
    moe: bool,
    node_count: usize,
    size_gb: Gigabytes,
    all_peers: &[PeerInfo],
    my_vram_gb: Gigabytes,
    local_serves_this_model: bool,
) -> (r: String)
    requires
        size_gb.exponent() < EXPONENT_END,
        my_vram_gb.exponent() < EXPONENT_END,
    ensures
        r@ == split_kind(
            model_name@,
            is_warm,
            moe,
            node_count,
            size_gb.units(),
            all_peers@,
            my_vram_gb.units(),
            local_serves_this_model,
        ),
{
    if !is_warm || node_count == 0 {
        return "cold".to_owned();
    }
    if node_count == 1 {
        return "solo".to_owned();
    }
    if moe {
        return "moe".to_owned();
    }
    if local_serves_this_model && my_vram_gb.product_at_least(FIT_FACTOR, 53, &size_gb) {
        return "multi_host".to_owned();
    }
    let mut i: usize = 0;
    while i < all_peers.len()
        invariant
            i <= all_peers.len(),
            size_gb.exponent() < EXPONENT_END,
            is_warm && node_count > 1 && !moe,
            forall|j: int|
                0 <= j < i ==> !((#[trigger] all_peers@[j]).routes(model_name@) && fits_in(
                    units_of_bytes(all_peers@[j].fast_memory() as u64),
                    size_gb.units(),
                )),
        decreases all_peers.len() - i,
    {
        if all_peers[i].routes_http_model(model_name) {
            let vram = Gigabytes::from_bytes(all_peers[i].fast_memory_bytes());
            if vram.product_at_least(FIT_FACTOR, 53, &size_gb) {
                return "multi_host".to_owned();
            }
        }
        i = i + 1;
    }
    "pipeline".to_owned()
}

/// Whether the mesh as a whole has room for a model.
#[derive(Debug)]
pub struct MeshFitPayload {
    /// Some node has room for the model alone.
    pub fits_on_largest_node: bool,
    /// All eligible nodes together have room for it.
    pub fits_pooled: bool,
    pub pooled_vram_gb: Gigabytes,
    /// The size of the model with headroom.
    pub needed_vram_gb: Gigabytes,
    pub eligible_peer_count: u32,
}

/// The peer counts towards the pool: it is no client, no entry node, and has
/// memory.
pub open spec fn is_eligible(p: PeerInfo) -> bool {
    &&& !(p.role is Client)
    &&& !(p.hostname matches Some(h) && has_prefix(h@, "ip-"@))
    &&& units_of_bytes(p.fast_memory() as u64) > 0
}

/// The eligible peers.
pub open spec fn eligible(peers: Seq<PeerInfo>) -> Seq<PeerInfo>
    decreases peers.len(),
{
    if peers.len() == 0 {
        Seq::empty()
    } else if is_eligible(peers.last()) {
        eligible(peers.drop_last()).push(peers.last())
    } else {
        eligible(peers.drop_last())
    }
}

/// The pool: a figure to start from and the eligible peers, added one by one.
pub open spec fn pool_from(start: nat, peers: Seq<PeerInfo>) -> nat
    decreases peers.len(),
{
    if peers.len() == 0 {
        start
    } else {
        rounded(
            pool_from(start, peers.drop_last()) + units_of_bytes(
                peers.last().fast_memory() as u64,
            ),
        )
    }
}

/// Whether the peer counts towards the pool.
fn eligible_peer(p: &PeerInfo) -> (r: bool)
    ensures
        r == is_eligible(*p),
{
    if let NodeRole::Client = p.role {
        return false;
    }
    if let Some(hostname) = &p.hostname {
        if starts_with(hostname.as_str(), "ip-") {
            return false;
        }
    }
    Gigabytes::from_bytes(p.fast_memory_bytes()).is_positive()
}

/// The assessment of a model of the given size: what it needs with headroom, what
/// this node and the eligible peers have, and whether that is enough.
pub open spec fn is_mesh_fit(
    r: MeshFitPayload,
    size: nat,
    own: nat,
    peers: Seq<PeerInfo>,
) -> bool {
    &&& r.needed_vram_gb.units() * crate::double::SIGNIFICAND_START as nat == rounded(
        size * crate::double::ELEVEN_TENTHS as nat,
    )
    &&& r.pooled_vram_gb.units() == pool_from(own, eligible(peers))
    &&& r.eligible_peer_count == eligible(peers).len() + (if own > 0 {
        1int
    } else {
        0
    })
    &&& r.fits_pooled == (r.pooled_vram_gb.units() >= r.needed_vram_gb.units())
    &&& r.fits_on_largest_node == (own >= r.needed_vram_gb.units() || exists|i: int|
        0 <= i < peers.len() && is_eligible(#[trigger] peers[i]) && units_of_bytes(
            peers[i].fast_memory() as u64,
        ) >= r.needed_vram_gb.units())
}

/// Assesses whether the mesh has room for a model of the given size.
pub fn compute_mesh_fit(size_gb: Gigabytes, my_vram_gb: Gigabytes, all_peers: &[PeerInfo]) -> (r:
    MeshFitPayload)
    requires
        size_gb.exponent() < EXPONENT_END,
        my_vram_gb.exponent() + all_peers@.len() < EXPONENT_END,
        all_peers@.len() < u32::MAX,
    ensures
        is_mesh_fit(r, size_gb.units(), my_vram_gb.units(), all_peers@),
        rounded(my_vram_gb.units()) == my_vram_gb.units(),
        r.fits_on_largest_node ==> r.fits_pooled,
{
    let needed = size_gb.with_headroom();
    let mut largest = my_vram_gb.at_least(&needed);
    let mut pooled = my_vram_gb;
    let mut count: u32 = if my_vram_gb.is_positive() {
        1
    } else {
        0
    };
    let ghost own: int = count as int;
    let mut i: usize = 0;
    while i < all_peers.len()
        invariant
            i <= all_peers.len() < u32::MAX,
            my_vram_gb.exponent() + all_peers@.len() < EXPONENT_END,
            pooled.units() == pool_from(my_vram_gb.units(), eligible(all_peers@.take(i as int))),
            pooled.exponent() <= my_vram_gb.exponent() + i || pooled.exponent() <= 73 + i,
            0 <= own <= 1,
            count == eligible(all_peers@.take(i as int)).len() + own,
            count <= i + 1,
            largest == (my_vram_gb.units() >= needed.units() || exists|j: int|
                0 <= j < i && is_eligible(#[trigger] all_peers@[j]) && units_of_bytes(
                    all_peers@[j].fast_memory() as u64,
                ) >= needed.units()),
        decreases all_peers.len() - i,
    {
        proof {
            let now = all_peers@.take(i + 1);
            assert(now.drop_last() =~= all_peers@.take(i as int));
            assert(now.last() == all_peers@[i as int]);
            if is_eligible(all_peers@[i as int]) {
                assert(eligible(now).drop_last() =~= eligible(all_peers@.take(i as int)));
            }
        }
        let ghost before = largest;
        if eligible_peer(&all_peers[i]) {
            let vram = Gigabytes::from_bytes(all_peers[i].fast_memory_bytes());
            count = count + 1;
            pooled = pooled.plus(&vram);
            if vram.at_least(&needed) {
                largest = true;
                assert(is_eligible(all_peers@[i as int]));
            }
        }
        i = i + 1;
    }
    assert(all_peers@.take(i as int) =~= all_peers@);
    let fits_pooled = pooled.at_least(&needed);
    let fit = MeshFitPayload {
        fits_on_largest_node: largest,
        fits_pooled,
        pooled_vram_gb: pooled,
        needed_vram_gb: needed,
        eligible_peer_count: count,
    };
    proof {
        law_one_node_suffices(fit, size_gb.units(), my_vram_gb.units(), all_peers@);
    }
    fit
}

/// The pool never shrinks when a peer joins, and never falls below the figure it
/// started from.
pub proof fn law_pool_only_grows(start: nat, peers: Seq<PeerInfo>, p: PeerInfo)
    requires
        rounded(start) == start,
    ensures
        pool_from(start, peers.push(p)) >= pool_from(start, peers),
        pool_from(start, peers) >= start,
    decreases peers.len(),
{
    lemma_pool_is_rounded(start, peers);
    let here = pool_from(start, peers);
    assert(peers.push(p).drop_last() =~= peers);
    crate::double::lemma_rounded_monotone(
        here,
        here + units_of_bytes(p.fast_memory() as u64),
    );
    if peers.len() > 0 {
        law_pool_only_grows(start, peers.drop_last(), peers.last());
        assert(peers.drop_last().push(peers.last()) =~= peers);
    }
}

/// A peer's memory is no more than the pool that it belongs to.
proof fn lemma_pool_covers(start: nat, peers: Seq<PeerInfo>, i: int)
    requires
        rounded(start) == start,
        0 <= i < peers.len(),
    ensures
        pool_from(start, peers) >= units_of_bytes(peers[i].fast_memory() as u64),
    decreases peers.len(),
{
    let head = peers.drop_last();
    let before = pool_from(start, head);
    if i == peers.len() - 1 {
        let m = units_of_bytes(peers[i].fast_memory() as u64);
        lemma_units_are_double(peers[i].fast_memory() as u64);
        crate::double::lemma_rounded_monotone(m, before + m);
    } else {
        lemma_pool_covers(start, head, i);
        assert(head[i] == peers[i]);
        law_pool_only_grows(start, head, peers.last());
        assert(head.push(peers.last()) =~= peers);
    }
}

/// The figure for a number of bytes is a double.
proof fn lemma_units_are_double(bytes: u64)
    ensures
        rounded(units_of_bytes(bytes)) == units_of_bytes(bytes),
{
    if bytes == 0 {
        crate::double::lemma_rounded_exact(0);
    } else {
        crate::double::lemma_quotient_is_double(
            rounded(bytes as nat) * vstd::arithmetic::power2::pow2(
                crate::gigabytes::UNIT_BITS as nat,
            ),
            crate::gigabytes::GIGA as nat,
        );
    }
}

/// An eligible peer is among the eligible ones.
proof fn lemma_eligible_contains(peers: Seq<PeerInfo>, i: int) -> (k: int)
    requires
        0 <= i < peers.len(),
        is_eligible(peers[i]),
    ensures
        0 <= k < eligible(peers).len(),
        eligible(peers)[k] == peers[i],
    decreases peers.len(),
{
    if i == peers.len() - 1 {
        eligible(peers).len() - 1
    } else {
        let k = lemma_eligible_contains(peers.drop_last(), i);
        k
    }
}

/// The figure for a number of bytes is zero only for no bytes.
proof fn lemma_units_are_positive(bytes: u64)
    ensures
        units_of_bytes(bytes) > 0 <==> bytes > 0,
{
    if bytes > 0 {
        let p = vstd::arithmetic::power2::pow2(crate::gigabytes::UNIT_BITS as nat);
        crate::double::lemma_rounded_exact(1);
        crate::double::lemma_rounded_monotone(1, bytes as nat);
        vstd::arithmetic::power2::lemma2_to64();
        vstd::arithmetic::power2::lemma_pow2_strictly_increases(
            32,
            crate::gigabytes::UNIT_BITS as nat,
        );
        let x = rounded(bytes as nat);
        assert(x * p >= p) by (nonlinear_arith)
            requires
                x >= 1,
        ;
        crate::double::lemma_quotient_is_positive(x * p, crate::gigabytes::GIGA as nat);
    }
}

/// What fits on one node fits the mesh: a model that this node or an eligible peer
/// has room for is never said to need more contributors.
pub proof fn law_one_node_suffices(r: MeshFitPayload, size: nat, own: nat, peers: Seq<PeerInfo>)
    requires
        rounded(own) == own,
        is_mesh_fit(r, size, own, peers),
    ensures
        r.fits_on_largest_node ==> r.fits_pooled,
{
    if r.fits_on_largest_node && own < r.needed_vram_gb.units() {
        let i = choose|i: int|
            0 <= i < peers.len() && is_eligible(#[trigger] peers[i]) && units_of_bytes(
                peers[i].fast_memory() as u64,
            ) >= r.needed_vram_gb.units();
        let k = lemma_eligible_contains(peers, i);
        lemma_pool_covers(own, eligible(peers), k);
    } else if eligible(peers).len() > 0 {
        let list = eligible(peers);
        law_pool_only_grows(own, list.drop_last(), list.last());
        assert(list.drop_last().push(list.last()) =~= list);
    }
}

/// One more peer never takes a fit away. A client, an entry node or a peer without
/// memory changes nothing; any other peer is counted.
pub proof fn law_one_more_peer_keeps_the_fit(
    a: MeshFitPayload,
    b: MeshFitPayload,
    size: nat,
    own: nat,
    peers: Seq<PeerInfo>,
    q: PeerInfo,
)
    requires
        rounded(own) == own,
        is_mesh_fit(a, size, own, peers),
        is_mesh_fit(b, size, own, peers.push(q)),
    ensures
        b.needed_vram_gb.units() == a.needed_vram_gb.units(),
        a.fits_on_largest_node ==> b.fits_on_largest_node,
        a.fits_pooled ==> b.fits_pooled,
        is_eligible(q) <==> {
            &&& !(q.role is Client)
            &&& !(q.hostname matches Some(h) && has_prefix(h@, "ip-"@))
            &&& q.fast_memory() > 0
        },
        is_eligible(q) ==> b.eligible_peer_count == a.eligible_peer_count + 1,
        !is_eligible(q) ==> {
            &&& b.eligible_peer_count == a.eligible_peer_count
            &&& b.pooled_vram_gb.units() == a.pooled_vram_gb.units()
            &&& b.fits_pooled == a.fits_pooled
            &&& b.fits_on_largest_node == a.fits_on_largest_node
        },
{
    let more = peers.push(q);
    assert(more.drop_last() =~= peers);
    assert(more.last() == q);
    lemma_units_are_positive(q.fast_memory() as u64);
    let (x, y) = (a.needed_vram_gb.units(), b.needed_vram_gb.units());
    assert(x == y) by (nonlinear_arith)
        requires
            x * crate::double::SIGNIFICAND_START as nat == y
                * crate::double::SIGNIFICAND_START as nat,
    ;
    if is_eligible(q) {
        law_pool_only_grows(own, eligible(peers), q);
    }
    if a.fits_on_largest_node && own < x {
        let i = choose|i: int|
            0 <= i < peers.len() && is_eligible(#[trigger] peers[i]) && units_of_bytes(
                peers[i].fast_memory() as u64,
            ) >= x;
        assert(more[i] == peers[i]);
    }
    if b.fits_on_largest_node && own < x && !is_eligible(q) {
        let i = choose|i: int|
            0 <= i < more.len() && is_eligible(#[trigger] more[i]) && units_of_bytes(
                more[i].fast_memory() as u64,
            ) >= x;
        assert(more[i] == peers[i]);
    }
}

proof fn lemma_pool_is_rounded(start: nat, peers: Seq<PeerInfo>)
    requires
        rounded(start) == start,
    ensures
        rounded(pool_from(start, peers)) == pool_from(start, peers),
{
    if peers.len() > 0 {
        crate::double::lemma_rounded_idempotent(
            pool_from(start, peers.drop_last()) + units_of_bytes(
                peers.last().fast_memory() as u64,
            ),
        );
    }
}

/// The nodes that answer for a model over HTTP.
#[derive(Debug)]
pub struct HttpRouteStats {
    pub node_count: usize,
    pub active_nodes: Vec<String>,
    pub mesh_vram_gb: Gigabytes,
}

/// The name under which a node is listed: its host name, if it has one, or else
/// `fallback`.
pub open spec fn node_name(hostname: Option<Seq<char>>, fallback: Seq<char>) -> Seq<char> {
    match hostname {
        Some(name) => if says_something(name) {
            name
        } else {
            fallback
        },
        None => fallback,
    }
}

/// The peers that answer for the model.
pub open spec fn routers(peers: Seq<PeerInfo>, model: Seq<char>) -> Seq<PeerInfo>
    decreases peers.len(),
{
    if peers.len() == 0 {
        Seq::empty()
    } else if peers.last().routes(model) {
        routers(peers.drop_last(), model).push(peers.last())
    } else {
        routers(peers.drop_last(), model)
    }
}

/// The names of the peers.
pub open spec fn peer_names(peers: Seq<PeerInfo>) -> Seq<Seq<char>> {
    peers.map_values(
        |p: PeerInfo| node_name(crate::text::opt_text(p.hostname), p.short_id@),
    )
}

/// The name of a node.
fn name_of(hostname: Option<&String>, fallback: &str) -> (r: String)
    ensures
        r@ == node_name(
            match hostname {
                Some(h) => Some(h@),
                None => None,
            },
            fallback@,
        ),
{
    match hostname {
        Some(name) => if nonblank(name.as_str()) {
            name.clone()
        } else {
            fallback.to_owned()
        },
        None => fallback.to_owned(),
    }
}

/// The name list before sorting: the local node, if it hosts the model, then the
/// peers that answer for it.
pub open spec fn route_names(
    own: bool,
    my_hostname: Option<Seq<char>>,
    answering: Seq<PeerInfo>,
) -> Seq<Seq<char>> {
    (if own {
        seq![node_name(my_hostname, "This node"@)]
    } else {
        Seq::empty()
    }) + peer_names(answering)
}

/// The nodes that answer for a model: their number, their names without repeats,
/// and their memory added up.
pub open spec fn is_route_stats(
    r: HttpRouteStats,
    model: Seq<char>,
    peers: Seq<PeerInfo>,
    hosted: Seq<Seq<char>>,
    hostname: Option<Seq<char>>,
    my_units: nat,
) -> bool {
    let own = hosted.contains(model);
    let answering = routers(peers, model);
    &&& r.node_count == answering.len() + (if own {
        1int
    } else {
        0
    })
    &&& texts(r.active_nodes@) == unique_sorted(route_names(own, hostname, answering))
    &&& r.mesh_vram_gb.units() == pool_from(
        if own {
            my_units
        } else {
            0
        },
        answering,
    )
}

/// Collects the nodes that answer for a model over HTTP.
pub fn http_route_stats(
    model_name: &str,
    peers: &[PeerInfo],
    my_hosted_models: &[String],
    my_hostname: Option<&String>,
    my_vram_gb: Gigabytes,
) -> (r: HttpRouteStats)
    requires
        my_vram_gb.exponent() + peers@.len() < EXPONENT_END,
        peers@.len() < usize::MAX,
    ensures
        is_route_stats(
            r,
            model_name@,
            peers@,
            texts(my_hosted_models@),
            match my_hostname {
                Some(h) => Some(h@),
                None => None,
            },
            my_vram_gb.units(),
        ),
{
    let own = any_text(my_hosted_models, model_name);
    let ghost hostname = match my_hostname {
        Some(h) => Some(h@),
        None => None,
    };
    let mut names: Vec<String> = Vec::new();
    let mut count: usize = 0;
    let mut vram = Gigabytes::zero();
    if own {
        count = 1;
        vram = my_vram_gb;
        names.push(name_of(my_hostname, "This node"));
    }
    let ghost start = vram.units();
    let ghost first = count as int;
    assert(texts(names@) =~= route_names(own, hostname, routers(peers@.take(0), model_name@)));
    let mut i: usize = 0;
    while i < peers.len()
        invariant
            i <= peers.len() < usize::MAX,
            my_vram_gb.exponent() + peers@.len() < EXPONENT_END,
            0 <= first <= 1,
            count == first + routers(peers@.take(i as int), model_name@).len(),
            count <= i + 1,
            vram.exponent() <= my_vram_gb.exponent() + i || vram.exponent() <= 73 + i,
            vram.units() == pool_from(start, routers(peers@.take(i as int), model_name@)),
            texts(names@) == route_names(
                own,
                hostname,
                routers(peers@.take(i as int), model_name@),
            ),
        decreases peers.len() - i,
    {
        let ghost was = routers(peers@.take(i as int), model_name@);
        let ghost now = routers(peers@.take(i + 1), model_name@);
        proof {
            assert(peers@.take(i + 1).drop_last() =~= peers@.take(i as int));
            assert(peers@.take(i + 1).last() == peers@[i as int]);
        }
        if peers[i].routes_http_model(model_name) {
            assert(now.drop_last() =~= was);
            let ghost before = names@;
            count = count + 1;
            vram = vram.plus(&Gigabytes::from_bytes(peers[i].fast_memory_bytes()));
            let name = name_of(peers[i].hostname.as_ref(), peers[i].short_id.as_str());
            names.push(name);
            proof {
                assert(texts(names@) =~= texts(before).push(name@));
                assert(peer_names(now) =~= peer_names(was).push(name@));
                assert(texts(names@) =~= route_names(own, hostname, now));
            }
        }
        i = i + 1;
    }
    assert(peers@.take(i as int) =~= peers@);
    let active_nodes = sort_unique(names.as_slice());
    HttpRouteStats { node_count: count, active_nodes, mesh_vram_gb: vram }
}

/// The fast memory of the peers in bytes, added up.
pub open spec fn bytes_of_all(peers: Seq<PeerInfo>) -> int {
    peers.fold_left(0int, |t: int, p: PeerInfo| t + p.fast_memory())
}

proof fn lemma_bytes_of_all(peers: Seq<PeerInfo>)
    ensures
        peers.len() == 0 ==> bytes_of_all(peers) == 0,
        peers.len() > 0 ==> bytes_of_all(peers) == bytes_of_all(peers.drop_last())
            + peers.last().fast_memory(),
        bytes_of_all(peers) >= 0,
    decreases peers.len(),
{
    if peers.len() > 0 {
        lemma_bytes_of_all(peers.drop_last());
    }
}

/// Peers with whole gigabytes of memory pool exactly the sum of it, whatever figure in
/// whole gigabytes the pool starts from.
pub proof fn law_pool_is_the_sum(g: nat, peers: Seq<PeerInfo>)
    requires
        forall|i: int|
            0 <= i < peers.len() ==> (#[trigger] peers[i]).fast_memory() % 1_000_000_000 == 0
                && peers[i].fast_memory() <= 4_000_000_000_000_000_000,
        g * 1_000_000_000 + bytes_of_all(peers) <= 9_000_000_000_000_000_000_000_000,
    ensures
        bytes_of_all(peers) % 1_000_000_000 == 0,
        pool_from(g * vstd::arithmetic::power2::pow2(90), peers) == (g + bytes_of_all(peers)
            / 1_000_000_000) * vstd::arithmetic::power2::pow2(90),
    decreases peers.len(),
{
    let p = vstd::arithmetic::power2::pow2(90);
    lemma_bytes_of_all(peers);
    if peers.len() > 0 {
        let head = peers.drop_last();
        assert forall|i: int| 0 <= i < head.len() implies (#[trigger] head[i]).fast_memory()
            % 1_000_000_000 == 0 && head[i].fast_memory() <= 4_000_000_000_000_000_000 by {
            assert(head[i] == peers[i]);
        }
        let last = peers[peers.len() - 1];
        let m = (last.fast_memory() / 1_000_000_000) as nat;
        assert(last.fast_memory() == m * 1_000_000_000);
        lemma_bytes_of_all(head);
        law_pool_is_the_sum(g, head);
        crate::gigabytes::law_whole_gigabytes(m);
        let k = bytes_of_all(head) / 1_000_000_000;
        assert(bytes_of_all(head) == k * 1_000_000_000);
        assert(bytes_of_all(peers) == (k + m) * 1_000_000_000);
        let before = (g + bytes_of_all(head) / 1_000_000_000) as nat;
        assert(before * p + m * p == (before + m) * p) by (nonlinear_arith);
        crate::double::lemma_rounded_exact(before + m);
        crate::double::lemma_rounded_scales(before + m, 90);
    }
}

proof fn lemma_pool_from_nothing(peers: Seq<PeerInfo>)
    ensures
        pooled_units(peers) == pool_from(0, peers),
    decreases peers.len(),
{
    if peers.len() > 0 {
        lemma_pool_from_nothing(peers.drop_last());
    }
}

proof fn lemma_cohort_is_filter(
    peers: Seq<PeerInfo>,
    id: Option<Seq<char>>,
    model: Seq<char>,
    keep: spec_fn(PeerInfo) -> bool,
)
    requires
        forall|p: PeerInfo| #[trigger] keep(p) <==> id != Some(p.id@) && p.is_assigned(model),
    ensures
        cohort(peers, id, model) == peers.filter(keep),
    decreases peers.len(),
{
    reveal(Seq::filter);
    if peers.len() > 0 {
        lemma_cohort_is_filter(peers.drop_last(), id, model, keep);
    } else {
        assert(cohort(peers, id, model) =~= peers.filter(keep));
    }
}

/// A cohort holds every other peer that takes part in serving the model, in the order
/// of the peers, and nobody else.
pub proof fn law_cohort_is_everybody_else(
    peers: Seq<PeerInfo>,
    id: Option<Seq<char>>,
    model: Seq<char>,
)
    ensures
        cohort(peers, id, model) == peers.filter(
            |p: PeerInfo| id != Some(p.id@) && p.is_assigned(model),
        ),
{
    lemma_cohort_is_filter(
        peers,
        id,
        model,
        |p: PeerInfo| id != Some(p.id@) && p.is_assigned(model),
    );
}

/// The memory of a split group is that of all its members added up: with whole
/// gigabytes it is exactly the peer's own and that of every other peer that takes part
/// in serving the model.
pub proof fn law_group_memory_adds_up(peer: PeerInfo, all: Seq<PeerInfo>)
    requires
        peer_split(peer, all) is Some,
        peer.fast_memory() % 1_000_000_000 == 0,
        peer.fast_memory() <= 4_000_000_000_000_000_000,
        forall|i: int|
            0 <= i < all.len() ==> (#[trigger] all[i]).fast_memory() % 1_000_000_000 == 0
                && all[i].fast_memory() <= 4_000_000_000_000_000_000,
        peer.fast_memory() + bytes_of_all(
            all.filter(
                |p: PeerInfo|
                    Some(peer.id@) != Some(p.id@) && p.is_assigned(peer_split(peer, all)->0.model),
            ),
        ) <= 9_000_000_000_000_000_000_000_000,
    ensures
        peer_split(peer, all)->0.vram_units == ((peer.fast_memory() + bytes_of_all(
            all.filter(
                |p: PeerInfo|
                    Some(peer.id@) != Some(p.id@) && p.is_assigned(peer_split(peer, all)->0.model),
            ),
        )) / 1_000_000_000) * vstd::arithmetic::power2::pow2(90),
{
    let model = peer_split(peer, all)->0.model;
    let others = cohort(all, Some(peer.id@), model);
    law_cohort_is_everybody_else(all, Some(peer.id@), model);
    lemma_whole_members(all, Some(peer.id@), model);
    let own = (peer.fast_memory() / 1_000_000_000) as nat;
    assert(peer.fast_memory() == own * 1_000_000_000);
    crate::gigabytes::law_whole_gigabytes(own);
    lemma_group_of_whole_gigabytes(own, others);
}

/// The same of the local node's group.
pub proof fn law_local_group_memory_adds_up(
    self_id: Seq<char>,
    is_host: bool,
    models: Seq<Seq<char>>,
    own: nat,
    all: Seq<PeerInfo>,
    model: Seq<char>,
)
    requires
        local_split(
            self_id,
            is_host,
            false,
            models,
            own * vstd::arithmetic::power2::pow2(90),
            all,
        ) matches Some(s) && s.model == model,
        forall|i: int|
            0 <= i < all.len() ==> (#[trigger] all[i]).fast_memory() % 1_000_000_000 == 0
                && all[i].fast_memory() <= 4_000_000_000_000_000_000,
        own * 1_000_000_000 + bytes_of_all(all.filter(|p: PeerInfo| p.is_assigned(model)))
            <= 9_000_000_000_000_000_000_000_000,
    ensures
        local_split(
            self_id,
            is_host,
            false,
            models,
            own * vstd::arithmetic::power2::pow2(90),
            all,
        )->0.vram_units == (own + bytes_of_all(
            all.filter(|p: PeerInfo| p.is_assigned(model)),
        ) / 1_000_000_000) * vstd::arithmetic::power2::pow2(90),
{
    let others = cohort(all, None, model);
    lemma_cohort_is_filter(all, None, model, |p: PeerInfo| p.is_assigned(model));
    lemma_whole_members(all, None, model);
    lemma_group_of_whole_gigabytes(own, others);
}

proof fn lemma_whole_members(all: Seq<PeerInfo>, id: Option<Seq<char>>, model: Seq<char>)
    requires
        forall|i: int|
            0 <= i < all.len() ==> (#[trigger] all[i]).fast_memory() % 1_000_000_000 == 0
                && all[i].fast_memory() <= 4_000_000_000_000_000_000,
    ensures
        forall|i: int|
            0 <= i < cohort(all, id, model).len() ==> (#[trigger] cohort(
                all,
                id,
                model,
            )[i]).fast_memory() % 1_000_000_000 == 0 && cohort(all, id, model)[i].fast_memory()
                <= 4_000_000_000_000_000_000,
{
    let others = cohort(all, id, model);
    assert forall|k: int| 0 <= k < others.len() implies (#[trigger] others[k]).fast_memory()
        % 1_000_000_000 == 0 && others[k].fast_memory() <= 4_000_000_000_000_000_000 by {
        let i = lemma_from_cohort(all, id, model, k);
        assert(others[k] == all[i]);
    }
}

proof fn lemma_group_of_whole_gigabytes(own: nat, others: Seq<PeerInfo>)
    requires
        forall|i: int|
            0 <= i < others.len() ==> (#[trigger] others[i]).fast_memory() % 1_000_000_000 == 0
                && others[i].fast_memory() <= 4_000_000_000_000_000_000,
        own * 1_000_000_000 + bytes_of_all(others) <= 9_000_000_000_000_000_000_000_000,
    ensures
        bytes_of_all(others) % 1_000_000_000 == 0,
        bytes_of_all(others) >= 0,
        rounded(own * vstd::arithmetic::power2::pow2(90) + pooled_units(others)) == (own
            + bytes_of_all(others) / 1_000_000_000) * vstd::arithmetic::power2::pow2(90),
{
    let p = vstd::arithmetic::power2::pow2(90);
    lemma_bytes_of_all(others);
    lemma_pool_from_nothing(others);
    law_pool_is_the_sum(0, others);
    assert(0 * p == 0);
    let g = (bytes_of_all(others) / 1_000_000_000) as nat;
    assert(own * p + g * p == (own + g) * p) by (nonlinear_arith);
    crate::double::lemma_rounded_exact(own + g);
    crate::double::lemma_rounded_scales(own + g, 90);
}

/// One more member raises the memory of a group by the member's own, up to one part in
/// two to the power 51; a peer that takes no part in serving the model changes nothing.
pub proof fn law_one_more_member(peer: PeerInfo, all: Seq<PeerInfo>, q: PeerInfo)
    requires
        peer_split(peer, all) is Some,
        peer_split(peer, all.push(q)) is Some,
        peer_split(peer, all.push(q))->0.model == peer_split(peer, all)->0.model,
    ensures
        ({
            let before = peer_split(peer, all)->0;
            let after = peer_split(peer, all.push(q))->0;
            let more = before.vram_units + units_of_bytes(q.fast_memory() as u64);
            if q.id@ != peer.id@ && q.is_assigned(before.model) {
                &&& after.vram_units * 2_251_799_813_685_248 <= more * 2_251_799_813_685_249
                &&& after.vram_units * 2_251_799_813_685_248 >= more * 2_251_799_813_685_247
            } else {
                after.vram_units == before.vram_units && after.peer_ids == before.peer_ids
            }
        }),
{
    let id = Some(peer.id@);
    let model = peer_split(peer, all)->0.model;
    assert(all.push(q).drop_last() =~= all);
    assert(all.push(q).last() == q);
    let others = cohort(all, id, model);
    if q.id@ != peer.id@ && q.is_assigned(model) {
        let m = units_of_bytes(q.fast_memory() as u64);
        let own = units_of_bytes(peer.fast_memory() as u64);
        let pooled = pooled_units(others);
        assert(cohort(all.push(q), id, model) == others.push(q));
        assert(others.push(q).drop_last() =~= others);
        crate::double::law_rounding_error(pooled + m);
        crate::double::law_rounding_error(own + pooled);
        crate::double::law_rounding_error(own + rounded(pooled + m));
    }
}

/// The members of a group are the peer and every other peer that takes part in serving
/// the model; each is listed once, in ascending order.
pub proof fn law_group_lists_its_members(peer: PeerInfo, all: Seq<PeerInfo>, short_id: Seq<char>)
    ensures
        peer_split(peer, all) matches Some(s) ==> {
            &&& s.peer_ids.contains(short_id) <==> short_id == peer.short_id@ || exists|i: int|
                0 <= i < all.len() && (#[trigger] all[i]).short_id@ == short_id && all[i].id@
                    != peer.id@ && all[i].is_assigned(s.model)
            &&& forall|i: int, j: int|
                0 <= i < j < s.peer_ids.len() ==> crate::order::text_le(
                    #[trigger] s.peer_ids[i],
                    #[trigger] s.peer_ids[j],
                ) && s.peer_ids[i] != s.peer_ids[j]
        },
{
    match peer_split(peer, all) {
        Some(s) => {
            let others = cohort(all, Some(peer.id@), s.model);
            lemma_group_ids(all, Some(peer.id@), s.model, peer.short_id@, short_id);
            crate::order::law_unique_sorted(seq![peer.short_id@] + short_ids(others));
        },
        None => {},
    }
}

/// The same of the local node's group.
pub proof fn law_local_group_lists_its_members(
    self_id: Seq<char>,
    is_host: bool,
    is_client: bool,
    models: Seq<Seq<char>>,
    vram_units: nat,
    all: Seq<PeerInfo>,
    short_id: Seq<char>,
)
    ensures
        local_split(self_id, is_host, is_client, models, vram_units, all) matches Some(s) ==> {
            &&& s.peer_ids.contains(short_id) <==> short_id == self_id || exists|i: int|
                0 <= i < all.len() && (#[trigger] all[i]).short_id@ == short_id
                    && all[i].is_assigned(s.model)
            &&& forall|i: int, j: int|
                0 <= i < j < s.peer_ids.len() ==> crate::order::text_le(
                    #[trigger] s.peer_ids[i],
                    #[trigger] s.peer_ids[j],
                ) && s.peer_ids[i] != s.peer_ids[j]
        },
{
    match local_split(self_id, is_host, is_client, models, vram_units, all) {
        Some(s) => {
            let others = cohort(all, None, s.model);
            lemma_group_ids(all, None, s.model, self_id, short_id);
            crate::order::law_unique_sorted(seq![self_id] + short_ids(others));
        },
        None => {},
    }
}

proof fn lemma_group_ids(
    all: Seq<PeerInfo>,
    id: Option<Seq<char>>,
    model: Seq<char>,
    own: Seq<char>,
    short_id: Seq<char>,
)
    ensures
        (seq![own] + short_ids(cohort(all, id, model))).contains(short_id) <==> short_id == own
            || exists|i: int|
            0 <= i < all.len() && (#[trigger] all[i]).short_id@ == short_id && id != Some(
                all[i].id@,
            ) && all[i].is_assigned(model),
{
    let others = cohort(all, id, model);
    let ids = seq![own] + short_ids(others);
    if short_id == own {
        assert(ids[0] == own);
    }
    if exists|i: int|
        0 <= i < all.len() && (#[trigger] all[i]).short_id@ == short_id && id != Some(all[i].id@)
            && all[i].is_assigned(model) {
        let i = choose|i: int|
            0 <= i < all.len() && (#[trigger] all[i]).short_id@ == short_id && id != Some(
                all[i].id@,
            ) && all[i].is_assigned(model);
        let k = lemma_in_cohort(all, id, model, i);
        assert(ids[k + 1] == short_id);
    }
    if ids.contains(short_id) {
        let k = choose|k: int| 0 <= k < ids.len() && ids[k] == short_id;
        if k > 0 {
            assert(others[k - 1].short_id@ == short_id);
            let i = lemma_from_cohort(all, id, model, k - 1);
        }
    }
}

/// A peer that takes part is in the cohort.
proof fn lemma_in_cohort(all: Seq<PeerInfo>, id: Option<Seq<char>>, model: Seq<char>, i: int) -> (k:
    int)
    requires
        0 <= i < all.len(),
        id != Some(all[i].id@),
        all[i].is_assigned(model),
    ensures
        0 <= k < cohort(all, id, model).len(),
        cohort(all, id, model)[k] == all[i],
    decreases all.len(),
{
    if i == all.len() - 1 {
        cohort(all, id, model).len() - 1
    } else {
        lemma_in_cohort(all.drop_last(), id, model, i)
    }
}

/// Who is in the cohort takes part.
proof fn lemma_from_cohort(
    all: Seq<PeerInfo>,
    id: Option<Seq<char>>,
    model: Seq<char>,
    k: int,
) -> (i: int)
    requires
        0 <= k < cohort(all, id, model).len(),
    ensures
        0 <= i < all.len(),
        id != Some(all[i].id@),
        all[i].is_assigned(model),
        cohort(all, id, model)[k] == all[i],
    decreases all.len(),
{
    let head = cohort(all.drop_last(), id, model);
    if k < head.len() {
        let i = lemma_from_cohort(all.drop_last(), id, model, k);
        assert(all.drop_last()[i] == all[i]);
        i
    } else {
        all.len() - 1
    }
}

/// The size that the mesh goes by is the largest that a peer has observed: no peer has
/// observed a larger one, and some peer has observed it, unless it is zero.
pub proof fn law_largest_observation_counts(peers: Seq<PeerInfo>, model: Seq<char>)
    ensures
        forall|i: int|
            0 <= i < peers.len() && (#[trigger] peers[i]).available_model_sizes@.contains_key(model)
                ==> peers[i].available_model_sizes@[model] <= observed_bytes(peers, model),
        observed_bytes(peers, model) > 0 ==> exists|i: int|
            0 <= i < peers.len() && (#[trigger] peers[i]).available_model_sizes@.contains_key(model)
                && peers[i].available_model_sizes@[model] == observed_bytes(peers, model),
    decreases peers.len(),
{
    if peers.len() > 0 {
        let head = peers.drop_last();
        law_largest_observation_counts(head, model);
        assert(peers.last() == peers[peers.len() - 1]);
        assert forall|i: int|
            0 <= i < peers.len() && (#[trigger] peers[i]).available_model_sizes@.contains_key(
                model,
            ) implies peers[i].available_model_sizes@[model] <= observed_bytes(peers, model) by {
            if i < head.len() {
                assert(head[i] == peers[i]);
            }
        }
        if observed_bytes(peers, model) == observed_bytes(head, model) && observed_bytes(
            head,
            model,
        ) > 0 {
            let i = choose|i: int|
                0 <= i < head.len() && (#[trigger] head[i]).available_model_sizes@.contains_key(
                    model,
                ) && head[i].available_model_sizes@[model] == observed_bytes(head, model);
            assert(peers[i] == head[i]);
        }
    }
}

/// The host of a model is the first peer that answers for it.
pub proof fn law_first_answer_counts(peers: Seq<PeerInfo>, model: Seq<char>, from: int)
    requires
        0 <= from,
    ensures
        match first_router(peers, model, from) {
            Some(i) => from <= i < peers.len() && peers[i].routes(model) && forall|j: int|
                from <= j < i ==> !(#[trigger] peers[j]).routes(model),
            None => forall|j: int|
                from <= j < peers.len() ==> !(#[trigger] peers[j]).routes(model),
        },
    decreases peers.len() - from,
{
    if from < peers.len() && !peers[from].routes(model) {
        law_first_answer_counts(peers, model, from + 1);
    }
}

proof fn lemma_no_routers(peers: Seq<PeerInfo>, id: Option<Seq<char>>, model: Seq<char>)
    requires
        forall|i: int| 0 <= i < peers.len() ==> !(#[trigger] peers[i]).routes(model),
    ensures
        router_count(peers, id, model) == 0,
    decreases peers.len(),
{
    if peers.len() > 0 {
        let head = peers.drop_last();
        assert forall|i: int| 0 <= i < head.len() implies !(#[trigger] head[i]).routes(model) by {
            assert(head[i] == peers[i]);
        }
        assert(peers.last() == peers[peers.len() - 1]);
        lemma_no_routers(head, id, model);
    }
}

proof fn lemma_one_router(
    peers: Seq<PeerInfo>,
    id: Option<Seq<char>>,
    model: Seq<char>,
    host: int,
)
    requires
        0 <= host < peers.len(),
        forall|i: int| 0 <= i < peers.len() && i != host ==> !(#[trigger] peers[i]).routes(model),
        peers[host].routes(model),
    ensures
        router_count(peers, id, model) == if id != Some(peers[host].id@) {
            1nat
        } else {
            0
        },
    decreases peers.len(),
{
    let head = peers.drop_last();
    assert(peers.last() == peers[peers.len() - 1]);
    if host < head.len() {
        assert forall|i: int| 0 <= i < head.len() && i != host implies !(
        #[trigger] head[i]).routes(model) by {
            assert(head[i] == peers[i]);
        }
        assert(head[host] == peers[host]);
        lemma_one_router(head, id, model, host);
    } else {
        assert forall|i: int| 0 <= i < head.len() implies !(#[trigger] head[i]).routes(model) by {
            assert(head[i] == peers[i]);
        }
        lemma_no_routers(head, id, model);
    }
}

/// The only model that others take part in serving is the shared one.
proof fn lemma_only_shared_model(
    models: Seq<Seq<char>>,
    all: Seq<PeerInfo>,
    id: Option<Seq<char>>,
    model: Seq<char>,
    other: int,
)
    requires
        models.contains(model),
        0 <= other < all.len(),
        id != Some(all[other].id@),
        all[other].is_assigned(model),
        forall|i: int, k: int|
            0 <= i < all.len() && 0 <= k < models.len() && id != Some((#[trigger] all[i]).id@)
                && all[i].is_assigned(#[trigger] models[k]) ==> models[k] == model,
    ensures
        shared_model(models, all, id) == Some(model),
{
    law_largest_cohort_decides(models, all, id);
    let k = choose|k: int| 0 <= k < models.len() && models[k] == model;
    let place = lemma_in_cohort(all, id, model, other);
    assert(cohort(all, id, models[k]).len() > 0);
    match shared_model(models, all, id) {
        Some(m) => {
            let j = choose|j: int|
                0 <= j < models.len() && #[trigger] models[j] == m && forall|i: int|
                    0 <= i < j ==> cohort(all, id, #[trigger] models[i]).len() < cohort(
                        all,
                        id,
                        m,
                    ).len();
            let i = lemma_from_cohort(all, id, m, 0);
            assert(all[i].is_assigned(models[j]));
        },
        None => {},
    }
}

/// A split that exists is reported: a peer that is no client, shares just one model
/// with others, and shares it with a single peer that answers for it and has observed
/// sizes against it that it cannot hold with headroom, is part of a group under that
/// host. It is the host of it if it answers for the model itself, and a worker if that
/// is its role.
pub proof fn law_split_is_reported(
    peer: PeerInfo,
    all: Seq<PeerInfo>,
    model: Seq<char>,
    other: int,
    host: int,
)
    requires
        !(peer.role is Client),
        (texts(peer.serving_models@) + texts(peer.hosted_models@)).contains(model),
        0 <= other < all.len(),
        all[other].id@ != peer.id@,
        all[other].is_assigned(model),
        forall|i: int, k: int|
            0 <= i < all.len() && 0 <= k < (texts(peer.serving_models@) + texts(
                peer.hosted_models@,
            )).len() && Some(peer.id@) != Some((#[trigger] all[i]).id@) && all[i].is_assigned(
                #[trigger] (texts(peer.serving_models@) + texts(peer.hosted_models@))[k],
            ) ==> (texts(peer.serving_models@) + texts(peer.hosted_models@))[k] == model,
        0 <= host < all.len(),
        all[host].routes(model),
        forall|i: int| 0 <= i < all.len() && i != host ==> !(#[trigger] all[i]).routes(model),
        peer.routes(model) ==> all[host].id@ == peer.id@,
        forall|i: int|
            0 <= i < all.len() && (#[trigger] all[i]).available_model_sizes@.contains_key(model)
                && all[i].available_model_sizes@[model] > 0 ==> all[host].fast_memory() < headroom(
                all[i].available_model_sizes@[model],
            ),
    ensures
        peer_split(peer, all) matches Some(s) && s.model == model && s.host_id
            == all[host].short_id@ && s.role == (if peer.routes(model) {
            Some("pipeline_host"@)
        } else if peer.role is Worker {
            Some("pipeline_worker"@)
        } else {
            None
        }),
{
    let models = texts(peer.serving_models@) + texts(peer.hosted_models@);
    lemma_only_shared_model(models, all, Some(peer.id@), model, other);
    law_first_answer_counts(all, model, 0);
    lemma_one_router(all, Some(peer.id@), model, host);
    law_largest_observation_counts(all, model);
}

/// A split of the local node that exists is reported, by the same rules. The local
/// node is the host if it answers for the model, and a worker under the peer that does
/// otherwise.
pub proof fn law_local_split_is_reported(
    self_id: Seq<char>,
    is_host: bool,
    models: Seq<Seq<char>>,
    vram_units: nat,
    all: Seq<PeerInfo>,
    model: Seq<char>,
    other: int,
    host: int,
)
    requires
        models.contains(model),
        0 <= other < all.len(),
        all[other].is_assigned(model),
        forall|i: int, k: int|
            0 <= i < all.len() && 0 <= k < models.len() && (#[trigger] all[i]).is_assigned(
                #[trigger] models[k],
            ) ==> models[k] == model,
        !is_host ==> 0 <= host < all.len() && all[host].routes(model),
        forall|i: int|
            0 <= i < all.len() && (is_host || i != host) ==> !(#[trigger] all[i]).routes(model),
        forall|i: int|
            0 <= i < all.len() && (#[trigger] all[i]).available_model_sizes@.contains_key(model)
                && all[i].available_model_sizes@[model] > 0 ==> (if is_host {
                bytes_of_units(vram_units)
            } else {
                all[host].fast_memory()
            }) < headroom(all[i].available_model_sizes@[model]),
    ensures
        local_split(self_id, is_host, false, models, vram_units, all) matches Some(s) && s.model
            == model && s.host_id == (if is_host {
            self_id
        } else {
            all[host].short_id@
        }) && s.role == (if is_host {
            Some("pipeline_host"@)
        } else {
            Some("pipeline_worker"@)
        }),
{
    lemma_only_shared_model(models, all, None, model, other);
    law_first_answer_counts(all, model, 0);
    if is_host {
        lemma_no_routers(all, None, model);
    } else {
        lemma_one_router(all, None, model, host);
    }
    law_largest_observation_counts(all, model);
}

proof fn lemma_two_routers(
    peers: Seq<PeerInfo>,
    id: Option<Seq<char>>,
    model: Seq<char>,
    i: int,
    j: int,
)
    requires
        0 <= i < j < peers.len(),
        peers[i].routes(model) && id != Some(peers[i].id@),
        peers[j].routes(model) && id != Some(peers[j].id@),
    ensures
        router_count(peers, id, model) >= 2,
    decreases peers.len(),
{
    let head = peers.drop_last();
    assert(peers.last() == peers[peers.len() - 1]);
    assert(head[i] == peers[i]);
    if j < head.len() {
        assert(head[j] == peers[j]);
        lemma_two_routers(head, id, model, i, j);
    } else {
        lemma_router_counted(head, id, model, i);
    }
}

/// Where two other peers answer for a model, each runs it alone: nobody is part of a
/// split of it.
pub proof fn law_two_answers_are_no_split(peer: PeerInfo, all: Seq<PeerInfo>, i: int, j: int)
    requires
        0 <= i < j < all.len(),
        all[i].id@ != peer.id@,
        all[j].id@ != peer.id@,
    ensures
        peer_split(peer, all) matches Some(s) ==> !(all[i].routes(s.model) && all[j].routes(
            s.model,
        )),
{
    match peer_split(peer, all) {
        Some(s) => {
            if all[i].routes(s.model) && all[j].routes(s.model) {
                lemma_two_routers(all, Some(peer.id@), s.model, i, j);
            }
        },
        None => {},
    }
}

/// How a peer serves is said only of a peer that lists a model to serve or host. It
/// follows from the split role, and without one the peer serves alone.
pub proof fn law_serving_modes(peer: PeerInfo, split: PeerSplitClassification)
    requires
        split.moe_shard is None,
    ensures
        serving_mode(peer, split) is Some <==> peer.serving_models@.len() > 0
            || peer.hosted_models@.len() > 0,
        serving_mode(peer, split) is Some && split.role is None ==> serving_mode(peer, split)
            == Some("solo"@),
        serving_mode(peer, split) is Some && (split.role matches Some(r) && r@
            == "pipeline_host"@) ==> serving_mode(peer, split) == Some("split_host"@),
        serving_mode(peer, split) is Some && (split.role matches Some(r) && r@
            == "pipeline_worker"@) ==> serving_mode(peer, split) == Some("split_worker"@),
{
    reveal_strlit("pipeline_host");
    reveal_strlit("pipeline_worker");
    assert("pipeline_host"@.len() != "pipeline_worker"@.len());
}

/// A model fits if it is at most 95 percent of the memory, up to the last places of a
/// double.
pub proof fn law_fits_into_95_percent(vram_units: nat, size_units: nat)
    ensures
        size_units * 900_719_925_474_099_200 <= vram_units * 855_683_929_200_394_000 ==> fits_in(
            vram_units,
            size_units,
        ),
        size_units * 900_719_925_474_099_200 >= vram_units * 855_683_929_200_394_500 && vram_units
            > 0 ==> !fits_in(vram_units, size_units),
{
    vstd::arithmetic::power2::lemma2_to64();
    vstd::arithmetic::power2::lemma2_to64_rest();
    let y = vram_units * FIT_FACTOR as nat;
    assert(y == vram_units * 8_556_839_292_003_942);
    crate::double::law_rounding_error(y);
}

/// How the mesh serves a model. Without a live host it is cold, on one node solo. On
/// several it is spread over them as experts, or run by a peer or this node that could
/// hold it alone, or else as a pipeline.
pub proof fn law_split_kinds(
    model: Seq<char>,
    moe: bool,
    node_count: usize,
    size_units: nat,
    peers: Seq<PeerInfo>,
    my_vram_units: nat,
    local_serves: bool,
)
    ensures
        split_kind(model, false, moe, node_count, size_units, peers, my_vram_units, local_serves)
            == "cold"@,
        node_count == 0 ==> split_kind(
            model,
            true,
            moe,
            node_count,
            size_units,
            peers,
            my_vram_units,
            local_serves,
        ) == "cold"@,
        node_count == 1 ==> split_kind(
            model,
            true,
            moe,
            node_count,
            size_units,
            peers,
            my_vram_units,
            local_serves,
        ) == "solo"@,
        node_count >= 2 ==> split_kind(
            model,
            true,
            true,
            node_count,
            size_units,
            peers,
            my_vram_units,
            local_serves,
        ) == "moe"@,
        node_count >= 2 && local_serves && fits_in(my_vram_units, size_units) ==> split_kind(
            model,
            true,
            false,
            node_count,
            size_units,
            peers,
            my_vram_units,
            local_serves,
        ) == "multi_host"@,
        forall|i: int|
            #![trigger peers[i]]
            node_count >= 2 && 0 <= i < peers.len() && peers[i].routes(model) && fits_in(
                units_of_bytes(peers[i].fast_memory() as u64),
                size_units,
            ) ==> split_kind(
                model,
                true,
                false,
                node_count,
                size_units,
                peers,
                my_vram_units,
                local_serves,
            ) == "multi_host"@,
        node_count >= 2 && !(local_serves && fits_in(my_vram_units, size_units)) && (forall|i: int|
            0 <= i < peers.len() && (#[trigger] peers[i]).routes(model) ==> !fits_in(
                units_of_bytes(peers[i].fast_memory() as u64),
                size_units,
            )) ==> split_kind(
            model,
            true,
            false,
            node_count,
            size_units,
            peers,
            my_vram_units,
            local_serves,
        ) == "pipeline"@,
{
}

proof fn lemma_eligible_is_filter(peers: Seq<PeerInfo>, keep: spec_fn(PeerInfo) -> bool)
    requires
        forall|p: PeerInfo| #[trigger] keep(p) <==> is_eligible(p),
    ensures
        eligible(peers) == peers.filter(keep),
    decreases peers.len(),
{
    reveal(Seq::filter);
    if peers.len() > 0 {
        lemma_eligible_is_filter(peers.drop_last(), keep);
    } else {
        assert(eligible(peers) =~= peers.filter(keep));
    }
}

proof fn lemma_routers_is_filter(
    peers: Seq<PeerInfo>,
    model: Seq<char>,
    keep: spec_fn(PeerInfo) -> bool,
)
    requires
        forall|p: PeerInfo| #[trigger] keep(p) <==> p.routes(model),
    ensures
        routers(peers, model) == peers.filter(keep),
    decreases peers.len(),
{
    reveal(Seq::filter);
    if peers.len() > 0 {
        lemma_routers_is_filter(peers.drop_last(), model, keep);
    } else {
        assert(routers(peers, model) =~= peers.filter(keep));
    }
}

/// The pool counts this node, if it has memory, and every peer with memory that is no
/// client and no entry node. With whole gigabytes it is exactly their sum.
pub proof fn law_mesh_pool(r: MeshFitPayload, size: nat, own: nat, peers: Seq<PeerInfo>)
    requires
        is_mesh_fit(r, size, own * vstd::arithmetic::power2::pow2(90), peers),
    ensures
        ({
            let counted = peers.filter(
                |p: PeerInfo|
                    !(p.role is Client) && !(p.hostname matches Some(h) && has_prefix(h@, "ip-"@))
                        && p.fast_memory() > 0,
            );
            &&& r.eligible_peer_count == counted.len() + (if own > 0 {
                1int
            } else {
                0
            })
            &&& (forall|i: int|
                0 <= i < counted.len() ==> (#[trigger] counted[i]).fast_memory() % 1_000_000_000
                    == 0 && counted[i].fast_memory() <= 4_000_000_000_000_000_000) && own
                * 1_000_000_000 + bytes_of_all(counted) <= 9_000_000_000_000_000_000_000_000
                ==> r.pooled_vram_gb.units() == (own + bytes_of_all(counted) / 1_000_000_000)
                * vstd::arithmetic::power2::pow2(90)
        }),
{
    let keep = |p: PeerInfo|
        !(p.role is Client) && !(p.hostname matches Some(h) && has_prefix(h@, "ip-"@))
            && p.fast_memory() > 0;
    assert forall|p: PeerInfo| #[trigger] keep(p) <==> is_eligible(p) by {
        lemma_units_are_positive(p.fast_memory() as u64);
    }
    lemma_eligible_is_filter(peers, keep);
    let counted = peers.filter(keep);
    let unit = vstd::arithmetic::power2::pow2(90);
    vstd::arithmetic::power2::lemma_pow2_pos(90);
    assert(own * unit > 0 <==> own > 0) by (nonlinear_arith)
        requires
            unit > 0,
            own >= 0,
    ;
    if (forall|i: int|
        0 <= i < counted.len() ==> (#[trigger] counted[i]).fast_memory() % 1_000_000_000 == 0
            && counted[i].fast_memory() <= 4_000_000_000_000_000_000) && own * 1_000_000_000
        + bytes_of_all(counted) <= 9_000_000_000_000_000_000_000_000 {
        law_pool_is_the_sum(own, counted);
    }
}

/// What a model needs is its size and a tenth of it.
pub proof fn law_mesh_fit_has_headroom(r: MeshFitPayload, size: nat, own: nat, peers: Seq<PeerInfo>)
    requires
        is_mesh_fit(r, size, own, peers),
    ensures
        10 * r.needed_vram_gb.units() * 4_503_599_627_370_496 <= 11 * size * 4_503_599_627_370_496
            + 11 * size,
        10 * r.needed_vram_gb.units() * 4_503_599_627_370_496 >= 11 * size * 4_503_599_627_370_496
            - 11 * size,
        r.fits_pooled <==> r.pooled_vram_gb.units() >= r.needed_vram_gb.units(),
        own >= r.needed_vram_gb.units() ==> r.fits_on_largest_node,
        forall|i: int|
            0 <= i < peers.len() && is_eligible(#[trigger] peers[i]) && units_of_bytes(
                peers[i].fast_memory() as u64,
            ) >= r.needed_vram_gb.units() ==> r.fits_on_largest_node,
{
    let y = size * crate::double::ELEVEN_TENTHS as nat;
    crate::double::law_rounding_error(y);
    assert(y == size * 4_953_959_590_107_546);
    assert(r.needed_vram_gb.units() * crate::double::SIGNIFICAND_START as nat
        == r.needed_vram_gb.units() * 4_503_599_627_370_496);
}

/// The nodes that answer for a model are this node, if it hosts it, and every peer
/// that answers for it. All are counted and named, and with whole gigabytes their
/// memory is exactly their sum.
pub proof fn law_route_stats(
    r: HttpRouteStats,
    model: Seq<char>,
    peers: Seq<PeerInfo>,
    hosted: Seq<Seq<char>>,
    hostname: Option<Seq<char>>,
    own: nat,
)
    requires
        is_route_stats(
            r,
            model,
            peers,
            hosted,
            hostname,
            own * vstd::arithmetic::power2::pow2(90),
        ),
    ensures
        ({
            let counted = peers.filter(|p: PeerInfo| p.routes(model));
            let mine: nat = if hosted.contains(model) {
                own
            } else {
                0
            };
            &&& r.node_count == counted.len() + (if hosted.contains(model) {
                1int
            } else {
                0
            })
            &&& (forall|i: int|
                0 <= i < counted.len() ==> (#[trigger] counted[i]).fast_memory() % 1_000_000_000
                    == 0 && counted[i].fast_memory() <= 4_000_000_000_000_000_000) && mine
                * 1_000_000_000 + bytes_of_all(counted) <= 9_000_000_000_000_000_000_000_000
                ==> r.mesh_vram_gb.units() == (mine + bytes_of_all(counted) / 1_000_000_000)
                * vstd::arithmetic::power2::pow2(90)
        }),
        forall|i: int|
            0 <= i < peers.len() && (#[trigger] peers[i]).routes(model) ==> texts(
                r.active_nodes@,
            ).contains(node_name(crate::text::opt_text(peers[i].hostname), peers[i].short_id@)),
        hosted.contains(model) ==> texts(r.active_nodes@).contains(
            node_name(hostname, "This node"@),
        ),
        !hosted.contains(model) && (forall|i: int|
            0 <= i < peers.len() ==> !(#[trigger] peers[i]).routes(model)) ==> r.active_nodes@.len()
            == 0,
{
    let keep = |p: PeerInfo| p.routes(model);
    lemma_routers_is_filter(peers, model, keep);
    let counted = peers.filter(keep);
    let mine: nat = if hosted.contains(model) {
        own
    } else {
        0
    };
    if (forall|i: int|
        0 <= i < counted.len() ==> (#[trigger] counted[i]).fast_memory() % 1_000_000_000 == 0
            && counted[i].fast_memory() <= 4_000_000_000_000_000_000) && mine * 1_000_000_000
        + bytes_of_all(counted) <= 9_000_000_000_000_000_000_000_000 {
        law_pool_is_the_sum(mine, counted);
        assert(0 * vstd::arithmetic::power2::pow2(90) == 0);
    }
    let names = route_names(hosted.contains(model), hostname, counted);
    let start: int = if hosted.contains(model) {
        1
    } else {
        0
    };
    crate::order::law_unique_sorted(names);
    assert forall|i: int| 0 <= i < peers.len() && (#[trigger] peers[i]).routes(model) implies texts(
        r.active_nodes@,
    ).contains(node_name(crate::text::opt_text(peers[i].hostname), peers[i].short_id@)) by {
        peers.lemma_filter_contains(keep, i);
        let k = choose|k: int| 0 <= k < counted.len() && counted[k] == peers[i];
        let name = node_name(crate::text::opt_text(peers[i].hostname), peers[i].short_id@);
        assert(names[start + k] == name);
        assert(unique_sorted(names).contains(name));
    }
    if hosted.contains(model) {
        assert(names[0] == node_name(hostname, "This node"@));
        assert(unique_sorted(names).contains(names[0]));
    }
    if !hosted.contains(model) && (forall|i: int|
        0 <= i < peers.len() ==> !(#[trigger] peers[i]).routes(model)) {
        if counted.len() > 0 {
            peers.lemma_filter_pred(keep, 0);
            assert(counted.contains(counted[0]));
            peers.lemma_filter_contains_rev(keep, counted[0]);
        }
        assert(names.len() == 0);
        if r.active_nodes@.len() > 0 {
            let first = texts(r.active_nodes@)[0];
            assert(unique_sorted(names).contains(first));
        }
    }
}

/// A node is listed under its host name, if that says something, and otherwise under
/// the other name given.
pub proof fn law_node_name(hostname: Seq<char>, fallback: Seq<char>, i: int)
    requires
        0 <= i < hostname.len(),
        !crate::text::is_space(hostname[i]),
    ensures
        node_name(Some(hostname), fallback) == hostname,
        node_name(None, fallback) == fallback,
{
    let (from, to) = crate::text::law_trimming(hostname);
    if from >= to {
        assert(crate::text::is_space(hostname[i]));
    }
}

/// A model that the first peer answering for it can hold with headroom is not split,
/// not even if it just fits: the other peers stand by.
pub proof fn law_what_just_fits_is_no_split(peer: PeerInfo, all: Seq<PeerInfo>, host: int, i: int)
    requires
        peer_split(peer, all) is Some,
        0 <= host < all.len(),
        all[host].routes(peer_split(peer, all)->0.model),
        forall|j: int|
            0 <= j < host ==> !(#[trigger] all[j]).routes(peer_split(peer, all)->0.model),
        0 <= i < all.len(),
        all[i].available_model_sizes@.contains_key(peer_split(peer, all)->0.model),
        all[i].available_model_sizes@[peer_split(peer, all)->0.model] > 0,
        forall|j: int|
            0 <= j < all.len() && (#[trigger] all[j]).available_model_sizes@.contains_key(
                peer_split(peer, all)->0.model,
            ) ==> all[j].available_model_sizes@[peer_split(peer, all)->0.model]
                <= all[i].available_model_sizes@[peer_split(peer, all)->0.model],
    ensures
        all[host].fast_memory() < headroom(
            all[i].available_model_sizes@[peer_split(peer, all)->0.model],
        ),
        peer_split(peer, all)->0.host_id == all[host].short_id@,
{
    let model = peer_split(peer, all)->0.model;
    law_first_answer_counts(all, model, 0);
    law_largest_observation_counts(all, model);
}

/// Every node that answers for a model is counted: this one, if it hosts it, and every
/// peer that answers for it.
pub proof fn law_answering_nodes_are_counted(
    r: HttpRouteStats,
    model: Seq<char>,
    peers: Seq<PeerInfo>,
    hosted: Seq<Seq<char>>,
    hostname: Option<Seq<char>>,
    my_units: nat,
)
    requires
        is_route_stats(r, model, peers, hosted, hostname, my_units),
    ensures
        hosted.contains(model) ==> r.node_count == peers.filter(
            |p: PeerInfo| p.routes(model),
        ).len() + 1,
        !hosted.contains(model) ==> r.node_count == peers.filter(
            |p: PeerInfo| p.routes(model),
        ).len(),
{
    lemma_routers_is_filter(peers, model, |p: PeerInfo| p.routes(model));
}

} // verus!
