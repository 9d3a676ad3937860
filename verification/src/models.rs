//! The models of the mesh: where they come from, what they can do, and how they
//! are listed.

use vstd::prelude::*;

use crate::double::rounded;
use crate::gigabytes::{tenths, tenths_text, units_of_bytes, Gigabytes, EXPONENT_END};
use crate::gpus::opt_str;
use crate::peers::{ModelMetadata, PeerInfo};
use crate::split::{
    classify_model_split_kind, compute_mesh_fit, http_route_stats, is_mesh_fit, is_route_stats,
    split_kind, HttpRouteStats, MeshFitPayload,
};
use crate::text::{
    any_text, ascii_lower, chars_of, copy_opt, copy_range, ends_with, find_char, has_suffix,
    has_text, opt_text, parts, remove_text, same_text, split, split_on, string_of, text_contains,
    texts, to_ascii_lower, trim, trimmed, without_text,
};
use crate::text_map::TextMap;

verus! {

/// How sure it is that a model can do something.
#[derive(Debug, Clone, Copy, PartialEq, Eq, Structural)]
pub enum CapabilityLevel {
    Absent,
    Likely,
    Supported,
}

impl CapabilityLevel {
    /// The model can do it, or likely can.
    pub open spec fn is_some(self) -> bool {
        !(self is Absent)
    }

    /// The level, raised to `Likely` if it was lower.
    pub open spec fn raised(self) -> CapabilityLevel {
        if self is Absent {
            CapabilityLevel::Likely
        } else {
            self
        }
    }

    /// The word for the level.
    pub open spec fn word(self) -> Seq<char> {
        match self {
            CapabilityLevel::Absent => "none"@,
            CapabilityLevel::Likely => "likely"@,
            CapabilityLevel::Supported => "supported"@,
        }
    }

    /// Whether the model can do it, or likely can.
    pub fn has_it(self) -> (r: bool)
        ensures
            r == self.is_some(),
    {
        match self {
            CapabilityLevel::Absent => false,
            _ => true,
        }
    }

    /// At least likely.
    pub fn at_least_likely(self) -> (r: CapabilityLevel)
        ensures
            r == self.raised(),
    {
        match self {
            CapabilityLevel::Absent => CapabilityLevel::Likely,
            level => level,
        }
    }

    /// The word for the level.
    pub fn status(self) -> (r: &'static str)
        ensures
            r@ == self.word(),
    {
        match self {
            CapabilityLevel::Absent => "none",
            CapabilityLevel::Likely => "likely",
            CapabilityLevel::Supported => "supported",
        }
    }
}

/// What a model can do.
#[derive(Debug, Clone, Copy, PartialEq, Eq, Structural)]
pub struct ModelCapabilities {
    pub multimodal: bool,
    pub vision: CapabilityLevel,
    pub audio: CapabilityLevel,
    pub reasoning: CapabilityLevel,
    pub tool_use: CapabilityLevel,
    pub moe: bool,
}

/// A model of which nothing is known.
pub open spec fn no_capabilities() -> ModelCapabilities {
    ModelCapabilities {
        multimodal: false,
        vision: CapabilityLevel::Absent,
        audio: CapabilityLevel::Absent,
        reasoning: CapabilityLevel::Absent,
        tool_use: CapabilityLevel::Absent,
        moe: false,
    }
}

impl Default for ModelCapabilities {
    fn default() -> (r: ModelCapabilities)
        ensures
            r == no_capabilities(),
    {
        ModelCapabilities {
            multimodal: false,
            vision: CapabilityLevel::Absent,
            audio: CapabilityLevel::Absent,
            reasoning: CapabilityLevel::Absent,
            tool_use: CapabilityLevel::Absent,
            moe: false,
        }
    }
}

impl ModelCapabilities {
    /// The model takes more than text.
    pub open spec fn takes_media(self) -> bool {
        self.multimodal || self.vision.is_some() || self.audio.is_some()
    }

    /// Whether the model takes more than text.
    pub fn supports_multimodal_runtime(self) -> (r: bool)
        ensures
            r == self.takes_media(),
    {
        self.multimodal || self.vision.has_it() || self.audio.has_it()
    }
}

/// Where a served model comes from.
#[derive(Debug, Clone, Copy, PartialEq, Eq, Structural)]
pub enum ModelSourceKind {
    Catalog,
    HuggingFace,
    LocalGguf,
    DirectUrl,
    Unknown,
}

/// The identity of a served model.
#[derive(Debug)]
pub struct ServedModelIdentity {
    pub source_kind: ModelSourceKind,
    pub canonical_ref: Option<String>,
    pub repository: Option<String>,
    pub revision: Option<String>,
    pub artifact: Option<String>,
    pub local_file_name: Option<String>,
}

/// A mixture of experts, as the serving node describes it.
#[derive(Debug)]
pub struct MoeTopology {
    pub expert_count: u32,
    pub used_expert_count: u32,
    pub ranking_source: Option<String>,
    pub ranking_origin: Option<String>,
    pub ranking_prompt_count: Option<u32>,
    pub ranking_tokens: Option<u32>,
    pub ranking_layer_scope: Option<String>,
}

/// A served model, as the serving node describes it.
#[derive(Debug)]
pub struct ServedModelDescriptor {
    pub identity: ServedModelIdentity,
    pub capabilities: ModelCapabilities,
    pub moe: Option<MoeTopology>,
}

/// A mixture of experts, as the catalogue describes it.
#[derive(Debug, Clone, Copy, PartialEq, Eq, Structural)]
pub struct CatalogMoe {
    pub n_expert: u32,
    pub n_expert_used: u32,
}

/// A model of the catalogue.
#[derive(Debug)]
pub struct CatalogModel {
    pub name: String,
    pub file: String,
    /// The size that the catalogue states.
    pub size_bytes: u64,
    pub description: String,
    pub draft: Option<String>,
    pub moe: Option<CatalogMoe>,
    /// The page of the repository that the model's address belongs to.
    pub repo_url: Option<String>,
    pub source_repo: Option<String>,
    pub source_revision: Option<String>,
    pub source_file: Option<String>,
    /// The quantization that the file's name spells, empty if none.
    pub file_quantization: String,
}

/// A file name without the ending of a model file.
pub open spec fn file_stem(file: Seq<char>) -> Seq<char> {
    if has_suffix(file, ".gguf"@) {
        file.take(file.len() - 5)
    } else {
        file
    }
}

impl CatalogModel {
    /// The entry goes by the name.
    pub open spec fn goes_by(&self, name: Seq<char>) -> bool {
        self.name@ == name || file_stem(self.file@) == name
    }

    /// Whether the entry goes by the name.
    fn is_named(&self, name: &str) -> (r: bool)
        ensures
            r == self.goes_by(name@),
    {
        if same_text(self.name.as_str(), name) {
            return true;
        }
        if ends_with(self.file.as_str(), ".gguf") {
            proof {
                reveal_strlit(".gguf");
            }
            let chars = chars_of(self.file.as_str());
            let stem = copy_range(chars.as_slice(), 0, chars.len() - 5);
            assert(stem@ =~= file_stem(self.file@));
            let stem = string_of(stem.as_slice());
            same_text(stem.as_str(), name)
        } else {
            same_text(self.file.as_str(), name)
        }
    }
}

/// The first entry of the catalogue that goes by a name.
pub open spec fn in_catalog(catalog: Seq<CatalogModel>, name: Seq<char>) -> Option<CatalogModel>
    decreases catalog.len(),
{
    if catalog.len() == 0 {
        None
    } else {
        match in_catalog(catalog.drop_last(), name) {
            Some(entry) => Some(entry),
            None => if catalog.last().goes_by(name) {
                Some(catalog.last())
            } else {
                None
            },
        }
    }
}

/// An entry that was found stays found in a longer catalogue.
proof fn lemma_in_catalog_stays(catalog: Seq<CatalogModel>, name: Seq<char>, n: int)
    requires
        0 <= n <= catalog.len(),
        in_catalog(catalog.take(n), name) is Some,
    ensures
        in_catalog(catalog, name) == in_catalog(catalog.take(n), name),
    decreases catalog.len(),
{
    if n == catalog.len() {
        assert(catalog.take(n) =~= catalog);
    } else {
        assert(catalog.drop_last().take(n) =~= catalog.take(n));
        lemma_in_catalog_stays(catalog.drop_last(), name, n);
    }
}

/// Finds a model in the catalogue, by its name or by the name of its file.
pub fn find_catalog_model<'a>(catalog: &'a [CatalogModel], name: &str) -> (r: Option<
    &'a CatalogModel,
>)
    ensures
        match r {
            Some(entry) => in_catalog(catalog@, name@) == Some(*entry),
            None => in_catalog(catalog@, name@) is None,
        },
{
    let mut i: usize = 0;
    while i < catalog.len()
        invariant
            i <= catalog.len(),
            in_catalog(catalog@.take(i as int), name@) is None,
        decreases catalog.len() - i,
    {
        assert(catalog@.take(i + 1).drop_last() =~= catalog@.take(i as int));
        if catalog[i].is_named(name) {
            proof {
                lemma_in_catalog_stays(catalog@, name@, i + 1);
            }
            return Some(&catalog[i]);
        }
        i = i + 1;
    }
    assert(catalog@.take(i as int) =~= catalog@);
    None
}

/// The text has the shape of a repository name: two parts around one slash,
/// neither of them empty, and no backslash. Space around it does not count.
pub open spec fn repository_like(repository: Seq<char>) -> bool {
    let t = trimmed(repository);
    &&& t.len() > 0
    &&& t[0] != '/'
    &&& t.last() != '/'
    &&& !t.contains('\\')
    &&& split_on(t, '/').len() == 2
}

/// Whether a text has the shape of a repository name.
pub fn is_huggingface_repository_like(repository: &str) -> (r: bool)
    ensures
        r == repository_like(repository@),
{
    let t = trim(chars_of(repository).as_slice());
    if t.is_empty() {
        return false;
    }
    if t[0] == '/' || t[t.len() - 1] == '/' {
        return false;
    }
    if find_char(t.as_slice(), '\\').is_some() {
        return false;
    }
    let pieces = split(t.as_slice(), '/');
    assert(parts(pieces@).len() == pieces.len());
    pieces.len() == 2
}

impl ServedModelIdentity {
    /// The repository that the model comes from, if it comes from one.
    pub open spec fn hub_repository(&self) -> Option<Seq<char>> {
        match self.repository {
            Some(repo) => if self.source_kind is HuggingFace && repository_like(repo@) {
                Some(repo@)
            } else {
                None
            },
            None => None,
        }
    }

    /// The page of that repository.
    pub open spec fn page(&self) -> Option<Seq<char>> {
        match self.hub_repository() {
            Some(repo) => Some("https://huggingface.co/"@ + repo),
            None => None,
        }
    }

    /// The file that the model was read from.
    pub open spec fn file(&self) -> Option<Seq<char>> {
        match self.artifact {
            Some(file) => Some(file@),
            None => opt_text(self.local_file_name),
        }
    }
}

/// The repository that a model comes from.
pub fn huggingface_repository_from_identity(identity: &ServedModelIdentity) -> (r: Option<String>)
    ensures
        opt_text(r) == identity.hub_repository(),
{
    match identity.source_kind {
        ModelSourceKind::HuggingFace => match &identity.repository {
            Some(repo) => if is_huggingface_repository_like(repo.as_str()) {
                Some(repo.clone())
            } else {
                None
            },
            None => None,
        },
        _ => None,
    }
}

/// The page of the repository that a model comes from.
pub fn source_page_url_from_identity(identity: &ServedModelIdentity) -> (r: Option<String>)
    ensures
        opt_text(r) == identity.page(),
{
    match huggingface_repository_from_identity(identity) {
        Some(repo) => Some("https://huggingface.co/".to_owned().concat(repo.as_str())),
        None => None,
    }
}

/// The file that a model was read from.
pub fn source_file_from_identity(identity: &ServedModelIdentity) -> (r: Option<String>)
    ensures
        opt_text(r) == identity.file(),
{
    match &identity.artifact {
        Some(file) => Some(file.clone()),
        None => copy_opt(&identity.local_file_name),
    }
}

/// The text that a guess about a model goes by: name and description, in small
/// letters.
pub open spec fn guess_text(name: Seq<char>, description: Seq<char>) -> Seq<char> {
    ascii_lower(name + " "@ + description)
}

/// The model seems to reason.
pub open spec fn seems_reasoning(name: Seq<char>, description: Seq<char>) -> bool {
    let t = guess_text(name, description);
    has_text(t, "reasoning"@) || has_text(t, "thinking"@) || has_text(t, "deepseek-r1"@)
}

/// The model seems to see.
pub open spec fn seems_seeing(name: Seq<char>, description: Seq<char>) -> bool {
    let t = guess_text(name, description);
    has_text(t, "vision"@) || has_text(t, "-vl"@) || has_text(t, "llava"@) || has_text(t, "omni"@)
        || has_text(t, "qwen2.5-vl"@) || has_text(t, "mllama"@)
}

/// The model seems to hear.
pub open spec fn seems_hearing(name: Seq<char>, description: Seq<char>) -> bool {
    let t = guess_text(name, description);
    has_text(t, "audio"@) || has_text(t, "speech"@) || has_text(t, "voice"@) || has_text(t, "omni"@)
        || has_text(t, "ultravox"@) || has_text(t, "qwen2-audio"@)
}

/// The text that a guess about a model goes by.
fn guess_by(name: &str, description: &str) -> (r: String)
    ensures
        r@ == guess_text(name@, description@),
{
    to_ascii_lower(name.to_owned().concat(" ").concat(description).as_str())
}

/// Whether a model seems to reason.
pub fn likely_reasoning_model(name: &str, description: &str) -> (r: bool)
    ensures
        r == seems_reasoning(name@, description@),
{
    let t = guess_by(name, description);
    let t = t.as_str();
    text_contains(t, "reasoning") || text_contains(t, "thinking") || text_contains(t, "deepseek-r1")
}

/// Whether a model seems to see.
pub fn likely_vision_model(name: &str, description: &str) -> (r: bool)
    ensures
        r == seems_seeing(name@, description@),
{
    let t = guess_by(name, description);
    let t = t.as_str();
    text_contains(t, "vision") || text_contains(t, "-vl") || text_contains(t, "llava")
        || text_contains(t, "omni") || text_contains(t, "qwen2.5-vl") || text_contains(t, "mllama")
}

/// Whether a model seems to hear.
pub fn likely_audio_model(name: &str, description: &str) -> (r: bool)
    ensures
        r == seems_hearing(name@, description@),
{
    let t = guess_by(name, description);
    let t = t.as_str();
    text_contains(t, "audio") || text_contains(t, "speech") || text_contains(t, "voice")
        || text_contains(t, "omni") || text_contains(t, "ultravox") || text_contains(
        t,
        "qwen2-audio",
    )
}

/// The factor 1.2 times 2 to the 52nd.
pub const COMFORTABLE_FACTOR: u64 = 5_404_319_552_844_595;

/// The factor 1.05 times 2 to the 52nd.
pub const TIGHT_FACTOR: u64 = 4_728_779_608_739_021;

/// The factor 0.8 times 2 to the 53rd.
pub const TRADEOFF_FACTOR: u64 = 7_205_759_403_792_794;

/// How well a model of some size suits a machine with some memory.
#[derive(Debug, Clone, Copy, PartialEq, Eq, Structural)]
pub enum Fit {
    Unknown,
    Comfortable,
    Tight,
    Tradeoffs,
    TooLarge,
}

/// A size times a factor of `factor / 2^bits`, rounded, is at most a memory.
pub open spec fn product_fits(size: nat, factor: u64, bits: nat, memory: nat) -> bool {
    rounded(size * factor as nat) <= memory * vstd::arithmetic::power2::pow2(bits)
}

/// How well a model suits a machine: comfortable with a fifth to spare, tight
/// with a twentieth, with tradeoffs if four fifths of it fit.
pub open spec fn machine_fit(size: nat, memory: nat) -> Fit {
    if size == 0 || memory == 0 {
        Fit::Unknown
    } else if product_fits(size, COMFORTABLE_FACTOR, 52, memory) {
        Fit::Comfortable
    } else if product_fits(size, TIGHT_FACTOR, 52, memory) {
        Fit::Tight
    } else if product_fits(size, TRADEOFF_FACTOR, 53, memory) {
        Fit::Tradeoffs
    } else {
        Fit::TooLarge
    }
}

/// The label of a fit.
pub open spec fn fit_label(fit: Fit) -> Seq<char> {
    match fit {
        Fit::Unknown => "Unknown"@,
        Fit::Comfortable => "Likely comfortable"@,
        Fit::Tight => "Likely fits"@,
        Fit::Tradeoffs => "Possible with tradeoffs"@,
        Fit::TooLarge => "Likely too large"@,
    }
}

/// The sentence on a fit, with the two figures to one decimal.
pub open spec fn fit_detail(fit: Fit, size: Seq<char>, memory: Seq<char>) -> Seq<char> {
    match fit {
        Fit::Unknown => "No local capacity signal is available for this machine yet."@,
        Fit::Comfortable => "This machine has "@ + memory
            + " GB capacity, which should handle a "@ + size + " GB model comfortably."@,
        Fit::Tight => "This machine has "@ + memory + " GB capacity. A "@ + size
            + " GB model should fit, but headroom will be tight."@,
        Fit::Tradeoffs => "This machine has "@ + memory + " GB capacity. A "@ + size
            + " GB model may load, but expect tighter memory pressure."@,
        Fit::TooLarge => "This machine has "@ + memory
            + " GB capacity, which is likely not enough for a "@ + size + " GB model locally."@,
    }
}

/// A label and a sentence on how well a model suits this machine.
pub fn fit_hint_for_machine(size_gb: Gigabytes, my_vram_gb: Gigabytes) -> (r: (String, String))
    requires
        size_gb.exponent() < EXPONENT_END,
        my_vram_gb.exponent() < EXPONENT_END,
    ensures
        r.0@ == fit_label(machine_fit(size_gb.units(), my_vram_gb.units())),
        r.1@ == fit_detail(
            machine_fit(size_gb.units(), my_vram_gb.units()),
            tenths_text(tenths(size_gb.units())),
            tenths_text(tenths(my_vram_gb.units())),
        ),
{
    if !size_gb.is_positive() || !my_vram_gb.is_positive() {
        return (
            "Unknown".to_owned(),
            "No local capacity signal is available for this machine yet.".to_owned(),
        );
    }
    let memory = my_vram_gb.text();
    let size = size_gb.text();
    let head = "This machine has ".to_owned().concat(memory.as_str());
    if size_gb.product_at_most(COMFORTABLE_FACTOR, 52, &my_vram_gb) {
        return (
            "Likely comfortable".to_owned(),
            head.concat(" GB capacity, which should handle a ").concat(size.as_str()).concat(
                " GB model comfortably.",
            ),
        );
    }
    if size_gb.product_at_most(TIGHT_FACTOR, 52, &my_vram_gb) {
        return (
            "Likely fits".to_owned(),
            head.concat(" GB capacity. A ").concat(size.as_str()).concat(
                " GB model should fit, but headroom will be tight.",
            ),
        );
    }
    if size_gb.product_at_most(TRADEOFF_FACTOR, 53, &my_vram_gb) {
        return (
            "Possible with tradeoffs".to_owned(),
            head.concat(" GB capacity. A ").concat(size.as_str()).concat(
                " GB model may load, but expect tighter memory pressure.",
            ),
        );
    }
    (
        "Likely too large".to_owned(),
        head.concat(" GB capacity, which is likely not enough for a ").concat(
            size.as_str(),
        ).concat(" GB model locally."),
    )
}

/// How much a model is asked for.
#[derive(Debug, Clone, Copy, PartialEq, Eq, Structural)]
pub struct ModelDemand {
    pub request_count: u64,
    /// Seconds since the epoch.
    pub last_active: u64,
}

/// A model that some node of the mesh lists.
#[derive(Debug)]
pub struct MeshCatalogEntry {
    pub model_name: String,
    pub descriptor: Option<ServedModelDescriptor>,
    pub display_name: String,
    /// What the installed copy of the model can do.
    pub installed: ModelCapabilities,
}

/// All that the list of models is made from.
#[derive(Debug)]
pub struct ModelSurvey {
    pub catalog: Vec<CatalogModel>,
    pub peers: Vec<PeerInfo>,
    /// The models that some node serves.
    pub served: Vec<String>,
    pub demand: TextMap<ModelDemand>,
    /// What came of the requests that this node routed, by model, as JSON text.
    pub routing_metrics: TextMap<String>,
    pub serving_models: Vec<String>,
    pub hosted_models: Vec<String>,
    pub hostname: Option<String>,
    pub fast_memory_bytes: u64,
    /// The model that this node was started with.
    pub model_name: String,
    pub model_size_bytes: u64,
    /// The model files on this machine.
    pub local_names: Vec<String>,
    pub local_metadata: TextMap<ModelMetadata>,
    pub local_sizes: TextMap<u64>,
    /// Seconds since the epoch.
    pub now_secs: u64,
}

/// The first description under a name in a list.
pub open spec fn listed_metadata(list: Seq<ModelMetadata>, name: Seq<char>) -> Option<ModelMetadata>
    decreases list.len(),
{
    if list.len() == 0 {
        None
    } else {
        match listed_metadata(list.drop_last(), name) {
            Some(m) => Some(m),
            None => if list.last().model_key@ == name {
                Some(list.last())
            } else {
                None
            },
        }
    }
}

/// The first description under a name that a peer gives.
pub open spec fn peer_metadata(peers: Seq<PeerInfo>, name: Seq<char>) -> Option<ModelMetadata>
    decreases peers.len(),
{
    if peers.len() == 0 {
        None
    } else {
        match peer_metadata(peers.drop_last(), name) {
            Some(m) => Some(m),
            None => listed_metadata(peers.last().available_model_metadata@, name),
        }
    }
}

/// The first size under a name that a peer gives.
pub open spec fn peer_size(peers: Seq<PeerInfo>, name: Seq<char>) -> Option<u64>
    decreases peers.len(),
{
    if peers.len() == 0 {
        None
    } else {
        match peer_size(peers.drop_last(), name) {
            Some(n) => Some(n),
            None => {
                let sizes = peers.last().available_model_sizes@;
                if sizes.contains_key(name) {
                    Some(sizes[name])
                } else {
                    None
                }
            },
        }
    }
}

proof fn lemma_listed_metadata_stays(list: Seq<ModelMetadata>, name: Seq<char>, n: int)
    requires
        0 <= n <= list.len(),
        listed_metadata(list.take(n), name) is Some,
    ensures
        listed_metadata(list, name) == listed_metadata(list.take(n), name),
    decreases list.len(),
{
    if n == list.len() {
        assert(list.take(n) =~= list);
    } else {
        assert(list.drop_last().take(n) =~= list.take(n));
        lemma_listed_metadata_stays(list.drop_last(), name, n);
    }
}

proof fn lemma_peer_metadata_stays(peers: Seq<PeerInfo>, name: Seq<char>, n: int)
    requires
        0 <= n <= peers.len(),
        peer_metadata(peers.take(n), name) is Some,
    ensures
        peer_metadata(peers, name) == peer_metadata(peers.take(n), name),
    decreases peers.len(),
{
    if n == peers.len() {
        assert(peers.take(n) =~= peers);
    } else {
        assert(peers.drop_last().take(n) =~= peers.take(n));
        lemma_peer_metadata_stays(peers.drop_last(), name, n);
    }
}

proof fn lemma_peer_size_stays(peers: Seq<PeerInfo>, name: Seq<char>, n: int)
    requires
        0 <= n <= peers.len(),
        peer_size(peers.take(n), name) is Some,
    ensures
        peer_size(peers, name) == peer_size(peers.take(n), name),
    decreases peers.len(),
{
    if n == peers.len() {
        assert(peers.take(n) =~= peers);
    } else {
        assert(peers.drop_last().take(n) =~= peers.take(n));
        lemma_peer_size_stays(peers.drop_last(), name, n);
    }
}

/// Finds the first description under a name in a list.
fn find_listed_metadata<'a>(list: &'a [ModelMetadata], name: &str) -> (r: Option<&'a ModelMetadata>)
    ensures
        match r {
            Some(m) => listed_metadata(list@, name@) == Some(*m),
            None => listed_metadata(list@, name@) is None,
        },
{
    let mut i: usize = 0;
    while i < list.len()
        invariant
            i <= list.len(),
            listed_metadata(list@.take(i as int), name@) is None,
        decreases list.len() - i,
    {
        assert(list@.take(i + 1).drop_last() =~= list@.take(i as int));
        if same_text(list[i].model_key.as_str(), name) {
            proof {
                lemma_listed_metadata_stays(list@, name@, i + 1);
            }
            return Some(&list[i]);
        }
        i = i + 1;
    }
    assert(list@.take(i as int) =~= list@);
    None
}

impl ModelSurvey {
    /// The model is known on this machine.
    pub open spec fn knows(&self, name: Seq<char>) -> bool {
        texts(self.local_names@).contains(name) || texts(self.hosted_models@).contains(name)
            || texts(self.serving_models@).contains(name) || name == self.model_name@
    }

    /// What is known of the model's file: by this machine, or else by the first
    /// peer that says anything.
    pub open spec fn metadata(&self, name: Seq<char>) -> Option<ModelMetadata> {
        if self.local_metadata@.contains_key(name) {
            Some(self.local_metadata@[name])
        } else {
            peer_metadata(self.peers@, name)
        }
    }

    /// The size of the model: of the one that this node was started with, if that
    /// is known; else as this machine has it, as the first peer has it that does,
    /// or as the catalogue states it.
    pub open spec fn size_bytes(&self, name: Seq<char>) -> u64 {
        if name == self.model_name@ && self.model_size_bytes > 0 {
            self.model_size_bytes
        } else if self.local_sizes@.contains_key(name) {
            self.local_sizes@[name]
        } else {
            match peer_size(self.peers@, name) {
                Some(n) => n,
                None => match in_catalog(self.catalog@, name) {
                    Some(c) => c.size_bytes,
                    None => 0,
                },
            }
        }
    }

    /// The catalogue's description of the model, or none.
    pub open spec fn description(&self, name: Seq<char>) -> Seq<char> {
        match in_catalog(self.catalog@, name) {
            Some(c) => c.description@,
            None => Seq::empty(),
        }
    }

    /// What the model can do: what its server says, or what its installed copy
    /// says, with what its name and description suggest if it is known here.
    pub open spec fn capabilities(&self, e: MeshCatalogEntry) -> ModelCapabilities {
        let name = e.model_name@;
        let about = self.description(name);
        let base = match e.descriptor {
            Some(d) => d.capabilities,
            None => if self.knows(name) {
                e.installed
            } else {
                no_capabilities()
            },
        };
        let reasons = self.knows(name) && seems_reasoning(name, about);
        let sees = self.knows(name) && seems_seeing(name, about);
        let hears = self.knows(name) && seems_hearing(name, about);
        ModelCapabilities {
            multimodal: base.multimodal || sees || hears,
            vision: if sees {
                base.vision.raised()
            } else {
                base.vision
            },
            audio: if hears {
                base.audio.raised()
            } else {
                base.audio
            },
            reasoning: if reasons {
                base.reasoning.raised()
            } else {
                base.reasoning
            },
            tool_use: base.tool_use,
            moe: base.moe,
        }
    }

    /// Whether the model is known on this machine.
    fn is_known(&self, name: &str) -> (r: bool)
        ensures
            r == self.knows(name@),
    {
        any_text(self.local_names.as_slice(), name) || any_text(self.hosted_models.as_slice(), name)
            || any_text(self.serving_models.as_slice(), name) || same_text(
            name,
            self.model_name.as_str(),
        )
    }

    /// What is known of the model's file.
    fn find_metadata(&self, name: &str) -> (r: Option<&ModelMetadata>)
        ensures
            match r {
                Some(m) => self.metadata(name@) == Some(*m),
                None => self.metadata(name@) is None,
            },
    {
        if let Some(m) = self.local_metadata.get(name) {
            return Some(m);
        }
        let peers = &self.peers;
        let mut i: usize = 0;
        while i < peers.len()
            invariant
                i <= peers.len(),
                peers == self.peers,
                !self.local_metadata@.contains_key(name@),
                peer_metadata(peers@.take(i as int), name@) is None,
            decreases peers.len() - i,
        {
            assert(peers@.take(i + 1).drop_last() =~= peers@.take(i as int));
            if let Some(m) = find_listed_metadata(
                peers[i].available_model_metadata.as_slice(),
                name,
            ) {
                proof {
                    lemma_peer_metadata_stays(peers@, name@, i + 1);
                }
                return Some(m);
            }
            i = i + 1;
        }
        assert(peers@.take(i as int) =~= peers@);
        None
    }

    /// The size of the model.
    fn find_size(&self, name: &str, known: Option<&CatalogModel>) -> (r: u64)
        requires
            match known {
                Some(c) => in_catalog(self.catalog@, name@) == Some(*c),
                None => in_catalog(self.catalog@, name@) is None,
            },
        ensures
            r == self.size_bytes(name@),
    {
        if self.model_size_bytes > 0 && same_text(name, self.model_name.as_str()) {
            return self.model_size_bytes;
        }
        if let Some(n) = self.local_sizes.get(name) {
            return *n;
        }
        let peers = &self.peers;
        let mut i: usize = 0;
        while i < peers.len()
            invariant
                i <= peers.len(),
                peers == self.peers,
                !(name@ == self.model_name@ && self.model_size_bytes > 0),
                !self.local_sizes@.contains_key(name@),
                peer_size(peers@.take(i as int), name@) is None,
            decreases peers.len() - i,
        {
            assert(peers@.take(i + 1).drop_last() =~= peers@.take(i as int));
            if let Some(n) = peers[i].available_model_sizes.get(name) {
                proof {
                    lemma_peer_size_stays(peers@, name@, i + 1);
                }
                return *n;
            }
            i = i + 1;
        }
        assert(peers@.take(i as int) =~= peers@);
        match known {
            Some(c) => c.size_bytes,
            None => 0,
        }
    }

    /// What the model can do.
    fn find_capabilities(
        &self,
        e: &MeshCatalogEntry,
        local: bool,
        known: Option<&CatalogModel>,
    ) -> (r: ModelCapabilities)
        requires
            local == self.knows(e.model_name@),
            match known {
                Some(c) => in_catalog(self.catalog@, e.model_name@) == Some(*c),
                None => in_catalog(self.catalog@, e.model_name@) is None,
            },
        ensures
            r == self.capabilities(*e),
    {
        let name = e.model_name.as_str();
        let about = match known {
            Some(c) => c.description.as_str(),
            None => {
                proof {
                    reveal_strlit("");
                }
                assert(""@ =~= Seq::<char>::empty());
                ""
            },
        };
        let mut caps = match &e.descriptor {
            Some(d) => d.capabilities,
            None => if local {
                e.installed
            } else {
                ModelCapabilities::default()
            },
        };
        if local && likely_reasoning_model(name, about) {
            caps.reasoning = caps.reasoning.at_least_likely();
        }
        if local && likely_vision_model(name, about) {
            caps.vision = caps.vision.at_least_likely();
            caps.multimodal = true;
        }
        if local && likely_audio_model(name, about) {
            caps.audio = caps.audio.at_least_likely();
            caps.multimodal = true;
        }
        caps
    }
}

/// A text without the space around it, if anything is left.
pub open spec fn filled(s: Seq<char>) -> Option<Seq<char>> {
    if trimmed(s).len() > 0 {
        Some(trimmed(s))
    } else {
        None
    }
}

/// A text without the space around it, if anything is left.
fn fill(s: &str) -> (r: Option<String>)
    ensures
        opt_text(r) == filled(s@),
{
    let t = trim(chars_of(s).as_slice());
    if t.is_empty() {
        None
    } else {
        Some(string_of(t.as_slice()))
    }
}

/// A count, unless it is zero.
pub open spec fn counted(n: u32) -> Option<u32> {
    if n > 0 {
        Some(n)
    } else {
        None
    }
}

/// The quantization of a model: as its file says, or as the name of the
/// catalogue's file spells it.
pub open spec fn quantization(
    metadata: Option<ModelMetadata>,
    known: Option<CatalogModel>,
) -> Option<Seq<char>> {
    let said = match metadata {
        Some(m) => filled(m.quantization_type@),
        None => None,
    };
    match said {
        Some(q) => Some(q),
        None => match known {
            Some(c) => if has_suffix(c.file@, ".gguf"@) && c.file_quantization@.len() > 0 {
                Some(c.file_quantization@)
            } else {
                None
            },
            None => None,
        },
    }
}

/// The number of experts, in all and used at once: as the server says, as the
/// file says, or as the catalogue says.
pub open spec fn experts(
    topology: Option<MoeTopology>,
    metadata: Option<ModelMetadata>,
    known: Option<CatalogModel>,
) -> (Option<u32>, Option<u32>) {
    let listed = match known {
        Some(c) => match c.moe {
            Some(moe) => (Some(moe.n_expert), Some(moe.n_expert_used)),
            None => (None, None),
        },
        None => (None, None),
    };
    let said = match metadata {
        Some(m) => (counted(m.expert_count), counted(m.used_expert_count)),
        None => (None, None),
    };
    match topology {
        Some(moe) => (Some(moe.expert_count), Some(moe.used_expert_count)),
        None => (
            if said.0 is Some {
                said.0
            } else {
                listed.0
            },
            if said.1 is Some {
                said.1
            } else {
                listed.1
            },
        ),
    }
}

/// The quantization of a model.
fn find_quantization(metadata: Option<&ModelMetadata>, known: Option<&CatalogModel>) -> (r: Option<
    String,
>)
    ensures
        opt_text(r) == quantization(opt_ref(metadata), opt_ref(known)),
{
    let said = match metadata {
        Some(m) => fill(m.quantization_type.as_str()),
        None => None,
    };
    if said.is_some() {
        return said;
    }
    match known {
        Some(c) => if ends_with(c.file.as_str(), ".gguf") && !c.file_quantization.as_str().is_empty() {
            Some(c.file_quantization.clone())
        } else {
            None
        },
        None => None,
    }
}

/// An optional value without the reference.
pub open spec fn opt_ref<T>(value: Option<&T>) -> Option<T> {
    match value {
        Some(v) => Some(*v),
        None => None,
    }
}

/// A count, unless it is zero.
fn count_of(n: u32) -> (r: Option<u32>)
    ensures
        r == counted(n),
{
    if n > 0 {
        Some(n)
    } else {
        None
    }
}

/// The number of experts, in all and used at once.
fn find_experts(
    topology: Option<&MoeTopology>,
    metadata: Option<&ModelMetadata>,
    known: Option<&CatalogModel>,
) -> (r: (Option<u32>, Option<u32>))
    ensures
        r == experts(opt_ref(topology), opt_ref(metadata), opt_ref(known)),
{
    if let Some(moe) = topology {
        return (Some(moe.expert_count), Some(moe.used_expert_count));
    }
    let mut all: Option<u32> = None;
    let mut used: Option<u32> = None;
    if let Some(m) = metadata {
        all = count_of(m.expert_count);
        used = count_of(m.used_expert_count);
    }
    if let Some(c) = known {
        if let Some(moe) = &c.moe {
            if all.is_none() {
                all = Some(moe.n_expert);
            }
            if used.is_none() {
                used = Some(moe.n_expert_used);
            }
        }
    }
    (all, used)
}

/// The page that a model comes from: by its identity, or by the catalogue if the
/// model is known here.
pub open spec fn source_page(
    identity: Option<ServedModelIdentity>,
    local: bool,
    known: Option<CatalogModel>,
) -> Option<Seq<char>> {
    let own = match identity {
        Some(i) => i.page(),
        None => None,
    };
    match own {
        Some(page) => Some(page),
        None => match known {
            Some(c) => if local {
                opt_text(c.repo_url)
            } else {
                None
            },
            None => None,
        },
    }
}

/// The repository that a model comes from: by its identity, or by its page.
pub open spec fn source_repository(
    identity: Option<ServedModelIdentity>,
    page: Option<Seq<char>>,
) -> Option<Seq<char>> {
    let own = match identity {
        Some(i) => i.hub_repository(),
        None => None,
    };
    match own {
        Some(repo) => Some(repo),
        None => match page {
            Some(url) => Some(without_text(url, "https://huggingface.co/"@, 0)),
            None => None,
        },
    }
}

/// The file that a model comes from: by its identity, or by the catalogue if the
/// model is known here.
pub open spec fn source_file(
    identity: Option<ServedModelIdentity>,
    local: bool,
    known: Option<CatalogModel>,
) -> Option<Seq<char>> {
    let own = match identity {
        Some(i) => i.file(),
        None => None,
    };
    match own {
        Some(file) => Some(file),
        None => match known {
            Some(c) => if local {
                Some(c.file@)
            } else {
                None
            },
            None => None,
        },
    }
}

impl CatalogModel {
    /// The reference under which the catalogue's model can be fetched.
    pub open spec fn reference(&self) -> Option<Seq<char>> {
        match (self.source_repo, self.source_file) {
            (Some(repo), Some(file)) => match self.source_revision {
                Some(revision) => Some(repo@ + "@"@ + revision@ + "/"@ + file@),
                None => Some(repo@ + "/"@ + file@),
            },
            _ => None,
        }
    }

    /// The reference under which the catalogue's model can be fetched.
    pub fn command_reference(&self) -> (r: Option<String>)
        ensures
            opt_text(r) == self.reference(),
    {
        match (&self.source_repo, &self.source_file) {
            (Some(repo), Some(file)) => match &self.source_revision {
                Some(revision) => Some(
                    repo.clone().concat("@").concat(revision.as_str()).concat("/").concat(
                        file.as_str(),
                    ),
                ),
                None => Some(repo.clone().concat("/").concat(file.as_str())),
            },
            _ => None,
        }
    }
}

/// The reference that the commands name: the canonical one, or the catalogue's if
/// the model is known here, or the model's name.
pub open spec fn command_ref(
    name: Seq<char>,
    identity: Option<ServedModelIdentity>,
    local: bool,
    known: Option<CatalogModel>,
) -> Seq<char> {
    let own = match identity {
        Some(i) => opt_text(i.canonical_ref),
        None => None,
    };
    match own {
        Some(r) => r,
        None => match known {
            Some(c) => if local && c.reference() is Some {
                c.reference()->0
            } else {
                name
            },
            None => name,
        },
    }
}

/// The page that a model comes from.
fn find_source_page(
    identity: Option<&ServedModelIdentity>,
    local: bool,
    known: Option<&CatalogModel>,
) -> (r: Option<String>)
    ensures
        opt_text(r) == source_page(opt_ref(identity), local, opt_ref(known)),
{
    if let Some(i) = identity {
        let own = source_page_url_from_identity(i);
        if own.is_some() {
            return own;
        }
    }
    match known {
        Some(c) => if local {
            copy_opt(&c.repo_url)
        } else {
            None
        },
        None => None,
    }
}

/// The repository that a model comes from.
fn find_source_repository(identity: Option<&ServedModelIdentity>, page: &Option<String>) -> (r:
    Option<String>)
    ensures
        opt_text(r) == source_repository(opt_ref(identity), opt_text(*page)),
{
    if let Some(i) = identity {
        let own = huggingface_repository_from_identity(i);
        if own.is_some() {
            return own;
        }
    }
    match page {
        Some(url) => Some(remove_text(url.as_str(), "https://huggingface.co/")),
        None => None,
    }
}

/// The file that a model comes from.
fn find_source_file(
    identity: Option<&ServedModelIdentity>,
    local: bool,
    known: Option<&CatalogModel>,
) -> (r: Option<String>)
    ensures
        opt_text(r) == source_file(opt_ref(identity), local, opt_ref(known)),
{
    if let Some(i) = identity {
        let own = source_file_from_identity(i);
        if own.is_some() {
            return own;
        }
    }
    match known {
        Some(c) => if local {
            Some(c.file.clone())
        } else {
            None
        },
        None => None,
    }
}

/// The reference that the commands name.
fn find_command_ref(
    name: &str,
    identity: Option<&ServedModelIdentity>,
    local: bool,
    known: Option<&CatalogModel>,
) -> (r: String)
    ensures
        r@ == command_ref(name@, opt_ref(identity), local, opt_ref(known)),
{
    if let Some(i) = identity {
        if let Some(own) = &i.canonical_ref {
            return own.clone();
        }
    }
    if local {
        if let Some(c) = known {
            if let Some(r) = c.command_reference() {
                return r;
            }
        }
    }
    name.to_owned()
}

/// What a model can do, as it is listed.
#[derive(Debug)]
pub struct CapabilityListing {
    pub multimodal: bool,
    pub multimodal_status: Option<&'static str>,
    pub vision: bool,
    pub vision_status: Option<&'static str>,
    pub audio: bool,
    pub audio_status: Option<&'static str>,
    pub reasoning: bool,
    pub reasoning_status: Option<&'static str>,
    pub tool_use: bool,
    pub tool_use_status: Option<&'static str>,
}

/// What is known of a model's file, as it is listed.
#[derive(Debug)]
pub struct FileListing {
    pub architecture: Option<String>,
    pub context_length: Option<u32>,
    pub quantization: Option<String>,
    pub description: Option<String>,
    pub draft_model: Option<String>,
}

/// What is known of a model's experts, as it is listed.
#[derive(Debug)]
pub struct ExpertListing {
    pub moe: bool,
    pub expert_count: Option<u32>,
    pub used_expert_count: Option<u32>,
    pub ranking_source: Option<String>,
    pub ranking_origin: Option<String>,
    pub ranking_prompt_count: Option<u32>,
    pub ranking_tokens: Option<u32>,
    pub ranking_layer_scope: Option<String>,
}

/// Where a model comes from and how to get it, as it is listed.
#[derive(Debug)]
pub struct SourceListing {
    pub source_page_url: Option<String>,
    pub source_ref: Option<String>,
    pub source_revision: Option<String>,
    pub source_file: Option<String>,
    pub download_command: String,
    pub run_command: String,
    pub auto_command: String,
}

/// Who serves a model and how well it fits, as it is listed.
#[derive(Debug)]
pub struct ServiceListing {
    pub status: String,
    pub routes: HttpRouteStats,
    pub size_gb: Gigabytes,
    pub fit_label: String,
    pub fit_detail: String,
    /// How the mesh serves the model.
    pub split_kind: String,
    pub mesh_fit: MeshFitPayload,
}

/// How much a model is asked for, as it is listed.
#[derive(Debug)]
pub struct DemandListing {
    pub request_count: Option<u64>,
    pub last_active_secs_ago: Option<u64>,
    /// What came of the requests that this node routed, as JSON text.
    pub routing_metrics: Option<String>,
}

/// A model as it is listed.
#[derive(Debug)]
pub struct MeshModelPayload {
    pub name: String,
    pub display_name: String,
    pub capabilities: CapabilityListing,
    pub file: FileListing,
    pub experts: ExpertListing,
    pub source: SourceListing,
    pub service: ServiceListing,
    pub demand: DemandListing,
}

/// The identity of an entry's model.
pub open spec fn identity_of(e: MeshCatalogEntry) -> Option<ServedModelIdentity> {
    match e.descriptor {
        Some(d) => Some(d.identity),
        None => None,
    }
}

/// The experts of an entry's model, as its server describes them.
pub open spec fn topology_of(e: MeshCatalogEntry) -> Option<MoeTopology> {
    match e.descriptor {
        Some(d) => d.moe,
        None => None,
    }
}

/// A capability is shown with its level, unless it is absent.
pub open spec fn shows_level(
    shown: bool,
    status: Option<&'static str>,
    level: CapabilityLevel,
) -> bool {
    &&& shown == level.is_some()
    &&& opt_str(status) == (if level.is_some() {
        Some(level.word())
    } else {
        None
    })
}

/// What a model can do is shown.
pub open spec fn shows_capabilities(r: CapabilityListing, caps: ModelCapabilities) -> bool {
    &&& r.multimodal == caps.takes_media()
    &&& opt_str(r.multimodal_status) == (if caps.takes_media() {
        Some("supported"@)
    } else {
        None
    })
    &&& shows_level(r.vision, r.vision_status, caps.vision)
    &&& shows_level(r.audio, r.audio_status, caps.audio)
    &&& shows_level(r.reasoning, r.reasoning_status, caps.reasoning)
    &&& shows_level(r.tool_use, r.tool_use_status, caps.tool_use)
}

/// What is known of a model's file is shown.
pub open spec fn shows_file(
    r: FileListing,
    metadata: Option<ModelMetadata>,
    known: Option<CatalogModel>,
) -> bool {
    &&& opt_text(r.architecture) == (match metadata {
        Some(m) => filled(m.architecture@),
        None => None,
    })
    &&& r.context_length == (match metadata {
        Some(m) => counted(m.context_length),
        None => None,
    })
    &&& opt_text(r.quantization) == quantization(metadata, known)
    &&& opt_text(r.description) == (match known {
        Some(c) => Some(c.description@),
        None => None,
    })
    &&& opt_text(r.draft_model) == (match known {
        Some(c) => opt_text(c.draft),
        None => None,
    })
}

/// What is known of a model's experts is shown.
pub open spec fn shows_experts(
    r: ExpertListing,
    caps: ModelCapabilities,
    topology: Option<MoeTopology>,
    metadata: Option<ModelMetadata>,
    known: Option<CatalogModel>,
) -> bool {
    &&& r.moe == (caps.moe || topology is Some || (metadata matches Some(m) && m.is_moe))
    &&& (r.expert_count, r.used_expert_count) == experts(topology, metadata, known)
    &&& match topology {
        Some(moe) => {
            &&& opt_text(r.ranking_source) == opt_text(moe.ranking_source)
            &&& opt_text(r.ranking_origin) == opt_text(moe.ranking_origin)
            &&& r.ranking_prompt_count == moe.ranking_prompt_count
            &&& r.ranking_tokens == moe.ranking_tokens
            &&& opt_text(r.ranking_layer_scope) == opt_text(moe.ranking_layer_scope)
        },
        None => {
            &&& r.ranking_source is None
            &&& r.ranking_origin is None
            &&& r.ranking_prompt_count is None
            &&& r.ranking_tokens is None
            &&& r.ranking_layer_scope is None
        },
    }
}

/// Where a model comes from, and how to get it, is shown.
pub open spec fn shows_source(
    r: SourceListing,
    name: Seq<char>,
    identity: Option<ServedModelIdentity>,
    local: bool,
    known: Option<CatalogModel>,
) -> bool {
    let reference = command_ref(name, identity, local, known);
    &&& opt_text(r.source_page_url) == source_page(identity, local, known)
    &&& opt_text(r.source_ref) == source_repository(identity, source_page(identity, local, known))
    &&& opt_text(r.source_revision) == (match identity {
        Some(i) => opt_text(i.revision),
        None => None,
    })
    &&& opt_text(r.source_file) == source_file(identity, local, known)
    &&& r.download_command@ == "senda models download "@ + reference
    &&& r.run_command@ == "senda serve --model "@ + reference
    &&& r.auto_command@ == "senda serve --auto --model "@ + reference
}

/// Who serves a model, and how well it fits, is shown.
pub open spec fn shows_service(r: ServiceListing, s: ModelSurvey, name: Seq<char>, moe: bool) -> bool {
    let warm = texts(s.served@).contains(name);
    let own = units_of_bytes(s.fast_memory_bytes);
    let size = units_of_bytes(s.size_bytes(name));
    &&& r.status@ == (if warm {
        "warm"@
    } else {
        "cold"@
    })
    &&& shows_routes(r.routes, s, name)
    &&& r.size_gb.units() == size
    &&& r.fit_label@ == fit_label(machine_fit(size, own))
    &&& r.fit_detail@ == fit_detail(
        machine_fit(size, own),
        tenths_text(tenths(size)),
        tenths_text(tenths(own)),
    )
    &&& r.split_kind@ == split_kind(
        name,
        warm,
        moe,
        r.routes.node_count,
        size,
        s.peers@,
        own,
        texts(s.serving_models@).contains(name),
    )
    &&& is_mesh_fit(r.mesh_fit, size, own, s.peers@)
}

/// Who answers for a model is shown: nobody while no node serves it.
pub open spec fn shows_routes(r: HttpRouteStats, s: ModelSurvey, name: Seq<char>) -> bool {
    if texts(s.served@).contains(name) {
        is_route_stats(
            r,
            name,
            s.peers@,
            texts(s.hosted_models@),
            opt_text(s.hostname),
            units_of_bytes(s.fast_memory_bytes),
        )
    } else {
        r.node_count == 0 && r.active_nodes@.len() == 0 && r.mesh_vram_gb.units() == 0
    }
}

/// How much a model is asked for, and what came of it, is shown.
pub open spec fn shows_demand(r: DemandListing, s: ModelSurvey, name: Seq<char>) -> bool {
    &&& opt_text(r.routing_metrics) == (if s.routing_metrics@.contains_key(name) {
        Some(s.routing_metrics@[name]@)
    } else {
        None
    })
    &&& if s.demand@.contains_key(name) {
        let d = s.demand@[name];
        &&& r.request_count == Some(d.request_count)
        &&& r.last_active_secs_ago == Some(
            if s.now_secs >= d.last_active {
                (s.now_secs - d.last_active) as u64
            } else {
                0u64
            },
        )
    } else {
        r.request_count is None && r.last_active_secs_ago is None
    }
}

/// An entry is listed with all that is known of its model.
pub open spec fn shows_model(r: MeshModelPayload, s: ModelSurvey, e: MeshCatalogEntry) -> bool {
    let name = e.model_name@;
    let known = in_catalog(s.catalog@, name);
    let metadata = s.metadata(name);
    let caps = s.capabilities(e);
    &&& r.name@ == name
    &&& r.display_name@ == e.display_name@
    &&& shows_capabilities(r.capabilities, caps)
    &&& shows_file(r.file, metadata, known)
    &&& shows_experts(r.experts, caps, topology_of(e), metadata, known)
    &&& shows_source(r.source, name, identity_of(e), s.knows(name), known)
    &&& shows_service(r.service, s, name, r.experts.moe)
    &&& shows_demand(r.demand, s, name)
}

/// The word for a level that is not absent.
fn level_status(level: CapabilityLevel) -> (r: Option<&'static str>)
    ensures
        opt_str(r) == (if level.is_some() {
            Some(level.word())
        } else {
            None
        }),
{
    if level.has_it() {
        Some(level.status())
    } else {
        None
    }
}

/// Lists what a model can do.
fn list_capabilities(caps: ModelCapabilities) -> (r: CapabilityListing)
    ensures
        shows_capabilities(r, caps),
{
    CapabilityListing {
        multimodal: caps.supports_multimodal_runtime(),
        multimodal_status: if caps.supports_multimodal_runtime() {
            Some("supported")
        } else {
            None
        },
        vision: caps.vision.has_it(),
        vision_status: level_status(caps.vision),
        audio: caps.audio.has_it(),
        audio_status: level_status(caps.audio),
        reasoning: caps.reasoning.has_it(),
        reasoning_status: level_status(caps.reasoning),
        tool_use: caps.tool_use.has_it(),
        tool_use_status: level_status(caps.tool_use),
    }
}

/// Lists what is known of a model's file.
fn list_file(metadata: Option<&ModelMetadata>, known: Option<&CatalogModel>) -> (r: FileListing)
    ensures
        shows_file(r, opt_ref(metadata), opt_ref(known)),
{
    FileListing {
        architecture: match metadata {
            Some(m) => fill(m.architecture.as_str()),
            None => None,
        },
        context_length: match metadata {
            Some(m) => count_of(m.context_length),
            None => None,
        },
        quantization: find_quantization(metadata, known),
        description: match known {
            Some(c) => Some(c.description.clone()),
            None => None,
        },
        draft_model: match known {
            Some(c) => copy_opt(&c.draft),
            None => None,
        },
    }
}

/// Lists what is known of a model's experts.
fn list_experts(
    caps: ModelCapabilities,
    topology: Option<&MoeTopology>,
    metadata: Option<&ModelMetadata>,
    known: Option<&CatalogModel>,
) -> (r: ExpertListing)
    ensures
        shows_experts(r, caps, opt_ref(topology), opt_ref(metadata), opt_ref(known)),
{
    let moe = caps.moe || topology.is_some() || match metadata {
        Some(m) => m.is_moe,
        None => false,
    };
    let (expert_count, used_expert_count) = find_experts(topology, metadata, known);
    match topology {
        Some(t) => ExpertListing {
            moe,
            expert_count,
            used_expert_count,
            ranking_source: copy_opt(&t.ranking_source),
            ranking_origin: copy_opt(&t.ranking_origin),
            ranking_prompt_count: t.ranking_prompt_count,
            ranking_tokens: t.ranking_tokens,
            ranking_layer_scope: copy_opt(&t.ranking_layer_scope),
        },
        None => ExpertListing {
            moe,
            expert_count,
            used_expert_count,
            ranking_source: None,
            ranking_origin: None,
            ranking_prompt_count: None,
            ranking_tokens: None,
            ranking_layer_scope: None,
        },
    }
}

/// Lists where a model comes from and how to get it.
fn list_source(
    name: &str,
    identity: Option<&ServedModelIdentity>,
    local: bool,
    known: Option<&CatalogModel>,
) -> (r: SourceListing)
    ensures
        shows_source(r, name@, opt_ref(identity), local, opt_ref(known)),
{
    let page = find_source_page(identity, local, known);
    let repository = find_source_repository(identity, &page);
    let reference = find_command_ref(name, identity, local, known);
    SourceListing {
        source_page_url: page,
        source_ref: repository,
        source_revision: match identity {
            Some(i) => copy_opt(&i.revision),
            None => None,
        },
        source_file: find_source_file(identity, local, known),
        download_command: "senda models download ".to_owned().concat(reference.as_str()),
        run_command: "senda serve --model ".to_owned().concat(reference.as_str()),
        auto_command: "senda serve --auto --model ".to_owned().concat(reference.as_str()),
    }
}

/// Lists who answers for a model.
fn list_routes(s: &ModelSurvey, name: &str, warm: bool) -> (r: HttpRouteStats)
    requires
        warm == texts(s.served@).contains(name@),
        s.peers@.len() < usize::MAX,
    ensures
        shows_routes(r, *s, name@),
{
    if warm {
        let hostname = match &s.hostname {
            Some(h) => Some(h),
            None => None,
        };
        http_route_stats(
            name,
            s.peers.as_slice(),
            s.hosted_models.as_slice(),
            hostname,
            Gigabytes::from_bytes(s.fast_memory_bytes),
        )
    } else {
        HttpRouteStats { node_count: 0, active_nodes: Vec::new(), mesh_vram_gb: Gigabytes::zero() }
    }
}

/// Lists who serves a model and how well it fits.
fn list_service(s: &ModelSurvey, name: &str, moe: bool, known: Option<&CatalogModel>) -> (r:
    ServiceListing)
    requires
        opt_ref(known) == in_catalog(s.catalog@, name@),
        s.peers@.len() < u32::MAX,
    ensures
        shows_service(r, *s, name@, moe),
{
    let warm = any_text(s.served.as_slice(), name);
    let own = Gigabytes::from_bytes(s.fast_memory_bytes);
    let size = Gigabytes::from_bytes(s.find_size(name, known));
    let routes = list_routes(s, name, warm);
    let (fit_label, fit_detail) = fit_hint_for_machine(size, own);
    let split_kind = classify_model_split_kind(
        name,
        warm,
        moe,
        routes.node_count,
        size,
        s.peers.as_slice(),
        own,
        any_text(s.serving_models.as_slice(), name),
    );
    let mesh_fit = compute_mesh_fit(size, own, s.peers.as_slice());
    ServiceListing {
        status: if warm {
            "warm".to_owned()
        } else {
            "cold".to_owned()
        },
        routes,
        size_gb: size,
        fit_label,
        fit_detail,
        split_kind,
        mesh_fit,
    }
}

/// Lists how much a model is asked for.
fn list_demand(s: &ModelSurvey, name: &str) -> (r: DemandListing)
    ensures
        shows_demand(r, *s, name@),
{
    let routing_metrics = match s.routing_metrics.get(name) {
        Some(text) => Some(text.clone()),
        None => None,
    };
    match s.demand.get(name) {
        Some(d) => DemandListing {
            routing_metrics,
            request_count: Some(d.request_count),
            last_active_secs_ago: Some(
                if s.now_secs >= d.last_active {
                    s.now_secs - d.last_active
                } else {
                    0
                },
            ),
        },
        None => DemandListing {
            routing_metrics,
            request_count: None,
            last_active_secs_ago: None,
        },
    }
}

/// Lists an entry with all that is known of its model.
pub fn describe_model(s: &ModelSurvey, e: &MeshCatalogEntry) -> (r: MeshModelPayload)
    requires
        s.peers@.len() < u32::MAX,
    ensures
        shows_model(r, *s, *e),
{
    let name = e.model_name.as_str();
    let known = find_catalog_model(s.catalog.as_slice(), name);
    let local = s.is_known(name);
    let identity = match &e.descriptor {
        Some(d) => Some(&d.identity),
        None => None,
    };
    let topology = match &e.descriptor {
        Some(d) => match &d.moe {
            Some(moe) => Some(moe),
            None => None,
        },
        None => None,
    };
    let metadata = s.find_metadata(name);
    let caps = s.find_capabilities(e, local, known);
    assert(opt_ref(known) == in_catalog(s.catalog@, name@));
    assert(opt_ref(metadata) == s.metadata(name@));
    assert(opt_ref(identity) == identity_of(*e));
    assert(opt_ref(topology) == topology_of(*e));
    let experts = list_experts(caps, topology, metadata, known);
    let service = list_service(s, name, experts.moe, known);
    MeshModelPayload {
        name: e.model_name.clone(),
        display_name: e.display_name.clone(),
        capabilities: list_capabilities(caps),
        file: list_file(metadata, known),
        experts,
        source: list_source(name, identity, local, known),
        service,
        demand: list_demand(s, name),
    }
}

/// Lists all entries, in their order.
pub fn mesh_models(s: &ModelSurvey, entries: &[MeshCatalogEntry]) -> (r: Vec<MeshModelPayload>)
    requires
        s.peers@.len() < u32::MAX,
    ensures
        r@.len() == entries@.len(),
        forall|i: int| 0 <= i < r@.len() ==> shows_model(#[trigger] r@[i], *s, entries@[i]),
{
    let mut r: Vec<MeshModelPayload> = Vec::new();
    let mut i: usize = 0;
    while i < entries.len()
        invariant
            i <= entries.len(),
            r.len() == i,
            s.peers@.len() < u32::MAX,
            forall|j: int| 0 <= j < i ==> shows_model(#[trigger] r@[j], *s, entries@[j]),
        decreases entries.len() - i,
    {
        r.push(describe_model(s, &entries[i]));
        i = i + 1;
    }
    r
}

/// A fit never gets worse when the machine has more memory: what is comfortable
/// stays comfortable, what fits keeps fitting, and what can be tried can still be
/// tried.
pub proof fn law_more_memory_fits_no_worse(size: nat, less: nat, more: nat)
    requires
        0 < less <= more,
    ensures
        machine_fit(size, less) is Comfortable ==> machine_fit(size, more) is Comfortable,
        machine_fit(size, less) is Tight ==> machine_fit(size, more) is Comfortable
            || machine_fit(size, more) is Tight,
        machine_fit(size, more) is TooLarge ==> machine_fit(size, less) is TooLarge,
{
    assert forall|bits: nat| less * vstd::arithmetic::power2::pow2(bits) <= more
        * #[trigger] vstd::arithmetic::power2::pow2(bits) by {
        vstd::arithmetic::mul::lemma_mul_inequality(
            less as int,
            more as int,
            vstd::arithmetic::power2::pow2(bits) as int,
        );
    }
    assert(less * vstd::arithmetic::power2::pow2(52) <= more * vstd::arithmetic::power2::pow2(52));
    assert(less * vstd::arithmetic::power2::pow2(53) <= more * vstd::arithmetic::power2::pow2(53));
}

/// A model that no node serves is listed cold: without nodes, without memory in
/// use, and with no way of being served.
pub proof fn law_unserved_models_are_cold(r: MeshModelPayload, s: ModelSurvey, e: MeshCatalogEntry)
    requires
        shows_model(r, s, e),
        !texts(s.served@).contains(e.model_name@),
    ensures
        r.service.status@ == "cold"@,
        r.service.split_kind@ == "cold"@,
        r.service.routes.node_count == 0,
        r.service.routes.active_nodes@.len() == 0,
        r.service.routes.mesh_vram_gb.units() == 0,
{
}

/// Names and descriptions are no evidence about a model that this machine does
/// not know: it is listed with what its server says of it, or with nothing.
pub proof fn law_strangers_are_not_guessed_at(s: ModelSurvey, e: MeshCatalogEntry)
    requires
        !s.knows(e.model_name@),
    ensures
        s.capabilities(e) == (match e.descriptor {
            Some(d) => d.capabilities,
            None => no_capabilities(),
        }),
{
}

/// An entry of the catalogue goes by its name and by that of its file, with the ending
/// of a model file or without.
pub proof fn law_names_of_an_entry(c: CatalogModel, name: Seq<char>)
    ensures
        c.name@ == name ==> c.goes_by(name),
        c.file@ == name + ".gguf"@ ==> c.goes_by(name),
        c.file@ == name && !has_suffix(name, ".gguf"@) ==> c.goes_by(name),
        c.name@ != name && c.file@ != name + ".gguf"@ && c.file@ != name ==> !c.goes_by(name),
{
    reveal_strlit(".gguf");
    let end = ".gguf"@;
    if c.file@ == name + end {
        assert(c.file@.skip(c.file@.len() - 5) =~= end);
        assert(c.file@.take(c.file@.len() - 5) =~= name);
    }
    if has_suffix(c.file@, end) {
        assert(c.file@.take(c.file@.len() - 5) + end =~= c.file@);
    }
}

/// The first entry of the catalogue that goes by a name is found, wherever it stands,
/// and nothing is found if there is none.
pub proof fn law_first_entry_is_found(catalog: Seq<CatalogModel>, name: Seq<char>, i: int)
    requires
        0 <= i <= catalog.len(),
        forall|j: int| 0 <= j < i ==> !(#[trigger] catalog[j]).goes_by(name),
        i < catalog.len() ==> catalog[i].goes_by(name),
    ensures
        i < catalog.len() ==> in_catalog(catalog, name) == Some(catalog[i]),
        i == catalog.len() ==> in_catalog(catalog, name) is None,
    decreases catalog.len(),
{
    if catalog.len() > 0 {
        let head = catalog.drop_last();
        assert(catalog.last() == catalog[catalog.len() - 1]);
        assert forall|j: int| 0 <= j < i && j < head.len() implies !(#[trigger] head[j]).goes_by(
            name,
        ) by {
            assert(head[j] == catalog[j]);
        }
        if i < head.len() {
            assert(head[i] == catalog[i]);
            law_first_entry_is_found(head, name, i);
        } else {
            law_first_entry_is_found(head, name, head.len() as int);
        }
    }
}

/// The first peer that knows the size of a model is believed, wherever it stands.
pub proof fn law_first_peer_size_is_found(peers: Seq<PeerInfo>, name: Seq<char>, i: int)
    requires
        0 <= i <= peers.len(),
        forall|j: int|
            0 <= j < i ==> !(#[trigger] peers[j]).available_model_sizes@.contains_key(name),
        i < peers.len() ==> peers[i].available_model_sizes@.contains_key(name),
    ensures
        i < peers.len() ==> peer_size(peers, name) == Some(peers[i].available_model_sizes@[name]),
        i == peers.len() ==> peer_size(peers, name) is None,
    decreases peers.len(),
{
    if peers.len() > 0 {
        let head = peers.drop_last();
        assert(peers.last() == peers[peers.len() - 1]);
        assert forall|j: int| 0 <= j < i && j < head.len() implies !(
        #[trigger] head[j]).available_model_sizes@.contains_key(name) by {
            assert(head[j] == peers[j]);
        }
        if i < head.len() {
            assert(head[i] == peers[i]);
            law_first_peer_size_is_found(head, name, i);
        } else {
            law_first_peer_size_is_found(head, name, head.len() as int);
        }
    }
}

proof fn lemma_listed_metadata_at(list: Seq<ModelMetadata>, name: Seq<char>, k: int)
    requires
        0 <= k <= list.len(),
        forall|j: int| 0 <= j < k ==> (#[trigger] list[j]).model_key@ != name,
        k < list.len() ==> list[k].model_key@ == name,
    ensures
        k < list.len() ==> listed_metadata(list, name) == Some(list[k]),
        k == list.len() ==> listed_metadata(list, name) is None,
    decreases list.len(),
{
    if list.len() > 0 {
        let head = list.drop_last();
        assert(list.last() == list[list.len() - 1]);
        assert forall|j: int| 0 <= j < k && j < head.len() implies (#[trigger] head[j]).model_key@
            != name by {
            assert(head[j] == list[j]);
        }
        if k < head.len() {
            assert(head[k] == list[k]);
            lemma_listed_metadata_at(head, name, k);
        } else {
            lemma_listed_metadata_at(head, name, head.len() as int);
        }
    }
}

/// The first peer that describes a model is believed, wherever it stands and wherever
/// in its list the description does.
pub proof fn law_first_peer_metadata_is_found(
    peers: Seq<PeerInfo>,
    name: Seq<char>,
    i: int,
    k: int,
)
    requires
        0 <= i < peers.len(),
        forall|j: int, l: int|
            0 <= j < i && 0 <= l < peers[j].available_model_metadata@.len() ==> (
            #[trigger] peers[j].available_model_metadata@[l]).model_key@ != name,
        0 <= k < peers[i].available_model_metadata@.len(),
        forall|l: int|
            0 <= l < k ==> (#[trigger] peers[i].available_model_metadata@[l]).model_key@ != name,
        peers[i].available_model_metadata@[k].model_key@ == name,
    ensures
        peer_metadata(peers, name) == Some(peers[i].available_model_metadata@[k]),
    decreases peers.len(),
{
    let head = peers.drop_last();
    assert(peers.last() == peers[peers.len() - 1]);
    if i < head.len() {
        assert(head[i] == peers[i]);
        assert forall|j: int, l: int|
            0 <= j < i && 0 <= l < head[j].available_model_metadata@.len() implies (
        #[trigger] head[j].available_model_metadata@[l]).model_key@ != name by {
            assert(head[j] == peers[j]);
            assert(peers[j].available_model_metadata@[l].model_key@ != name);
        }
        law_first_peer_metadata_is_found(head, name, i, k);
    } else {
        lemma_no_peer_metadata(head, name);
        lemma_listed_metadata_at(peers[i].available_model_metadata@, name, k);
    }
}

proof fn lemma_no_peer_metadata(peers: Seq<PeerInfo>, name: Seq<char>)
    requires
        forall|j: int, l: int|
            0 <= j < peers.len() && 0 <= l < peers[j].available_model_metadata@.len() ==> (
            #[trigger] peers[j].available_model_metadata@[l]).model_key@ != name,
    ensures
        peer_metadata(peers, name) is None,
    decreases peers.len(),
{
    if peers.len() > 0 {
        let head = peers.drop_last();
        let list = peers.last().available_model_metadata@;
        assert forall|j: int, l: int|
            0 <= j < head.len() && 0 <= l < head[j].available_model_metadata@.len() implies (
        #[trigger] head[j].available_model_metadata@[l]).model_key@ != name by {
            assert(head[j] == peers[j]);
            assert(peers[j].available_model_metadata@[l].model_key@ != name);
        }
        lemma_no_peer_metadata(head, name);
        assert forall|l: int| 0 <= l < list.len() implies (#[trigger] list[l]).model_key@ != name by {
            assert(peers[peers.len() - 1].available_model_metadata@[l].model_key@ != name);
        }
        lemma_listed_metadata_at(list, name, list.len() as int);
    }
}

/// Which size of a model is believed: the known one of the model that this node was
/// started with, then this machine's own, then that of a peer, then the catalogue's.
pub proof fn law_nearest_size_is_believed(s: ModelSurvey, name: Seq<char>, i: int)
    requires
        0 <= i < s.peers@.len(),
        forall|j: int|
            0 <= j < i ==> !(#[trigger] s.peers@[j]).available_model_sizes@.contains_key(name),
    ensures
        name == s.model_name@ && s.model_size_bytes > 0 ==> s.size_bytes(name)
            == s.model_size_bytes,
        (name != s.model_name@ || s.model_size_bytes == 0) && s.local_sizes@.contains_key(name)
            ==> s.size_bytes(name) == s.local_sizes@[name],
        (name != s.model_name@ || s.model_size_bytes == 0) && !s.local_sizes@.contains_key(name)
            && s.peers@[i].available_model_sizes@.contains_key(name) ==> s.size_bytes(name)
            == s.peers@[i].available_model_sizes@[name],
{
    if s.peers@[i].available_model_sizes@.contains_key(name) {
        law_first_peer_size_is_found(s.peers@, name, i);
    }
}

/// A model that some node lists as served is warm, wherever it stands in that list.
pub proof fn law_served_models_are_warm(
    r: MeshModelPayload,
    s: ModelSurvey,
    e: MeshCatalogEntry,
    i: int,
)
    requires
        shows_model(r, s, e),
        0 <= i < s.served@.len(),
        s.served@[i]@ == e.model_name@,
    ensures
        r.service.status@ == "warm"@,
        r.name@ == e.model_name@,
        r.service.size_gb.units() == units_of_bytes(s.size_bytes(e.model_name@)),
{
    assert(texts(s.served@)[i] == e.model_name@);
}

/// How much a model is asked for is shown with the time since it last was, and what
/// came of its requests as it was recorded.
pub proof fn law_demand_is_shown(r: MeshModelPayload, s: ModelSurvey, e: MeshCatalogEntry)
    requires
        shows_model(r, s, e),
    ensures
        r.demand.request_count is Some <==> s.demand@.contains_key(e.model_name@),
        s.demand@.contains_key(e.model_name@) ==> {
            let d = s.demand@[e.model_name@];
            &&& r.demand.request_count == Some(d.request_count)
            &&& r.demand.last_active_secs_ago is Some
            &&& d.last_active <= s.now_secs ==> d.last_active + r.demand.last_active_secs_ago->0
                == s.now_secs
            &&& d.last_active > s.now_secs ==> r.demand.last_active_secs_ago == Some(0u64)
        },
        s.routing_metrics@.contains_key(e.model_name@) ==> opt_text(r.demand.routing_metrics)
            == Some(s.routing_metrics@[e.model_name@]@),
{
}

/// What is guessed only adds to what is known: no capability is lowered, and whether a
/// model uses tools or experts is never guessed. A model that is known here and seems
/// to see, hear or reason is listed so.
pub proof fn law_guesses_only_add(s: ModelSurvey, e: MeshCatalogEntry)
    ensures
        ({
            let base = match e.descriptor {
                Some(d) => d.capabilities,
                None => if s.knows(e.model_name@) {
                    e.installed
                } else {
                    no_capabilities()
                },
            };
            let caps = s.capabilities(e);
            let (name, about) = (e.model_name@, s.description(e.model_name@));
            &&& caps.tool_use == base.tool_use && caps.moe == base.moe
            &&& base.multimodal ==> caps.multimodal
            &&& !(base.vision is Absent) ==> caps.vision == base.vision
            &&& !(base.audio is Absent) ==> caps.audio == base.audio
            &&& !(base.reasoning is Absent) ==> caps.reasoning == base.reasoning
            &&& s.knows(name) && seems_seeing(name, about) ==> !(caps.vision is Absent)
                && caps.multimodal
            &&& s.knows(name) && seems_hearing(name, about) ==> !(caps.audio is Absent)
                && caps.multimodal
            &&& s.knows(name) && seems_reasoning(name, about) ==> !(caps.reasoning is Absent)
            &&& !seems_seeing(name, about) ==> caps.vision == base.vision
            &&& !seems_hearing(name, about) ==> caps.audio == base.audio
            &&& !seems_reasoning(name, about) ==> caps.reasoning == base.reasoning
        }),
{
}

proof fn lemma_guess_text(name: Seq<char>, description: Seq<char>, word: Seq<char>)
    ensures
        has_text(ascii_lower(name), word) || has_text(ascii_lower(description), word) ==> has_text(
            guess_text(name, description),
            word,
        ),
{
    let space = ascii_lower(" "@);
    let none = Seq::<char>::empty();
    assert(guess_text(name, description) =~= none + ascii_lower(name) + (space + ascii_lower(
        description,
    )));
    assert(guess_text(name, description) =~= (ascii_lower(name) + space) + ascii_lower(description)
        + none);
    if has_text(ascii_lower(name), word) {
        crate::text::law_found_in_a_part(
            none,
            ascii_lower(name),
            space + ascii_lower(description),
            word,
        );
    }
    if has_text(ascii_lower(description), word) {
        crate::text::law_found_in_a_part(
            ascii_lower(name) + space,
            ascii_lower(description),
            none,
            word,
        );
    }
}

/// A telling word counts wherever it stands in the name or in the description, in
/// small letters or capital ones.
pub proof fn law_telling_words_count(name: Seq<char>, description: Seq<char>, word: Seq<char>)
    requires
        has_text(ascii_lower(name), word) || has_text(ascii_lower(description), word),
    ensures
        word == "vision"@ || word == "-vl"@ || word == "llava"@ || word == "omni"@ || word
            == "qwen2.5-vl"@ || word == "mllama"@ ==> seems_seeing(name, description),
        word == "audio"@ || word == "speech"@ || word == "voice"@ || word == "omni"@ || word
            == "ultravox"@ || word == "qwen2-audio"@ ==> seems_hearing(name, description),
        word == "reasoning"@ || word == "thinking"@ || word == "deepseek-r1"@ ==> seems_reasoning(
            name,
            description,
        ),
{
    lemma_guess_text(name, description, word);
}

/// A model suits a machine comfortably if a fifth is to spare, tightly if a twentieth
/// is, with tradeoffs if four fifths of it fit, and otherwise not, up to the last places
/// of a double.
pub proof fn law_fit_margins(size: nat, memory: nat)
    requires
        size > 0,
        memory > 0,
    ensures
        size * 120_000_000_000_001 <= memory * 100_000_000_000_000 ==> machine_fit(size, memory)
            is Comfortable,
        size * 119_999_999_999_999 >= memory * 100_000_000_000_000 ==> !(machine_fit(size, memory)
            is Comfortable),
        size * 119_999_999_999_999 >= memory * 100_000_000_000_000 && size * 105_000_000_000_001
            <= memory * 100_000_000_000_000 ==> machine_fit(size, memory) is Tight,
        size * 104_999_999_999_999 >= memory * 100_000_000_000_000 && size * 80_000_000_000_001
            <= memory * 100_000_000_000_000 ==> machine_fit(size, memory) is Tradeoffs,
        size * 79_999_999_999_999 >= memory * 100_000_000_000_000 ==> machine_fit(size, memory)
            is TooLarge,
        machine_fit(0, memory) is Unknown,
        machine_fit(size, 0) is Unknown,
{
    vstd::arithmetic::power2::lemma2_to64();
    vstd::arithmetic::power2::lemma2_to64_rest();
    let a = size * COMFORTABLE_FACTOR as nat;
    let b = size * TIGHT_FACTOR as nat;
    let c = size * TRADEOFF_FACTOR as nat;
    assert(a == size * 5_404_319_552_844_595);
    assert(b == size * 4_728_779_608_739_021);
    assert(c == size * 7_205_759_403_792_794);
    crate::double::law_rounding_error(a);
    crate::double::law_rounding_error(b);
    crate::double::law_rounding_error(c);
    assert(memory * vstd::arithmetic::power2::pow2(52) == memory * 4_503_599_627_370_496);
    assert(memory * vstd::arithmetic::power2::pow2(53) == memory * 9_007_199_254_740_992);
}

/// An owner and a name around a slash make a repository, and a model that comes from
/// one has its page.
pub proof fn law_repositories_have_pages(
    identity: ServedModelIdentity,
    owner: Seq<char>,
    name: Seq<char>,
)
    requires
        owner.len() > 0 && name.len() > 0,
        forall|i: int|
            0 <= i < owner.len() ==> #[trigger] owner[i] != '/' && owner[i] != '\\'
                && !crate::text::is_space(owner[i]),
        forall|i: int|
            0 <= i < name.len() ==> #[trigger] name[i] != '/' && name[i] != '\\'
                && !crate::text::is_space(name[i]),
    ensures
        repository_like(owner.push('/') + name),
        identity.source_kind is HuggingFace && opt_text(identity.repository) == Some(
            owner.push('/') + name,
        ) ==> identity.page() == Some("https://huggingface.co/"@ + (owner.push('/') + name)),
        !repository_like(owner),
        !(identity.source_kind is HuggingFace) ==> identity.page() is None,
        identity.repository is None ==> identity.page() is None,
{
    let whole = owner.push('/') + name;
    assert(whole[0] == owner[0]);
    assert(whole.last() == name[name.len() - 1]);
    crate::text::lemma_trimmed_already(whole);
    crate::text::lemma_trimmed_already(owner);
    assert(!owner.contains('/')) by {
        if owner.contains('/') {
            let i = choose|i: int| 0 <= i < owner.len() && owner[i] == '/';
            assert(owner[i] != '/');
        }
    }
    assert(!name.contains('/')) by {
        if name.contains('/') {
            let i = choose|i: int| 0 <= i < name.len() && name[i] == '/';
            assert(name[i] != '/');
        }
    }
    crate::text::law_two_pieces(owner, '/', name);
    crate::text::law_first_piece(owner, '/', name);
    assert(!whole.contains('\\')) by {
        if whole.contains('\\') {
            let i = choose|i: int| 0 <= i < whole.len() && whole[i] == '\\';
            if i < owner.len() {
                assert(owner[i] != '\\');
            } else if i > owner.len() {
                assert(name[i - owner.len() - 1] != '\\');
            }
        }
    }
}

/// The server's own word on where a model comes from goes before the catalogue's, and
/// the catalogue's counts only for a model that is known here.
pub proof fn law_own_source_comes_first(
    identity: ServedModelIdentity,
    c: CatalogModel,
    name: Seq<char>,
    local: bool,
)
    ensures
        identity.page() is Some ==> source_page(Some(identity), local, Some(c)) == identity.page(),
        identity.page() is None && local ==> source_page(Some(identity), local, Some(c))
            == opt_text(c.repo_url),
        source_page(None, false, Some(c)) is None,
        source_page(None, true, Some(c)) == opt_text(c.repo_url),
        identity.artifact matches Some(file) ==> source_file(Some(identity), local, Some(c))
            == Some(file@),
        source_file(None, true, Some(c)) == Some(c.file@),
        source_file(None, false, Some(c)) is None,
        identity.canonical_ref matches Some(r) ==> command_ref(name, Some(identity), local, Some(c))
            == r@,
        command_ref(name, None, false, Some(c)) == name,
        command_ref(name, None, true, None) == name,
        c.reference() is Some ==> command_ref(name, None, true, Some(c)) == c.reference()->0,
{
}

/// The numbers of experts come from the server, or else from the file, or else from
/// the catalogue, each number by itself. A file that counts zero says nothing.
pub proof fn law_nearest_expert_counts(
    topology: MoeTopology,
    m: ModelMetadata,
    c: CatalogModel,
    moe: CatalogMoe,
)
    requires
        c.moe == Some(moe),
    ensures
        experts(Some(topology), Some(m), Some(c)) == (
            Some(topology.expert_count),
            Some(topology.used_expert_count),
        ),
        experts(None, Some(m), Some(c)) == (
            Some(
                if m.expert_count > 0 {
                    m.expert_count
                } else {
                    moe.n_expert
                },
            ),
            Some(
                if m.used_expert_count > 0 {
                    m.used_expert_count
                } else {
                    moe.n_expert_used
                },
            ),
        ),
        experts(None, None, Some(c)) == (Some(moe.n_expert), Some(moe.n_expert_used)),
        experts(None, None, None) == (None::<u32>, None::<u32>),
{
}

/// The quantization is what the file says, if that says anything, and otherwise what
/// the name of the catalogue's model file spells.
pub proof fn law_nearest_quantization(m: ModelMetadata, c: CatalogModel)
    ensures
        trimmed(m.quantization_type@).len() > 0 ==> quantization(Some(m), Some(c)) == Some(
            trimmed(m.quantization_type@),
        ),
        trimmed(m.quantization_type@).len() == 0 && has_suffix(c.file@, ".gguf"@)
            && c.file_quantization@.len() > 0 ==> quantization(Some(m), Some(c)) == Some(
            c.file_quantization@,
        ),
        quantization(None, None) is None,
{
}

/// The sentence on a fit gives the memory of the machine first and the size of the
/// model after it.
pub proof fn law_fit_sentence(fit: Fit, size: Seq<char>, memory: Seq<char>)
    requires
        !(fit is Unknown),
    ensures
        crate::text::has_prefix(
            fit_detail(fit, size, memory),
            "This machine has "@ + memory + " GB capacity"@,
        ),
        has_text(fit_detail(fit, size, memory), size + " GB model"@),
{
    let t = fit_detail(fit, size, memory);
    let front = "This machine has "@ + memory;
    reveal_strlit(" GB capacity");
    reveal_strlit(" GB capacity, which should handle a ");
    reveal_strlit(" GB capacity. A ");
    reveal_strlit(" GB capacity, which is likely not enough for a ");
    reveal_strlit(" GB model");
    reveal_strlit(" GB model comfortably.");
    reveal_strlit(" GB model should fit, but headroom will be tight.");
    reveal_strlit(" GB model may load, but expect tighter memory pressure.");
    reveal_strlit(" GB model locally.");
    let (middle, end) = match fit {
        Fit::Unknown => (""@, ""@),
        Fit::Comfortable => (
            " GB capacity, which should handle a "@,
            " GB model comfortably."@,
        ),
        Fit::Tight => (" GB capacity. A "@, " GB model should fit, but headroom will be tight."@),
        Fit::Tradeoffs => (
            " GB capacity. A "@,
            " GB model may load, but expect tighter memory pressure."@,
        ),
        Fit::TooLarge => (
            " GB capacity, which is likely not enough for a "@,
            " GB model locally."@,
        ),
    };
    assert(t =~= front + middle + size + end);
    assert(middle.take(12) =~= " GB capacity"@);
    assert(end.take(9) =~= " GB model"@);
    let head = front + " GB capacity"@;
    assert(t.take(head.len() as int) =~= head);
    let part = size + " GB model"@;
    assert(t =~= (front + middle) + part + end.skip(9));
    assert(part.subrange(0, part.len() as int) =~= part);
    assert(crate::text::occurs_at(part, part, 0));
    crate::text::law_found_in_a_part(front + middle, part, end.skip(9), part);
}

/// A capability is listed exactly if the model has it or likely has it, with the word
/// for which of the two; a model that sees or hears takes more than text.
pub proof fn law_capabilities_are_listed(r: MeshModelPayload, s: ModelSurvey, e: MeshCatalogEntry)
    requires
        shows_model(r, s, e),
    ensures
        ({
            let caps = s.capabilities(e);
            let shown = r.capabilities;
            &&& shown.vision <==> caps.vision != CapabilityLevel::Absent
            &&& shown.audio <==> caps.audio != CapabilityLevel::Absent
            &&& shown.reasoning <==> caps.reasoning != CapabilityLevel::Absent
            &&& shown.tool_use <==> caps.tool_use != CapabilityLevel::Absent
            &&& shown.vision || shown.audio || caps.multimodal <==> shown.multimodal
            &&& caps.vision == CapabilityLevel::Likely ==> opt_str(shown.vision_status) == Some(
                "likely"@,
            )
            &&& caps.vision == CapabilityLevel::Supported ==> opt_str(shown.vision_status)
                == Some("supported"@)
            &&& caps.audio == CapabilityLevel::Likely ==> opt_str(shown.audio_status) == Some(
                "likely"@,
            )
            &&& caps.reasoning == CapabilityLevel::Likely ==> opt_str(shown.reasoning_status)
                == Some("likely"@)
            &&& caps.tool_use == CapabilityLevel::Supported ==> opt_str(shown.tool_use_status)
                == Some("supported"@)
            &&& !shown.vision ==> shown.vision_status is None
            &&& !shown.multimodal ==> shown.multimodal_status is None
        }),
{
}

/// What a file says of itself is listed, but a blank text or a zero says nothing. A
/// model is a mixture of experts if its server, its file or its capabilities say so.
pub proof fn law_file_is_listed(
    r: MeshModelPayload,
    s: ModelSurvey,
    e: MeshCatalogEntry,
    m: ModelMetadata,
)
    requires
        shows_model(r, s, e),
        s.metadata(e.model_name@) == Some(m),
    ensures
        m.context_length > 0 ==> r.file.context_length == Some(m.context_length),
        m.context_length == 0 ==> r.file.context_length is None,
        trimmed(m.architecture@).len() > 0 ==> opt_text(r.file.architecture) == Some(
            trimmed(m.architecture@),
        ),
        trimmed(m.architecture@).len() == 0 ==> r.file.architecture is None,
        r.experts.moe <==> m.is_moe || s.capabilities(e).moe || (e.descriptor matches Some(d)
            && d.moe is Some),
        r.display_name@ == e.display_name@,
{
}

/// The repository of a page at the hub is what follows the address of the hub.
pub proof fn law_repository_of_a_page(repo: Seq<char>)
    requires
        forall|i: int|
            "https://huggingface.co/"@.len() <= i < ("https://huggingface.co/"@ + repo).len()
                ==> !crate::text::occurs_at(
                "https://huggingface.co/"@ + repo,
                "https://huggingface.co/"@,
                i,
            ),
    ensures
        source_repository(None, Some("https://huggingface.co/"@ + repo)) == Some(repo),
        source_repository(None, None) is None,
{
    let hub = "https://huggingface.co/"@;
    reveal_strlit("https://huggingface.co/");
    let url = hub + repo;
    assert(url.subrange(0, hub.len() as int) =~= hub);
    crate::text::law_taking_out(url, hub, 0);
    crate::text::law_taking_out(url, hub, hub.len() as int);
    assert(url.skip(hub.len() as int) =~= repo);
}

/// The commands name the reference of the model, each behind its own words.
pub proof fn law_commands_name_the_model(
    r: SourceListing,
    name: Seq<char>,
    identity: Option<ServedModelIdentity>,
    local: bool,
    known: Option<CatalogModel>,
)
    requires
        shows_source(r, name, identity, local, known),
    ensures
        has_suffix(r.download_command@, command_ref(name, identity, local, known)),
        has_suffix(r.run_command@, command_ref(name, identity, local, known)),
        has_suffix(r.auto_command@, command_ref(name, identity, local, known)),
        crate::text::has_prefix(r.download_command@, "senda models download "@),
        crate::text::has_prefix(r.run_command@, "senda serve --model "@),
        crate::text::has_prefix(r.auto_command@, "senda serve --auto --model "@),
        identity is None ==> r.source_revision is None,
        identity matches Some(i) ==> opt_text(r.source_revision) == opt_text(i.revision),
{
    let reference = command_ref(name, identity, local, known);
    let (a, b, c) = (r.download_command@, r.run_command@, r.auto_command@);
    assert(a.skip(a.len() - reference.len()) =~= reference);
    assert(b.skip(b.len() - reference.len()) =~= reference);
    assert(c.skip(c.len() - reference.len()) =~= reference);
    let (x, y, z) = (
        "senda models download "@,
        "senda serve --model "@,
        "senda serve --auto --model "@,
    );
    assert(a.take(x.len() as int) =~= x);
    assert(b.take(y.len() as int) =~= y);
    assert(c.take(z.len() as int) =~= z);
}

/// A model is known on this machine if a file of it is here, if this node hosts or
/// serves it, wherever it stands in those lists, or if the node was started with it.
pub proof fn law_known_models(s: ModelSurvey, name: Seq<char>, i: int)
    ensures
        0 <= i < s.local_names@.len() && s.local_names@[i]@ == name ==> s.knows(name),
        0 <= i < s.hosted_models@.len() && s.hosted_models@[i]@ == name ==> s.knows(name),
        0 <= i < s.serving_models@.len() && s.serving_models@[i]@ == name ==> s.knows(name),
        s.model_name@ == name ==> s.knows(name),
        s.model_name@ != name && !texts(s.local_names@).contains(name) && !texts(
            s.hosted_models@,
        ).contains(name) && !texts(s.serving_models@).contains(name) ==> !s.knows(name),
{
    if 0 <= i < s.local_names@.len() {
        assert(texts(s.local_names@)[i] == s.local_names@[i]@);
    }
    if 0 <= i < s.hosted_models@.len() {
        assert(texts(s.hosted_models@)[i] == s.hosted_models@[i]@);
    }
    if 0 <= i < s.serving_models@.len() {
        assert(texts(s.serving_models@)[i] == s.serving_models@[i]@);
    }
}

/// What this machine knows of a model's file goes before what peers say, and the
/// catalogue's entry describes the model.
pub proof fn law_own_knowledge_comes_first(s: ModelSurvey, name: Seq<char>, i: int)
    ensures
        s.local_metadata@.contains_key(name) ==> s.metadata(name) == Some(
            s.local_metadata@[name],
        ),
        !s.local_metadata@.contains_key(name) ==> s.metadata(name) == peer_metadata(
            s.peers@,
            name,
        ),
        0 <= i < s.catalog@.len() && s.catalog@[i].goes_by(name) && (forall|j: int|
            0 <= j < i ==> !(#[trigger] s.catalog@[j]).goes_by(name)) ==> s.description(name)
            == s.catalog@[i].description@,
{
    if 0 <= i < s.catalog@.len() && s.catalog@[i].goes_by(name) && (forall|j: int|
        0 <= j < i ==> !(#[trigger] s.catalog@[j]).goes_by(name)) {
        law_first_entry_is_found(s.catalog@, name, i);
    }
}

/// A served model is answered for by this node, if it hosts it, and by every peer that
/// answers for it. A mixture of experts on several nodes is listed as one.
pub proof fn law_served_models_list_their_nodes(
    r: MeshModelPayload,
    s: ModelSurvey,
    e: MeshCatalogEntry,
    i: int,
)
    requires
        shows_model(r, s, e),
        texts(s.served@).contains(e.model_name@),
    ensures
        0 <= i < s.hosted_models@.len() && s.hosted_models@[i]@ == e.model_name@
            ==> r.service.routes.node_count == s.peers@.filter(
            |p: PeerInfo| p.routes(e.model_name@),
        ).len() + 1,
        !texts(s.hosted_models@).contains(e.model_name@) ==> r.service.routes.node_count
            == s.peers@.filter(|p: PeerInfo| p.routes(e.model_name@)).len(),
        r.experts.moe && r.service.routes.node_count >= 2 ==> r.service.split_kind@ == "moe"@,
        r.service.routes.node_count == 1 ==> r.service.split_kind@ == "solo"@,
        r.service.fit_label@ == fit_label(
            machine_fit(
                units_of_bytes(s.size_bytes(e.model_name@)),
                units_of_bytes(s.fast_memory_bytes),
            ),
        ),
{
    let name = e.model_name@;
    crate::split::law_answering_nodes_are_counted(
        r.service.routes,
        name,
        s.peers@,
        texts(s.hosted_models@),
        opt_text(s.hostname),
        units_of_bytes(s.fast_memory_bytes),
    );
    if 0 <= i < s.hosted_models@.len() {
        assert(texts(s.hosted_models@)[i] == s.hosted_models@[i]@);
    }
}

/// A model on several nodes that this node lists to serve, anywhere in its list, and
/// has room for is run by each node alone.
pub proof fn law_own_room_counts(
    r: MeshModelPayload,
    s: ModelSurvey,
    e: MeshCatalogEntry,
    i: int,
)
    requires
        shows_model(r, s, e),
        texts(s.served@).contains(e.model_name@),
        r.service.routes.node_count >= 2,
        !r.experts.moe,
        0 <= i < s.serving_models@.len(),
        s.serving_models@[i]@ == e.model_name@,
        crate::split::fits_in(
            units_of_bytes(s.fast_memory_bytes),
            units_of_bytes(s.size_bytes(e.model_name@)),
        ),
    ensures
        r.service.split_kind@ == "multi_host"@,
{
    assert(texts(s.serving_models@)[i] == s.serving_models@[i]@);
}

/// A repository name is an owner and a name around its only slash.
pub proof fn law_repository_has_two_parts(repository: Seq<char>) -> (r: (Seq<char>, Seq<char>))
    requires
        repository_like(repository),
    ensures
        trimmed(repository) == r.0.push('/') + r.1,
        !r.0.contains('/') && !r.1.contains('/'),
        r.0.len() > 0 && r.1.len() > 0,
        !trimmed(repository).contains('\\'),
{
    let t = trimmed(repository);
    let pieces = split_on(t, '/');
    crate::text::law_joining_undoes_splitting(t, '/');
    assert(pieces.drop_last() =~= seq![pieces[0]]);
    assert(crate::text::joined(pieces.drop_last(), '/') == pieces[0]);
    assert(t == pieces[0].push('/') + pieces[1]);
    if pieces[0].len() == 0 {
        assert(t[0] == '/');
    }
    if pieces[1].len() == 0 {
        assert(t.last() == '/');
    }
    (pieces[0], pieces[1])
}

/// A model without an artifact was read from its local file, and a catalogue's model is
/// fetched by repository and file, with the revision between them if there is one.
pub proof fn law_files_and_references(
    identity: ServedModelIdentity,
    c: CatalogModel,
    local: bool,
    repo: String,
    file: String,
)
    ensures
        identity.artifact is None && identity.local_file_name is Some ==> source_file(
            Some(identity),
            local,
            Some(c),
        ) == opt_text(identity.local_file_name),
        c.source_repo == Some(repo) && c.source_file == Some(file) && c.source_revision is None
            ==> c.reference() == Some(repo@ + "/"@ + file@),
        c.source_repo == Some(repo) && c.source_file == Some(file) && c.source_revision is Some
            ==> c.reference() == Some(repo@ + "@"@ + c.source_revision->0@ + "/"@ + file@),
        c.source_repo is None || c.source_file is None ==> c.reference() is None,
{
}

/// What a server says of its experts is shown with it, each in its place, and what the
/// catalogue says of a model's draft and description.
pub proof fn law_experts_and_drafts_are_shown(
    r: MeshModelPayload,
    s: ModelSurvey,
    e: MeshCatalogEntry,
    topology: MoeTopology,
    i: int,
)
    requires
        shows_model(r, s, e),
    ensures
        topology_of(e) == Some(topology) ==> {
            &&& r.experts.moe
            &&& r.experts.expert_count == Some(topology.expert_count)
            &&& r.experts.used_expert_count == Some(topology.used_expert_count)
            &&& r.experts.ranking_prompt_count == topology.ranking_prompt_count
            &&& r.experts.ranking_tokens == topology.ranking_tokens
            &&& opt_text(r.experts.ranking_source) == opt_text(topology.ranking_source)
            &&& opt_text(r.experts.ranking_origin) == opt_text(topology.ranking_origin)
            &&& opt_text(r.experts.ranking_layer_scope) == opt_text(topology.ranking_layer_scope)
        },
        0 <= i < s.catalog@.len() && s.catalog@[i].goes_by(e.model_name@) && (forall|j: int|
            0 <= j < i ==> !(#[trigger] s.catalog@[j]).goes_by(e.model_name@)) ==> {
            &&& opt_text(r.file.draft_model) == opt_text(s.catalog@[i].draft)
            &&& opt_text(r.file.description) == Some(s.catalog@[i].description@)
        },
{
    if 0 <= i < s.catalog@.len() && s.catalog@[i].goes_by(e.model_name@) && (forall|j: int|
        0 <= j < i ==> !(#[trigger] s.catalog@[j]).goes_by(e.model_name@)) {
        law_first_entry_is_found(s.catalog@, e.model_name@, i);
    }
}

} // verus!
