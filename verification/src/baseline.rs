//! Native baselines: what a node's hardware does on its own.
//!
//! When a local server becomes ready for a model, a synthetic completion is
//! timed and recorded as the model's native baseline. Baselines are cached for a
//! day and measured again when the model file changes. Rates are double
//! precision numbers, held as their IEEE 754 bit patterns.

use vstd::prelude::*;

use crate::clock::current_unix_secs;
use crate::fingerprint::{
    build_fingerprint, completion_tokens, fingerprint_of, last_usage, opt_fingerprint,
    output_and_tokens, parse_stream, stream_documents, stream_text, stream_tokens, trees,
    FingerprintView, LogitFingerprint, MAX_TOKENS, PROBE_SEED,
};
use crate::json::{field_trees, object, push_field, Json, JsonTree};
use crate::order::{
    int_order, ints, law_stable_order, sort_order_by_number, sorted_by, stable_order,
};
use crate::text_map::TextMap;

verus! {

/// The name of the cache file.
pub const CACHE_FILENAME: &'static str = "native-baselines.json";

/// How long a cached baseline is displayed without a new measurement: a day.
pub const CACHE_TTL_SECS: u64 = 86_400;

/// A decode window below this is taken to have collapsed: 100 milliseconds.
pub const DECODE_FLOOR_NANOS: u128 = 100_000_000;

/// The longest representable duration.
pub const DURATION_MAX_NANOS: u128 = 18_446_744_073_709_551_615_999_999_999;

/// Hard ceiling on a single run.
pub const REQUEST_TIMEOUT_SECS: u64 = 180;

/// Samples per refresh.
pub const SAMPLES_PER_REFRESH: u32 = 3;

/// Pause between the samples of a refresh.
pub const INTER_SAMPLE_DELAY_SECS: u64 = 1;

/// Delay before the first measurement.
pub const SETTLE_DELAY_SECS: u64 = 30;

/// The prompts of the probe.
pub const PROBE_SYSTEM_PROMPT: &'static str = "You are a benchmark probe. Respond concisely.";

pub const PROBE_USER_PROMPT: &'static str =
    "Write a short paragraph (about 100 words) explaining why direct measurement beats marketing claims when comparing distributed systems performance.";

/// One message of the probe.
pub open spec fn message_tree(role: Seq<char>, content: Seq<char>) -> JsonTree {
    JsonTree::Object(
        seq![
            ("role"@, JsonTree::Text(role)),
            ("content"@, JsonTree::Text(content)),
        ],
    )
}

/// The messages of the probe.
pub open spec fn probe_messages_tree() -> JsonTree {
    JsonTree::Array(
        seq![
            message_tree("system"@, PROBE_SYSTEM_PROMPT@),
            message_tree("user"@, PROBE_USER_PROMPT@),
        ],
    )
}

/// One message with its role.
fn probe_message(role: &str, content: &str) -> (r: Json)
    ensures
        r.tree() == message_tree(role@, content@),
{
    let mut fields: Vec<(String, Json)> = Vec::new();
    push_field(&mut fields, "role", Json::Text(role.to_owned()));
    push_field(&mut fields, "content", Json::Text(content.to_owned()));
    assert(field_trees(fields@) =~= message_tree(role@, content@)->Object_0);
    object(fields)
}

/// The messages that every probe sends. The baseline collector and the remote
/// verifier share them, so that their fingerprints are comparable.
pub fn probe_messages() -> (r: Json)
    ensures
        r.tree() == probe_messages_tree(),
{
    let r = Json::Array(
        vec![
            probe_message("system", PROBE_SYSTEM_PROMPT),
            probe_message("user", PROBE_USER_PROMPT),
        ],
    );
    assert(r.tree()->Array_0 =~= probe_messages_tree()->Array_0);
    r
}

/// Who sends a probe.
#[derive(Debug, Clone, Copy, PartialEq, Eq, Structural)]
pub enum ProbeKind {
    /// The baseline collector, which streams to time the first byte.
    Baseline,
    /// The capture of a reference fingerprint.
    Reference,
    /// The verifier of a remote peer.
    Remote,
}

/// The part of the request that is the same for every probe.
pub open spec fn probe_common(model: Seq<char>) -> Seq<(Seq<char>, JsonTree)> {
    seq![
        ("model"@, JsonTree::Text(model)),
        ("messages"@, probe_messages_tree()),
        ("max_tokens"@, JsonTree::Number(MAX_TOKENS as u64)),
        ("temperature"@, JsonTree::Number(0)),
        ("seed"@, JsonTree::Number(PROBE_SEED)),
        ("logprobs"@, JsonTree::Flag(true)),
    ]
}

/// The part of the request that depends on who sends it. A remote peer is kept
/// from consulting its own hooks.
pub open spec fn probe_specific(kind: ProbeKind) -> Seq<(Seq<char>, JsonTree)> {
    match kind {
        ProbeKind::Baseline => seq![
            ("stream"@, JsonTree::Flag(true)),
            (
                "stream_options"@,
                JsonTree::Object(seq![("include_usage"@, JsonTree::Flag(true))]),
            ),
        ],
        ProbeKind::Reference => seq![("stream"@, JsonTree::Flag(false))],
        ProbeKind::Remote => seq![
            ("stream"@, JsonTree::Flag(false)),
            ("mesh_hooks"@, JsonTree::Flag(false)),
        ],
    }
}

/// The body of a probe request.
pub fn probe_request(model: &str, kind: ProbeKind) -> (r: Json)
    ensures
        r.tree() == JsonTree::Object(probe_common(model@) + probe_specific(kind)),
{
    let mut fields: Vec<(String, Json)> = Vec::new();
    assert(field_trees(fields@) =~= Seq::empty());
    push_field(&mut fields, "model", Json::Text(model.to_owned()));
    push_field(&mut fields, "messages", probe_messages());
    push_field(&mut fields, "max_tokens", Json::Number(MAX_TOKENS as u64));
    push_field(&mut fields, "temperature", Json::Number(0));
    push_field(&mut fields, "seed", Json::Number(PROBE_SEED));
    push_field(&mut fields, "logprobs", Json::Flag(true));
    assert(field_trees(fields@) =~= probe_common(model@));
    match kind {
        ProbeKind::Baseline => {
            push_field(&mut fields, "stream", Json::Flag(true));
            let mut options: Vec<(String, Json)> = Vec::new();
            push_field(&mut options, "include_usage", Json::Flag(true));
            let options = object(options);
            assert(options.tree()->Object_0 =~= seq![("include_usage"@, JsonTree::Flag(true))]);
            push_field(&mut fields, "stream_options", options);
        },
        ProbeKind::Reference => {
            push_field(&mut fields, "stream", Json::Flag(false));
        },
        ProbeKind::Remote => {
            push_field(&mut fields, "stream", Json::Flag(false));
            push_field(&mut fields, "mesh_hooks", Json::Flag(false));
        },
    }
    assert(field_trees(fields@) =~= probe_common(model@) + probe_specific(kind));
    object(fields)
}

/// What identifies a run: the model, the port of its server and the backend.
#[derive(Debug)]
pub struct BaselineRequest {
    pub model: String,
    pub http_port: u16,
    pub backend: String,
}

/// The outcome of one run, or of a sweep of runs.
#[derive(Debug)]
pub struct BaselineMeasurement {
    /// Bit pattern of the decode rate in tokens per second.
    pub native_tps_p50: u64,
    pub native_ttft_ms_p50: u64,
    pub backend: String,
    pub measured_at_unix_secs: u64,
    pub logit_fingerprint: Option<LogitFingerprint>,
}

/// A baseline as it is gossiped.
#[derive(Debug)]
pub struct NativeBaselineEntry {
    pub model: String,
    pub native_tps_p50: u64,
    pub native_ttft_ms_p50: u64,
    pub measured_at_unix_secs: u64,
    pub samples: u32,
    pub backend: String,
    pub logit_fingerprint: Option<LogitFingerprint>,
}

/// A baseline as it is cached, with the modification time of the model file.
#[derive(Debug)]
pub struct CachedNativeBaseline {
    pub model: String,
    pub native_tps_p50: u64,
    pub native_ttft_ms_p50: u64,
    pub measured_at_unix_secs: u64,
    pub samples: u32,
    pub backend: String,
    pub model_file_mtime_secs: Option<u64>,
    pub logit_fingerprint: Option<LogitFingerprint>,
}

/// The mathematical content of a baseline.
#[verifier::ext_equal]
pub struct BaselineView {
    pub model: Seq<char>,
    pub native_tps_p50: u64,
    pub native_ttft_ms_p50: u64,
    pub measured_at_unix_secs: u64,
    pub samples: u32,
    pub backend: Seq<char>,
    pub logit_fingerprint: Option<FingerprintView>,
}

impl View for NativeBaselineEntry {
    type V = BaselineView;

    open spec fn view(&self) -> BaselineView {
        BaselineView {
            model: self.model@,
            native_tps_p50: self.native_tps_p50,
            native_ttft_ms_p50: self.native_ttft_ms_p50,
            measured_at_unix_secs: self.measured_at_unix_secs,
            samples: self.samples,
            backend: self.backend@,
            logit_fingerprint: opt_fingerprint(self.logit_fingerprint),
        }
    }
}

/// What of a cached baseline is gossiped. The modification time of the model file
/// stays beside it in the cache.
impl View for CachedNativeBaseline {
    type V = BaselineView;

    open spec fn view(&self) -> BaselineView {
        BaselineView {
            model: self.model@,
            native_tps_p50: self.native_tps_p50,
            native_ttft_ms_p50: self.native_ttft_ms_p50,
            measured_at_unix_secs: self.measured_at_unix_secs,
            samples: self.samples,
            backend: self.backend@,
            logit_fingerprint: opt_fingerprint(self.logit_fingerprint),
        }
    }
}

/// A copy of an optional fingerprint.
fn copy_fingerprint(fp: &Option<LogitFingerprint>) -> (r: Option<LogitFingerprint>)
    ensures
        opt_fingerprint(r) == opt_fingerprint(*fp),
{
    match fp {
        Some(fp) => Some(fp.clone()),
        None => None,
    }
}

/// The gossiped form of a cached baseline.
pub fn entry_from_cached(c: &CachedNativeBaseline) -> (entry: NativeBaselineEntry)
    ensures
        entry@ == c@,
{
    NativeBaselineEntry {
        model: c.model.clone(),
        native_tps_p50: c.native_tps_p50,
        native_ttft_ms_p50: c.native_ttft_ms_p50,
        measured_at_unix_secs: c.measured_at_unix_secs,
        samples: c.samples,
        backend: c.backend.clone(),
        logit_fingerprint: copy_fingerprint(&c.logit_fingerprint),
    }
}

/// The version that new caches carry.
pub fn current_schema_version() -> (version: u32)
    ensures
        version == 1,
{
    1
}

/// The cache on disk, keyed by model name.
#[derive(Debug)]
pub struct NativeBaselineCache {
    pub version: u32,
    pub entries: TextMap<CachedNativeBaseline>,
}

impl Default for NativeBaselineCache {
    fn default() -> (cache: NativeBaselineCache)
        ensures
            cache.version == 0,
            cache.entries@ == Map::<Seq<char>, CachedNativeBaseline>::empty(),
    {
        NativeBaselineCache { version: 0, entries: TextMap::new() }
    }
}

/// Whether a cached baseline measured at `measured_at` may still be displayed at
/// `now` without a new run: not for longer than the time to live, and not once
/// the model file is known to have changed.
pub open spec fn baseline_fresh_at(
    measured_at: u64,
    cached_mtime: Option<u64>,
    live_mtime: Option<u64>,
    now: u64,
) -> bool {
    &&& now - measured_at <= CACHE_TTL_SECS
    &&& cached_mtime is Some && live_mtime is Some ==> cached_mtime == live_mtime
}

/// Whether a cached baseline is fresh at the given time.
pub fn is_fresh_at(
    entry: &CachedNativeBaseline,
    model_file_mtime_secs: Option<u64>,
    now: u64,
) -> (r: bool)
    ensures
        r == baseline_fresh_at(
            entry.measured_at_unix_secs,
            entry.model_file_mtime_secs,
            model_file_mtime_secs,
            now,
        ),
{
    if now.saturating_sub(entry.measured_at_unix_secs) > CACHE_TTL_SECS {
        return false;
    }
    match (entry.model_file_mtime_secs, model_file_mtime_secs) {
        (Some(a), Some(b)) => a == b,
        _ => true,
    }
}

/// Whether a cached baseline is fresh now.
pub fn is_fresh(entry: &CachedNativeBaseline, model_file_mtime_secs: Option<u64>) -> (r: bool)
    ensures
        entry.model_file_mtime_secs is Some && model_file_mtime_secs is Some
            && entry.model_file_mtime_secs != model_file_mtime_secs ==> !r,
        exists|now: u64|
            r == baseline_fresh_at(
                entry.measured_at_unix_secs,
                entry.model_file_mtime_secs,
                model_file_mtime_secs,
                now,
            ),
{
    let now = current_unix_secs();
    is_fresh_at(entry, model_file_mtime_secs, now)
}

/// A baseline that is no longer fresh does not become fresh again by waiting.
pub proof fn law_staleness_is_final(
    measured_at: u64,
    cached_mtime: Option<u64>,
    live_mtime: Option<u64>,
    now: u64,
    later: u64,
)
    requires
        !baseline_fresh_at(measured_at, cached_mtime, live_mtime, now),
        now <= later,
    ensures
        !baseline_fresh_at(measured_at, cached_mtime, live_mtime, later),
{
}

/// The numeric order of double precision numbers, as an integer: the magnitude
/// bits, negated if the sign bit is set. Both zeros are zero.
pub open spec fn double_rank(bits: u64) -> int {
    if bits < 0x8000_0000_0000_0000 {
        bits as int
    } else {
        0x8000_0000_0000_0000 - bits
    }
}

/// The bit pattern is that of a number: its magnitude is at most infinite.
pub open spec fn is_number(bits: u64) -> bool {
    bits <= 0x7ff0_0000_0000_0000 || 0x8000_0000_0000_0000 <= bits <= 0xfff0_0000_0000_0000
}

/// Rates can be put in order: they are numbers, or there is but one.
pub open spec fn rates_are_ordered(samples: Seq<BaselineMeasurement>) -> bool {
    samples.len() <= 1 || forall|i: int|
        0 <= i < samples.len() ==> is_number((#[trigger] samples[i]).native_tps_p50)
}

/// The rank of a rate as a sort key.
pub open spec fn rate_key() -> spec_fn(u64) -> int {
    |bits: u64| double_rank(bits)
}

/// A number as a sort key.
pub open spec fn number_key() -> spec_fn(u64) -> int {
    |n: u64| n as int
}

/// The decode rates of the samples.
pub open spec fn rates(samples: Seq<BaselineMeasurement>) -> Seq<u64> {
    samples.map_values(|m: BaselineMeasurement| m.native_tps_p50)
}

/// The times to the first token of the samples.
pub open spec fn first_token_times(samples: Seq<BaselineMeasurement>) -> Seq<u64> {
    samples.map_values(|m: BaselineMeasurement| m.native_ttft_ms_p50)
}

/// The first fingerprint that one of the samples has.
pub open spec fn first_fingerprint(samples: Seq<BaselineMeasurement>) -> Option<FingerprintView>
    decreases samples.len(),
{
    if samples.len() == 0 {
        None
    } else if samples[0].logit_fingerprint is Some {
        opt_fingerprint(samples[0].logit_fingerprint)
    } else {
        first_fingerprint(samples.drop_first())
    }
}

/// The middle one of the rates in numeric order.
pub open spec fn median_rate(values: Seq<u64>) -> u64 {
    sorted_by(values, rate_key(), int_order())[values.len() as int / 2]
}

/// The middle one of the numbers in order.
pub open spec fn median_number(values: Seq<u64>) -> u64 {
    sorted_by(values, number_key(), int_order())[values.len() as int / 2]
}

/// The middle one of the rates.
fn middle_rate(values: &[u64]) -> (r: u64)
    requires
        values@.len() > 0,
    ensures
        r == median_rate(values@),
{
    let mut keys: Vec<i128> = Vec::new();
    let mut i: usize = 0;
    while i < values.len()
        invariant
            i <= values.len(),
            keys.len() == i,
            forall|j: int| 0 <= j < i ==> keys@[j] == double_rank(values@[j]),
        decreases values.len() - i,
    {
        let bits: u64 = values[i];
        let key: i128 = if bits < 0x8000_0000_0000_0000 {
            bits as i128
        } else {
            0x8000_0000_0000_0000i128 - bits as i128
        };
        keys.push(key);
        i = i + 1;
    }
    assert(ints(keys@) =~= values@.map_values(rate_key()));
    let order = sort_order_by_number(keys.as_slice());
    let ghost positions = order@.map_values(|i: usize| i as int);
    let mid: usize = values.len() / 2;
    assert(median_rate(values@) == values@[positions[mid as int]]);
    values[order[mid]]
}

/// The middle one of the numbers.
fn middle_number(values: &[u64]) -> (r: u64)
    requires
        values@.len() > 0,
    ensures
        r == median_number(values@),
{
    let mut keys: Vec<i128> = Vec::new();
    let mut i: usize = 0;
    while i < values.len()
        invariant
            i <= values.len(),
            keys.len() == i,
            forall|j: int| 0 <= j < i ==> keys@[j] == values@[j],
        decreases values.len() - i,
    {
        keys.push(values[i] as i128);
        i = i + 1;
    }
    assert(ints(keys@) =~= values@.map_values(number_key()));
    let order = sort_order_by_number(keys.as_slice());
    let ghost positions = order@.map_values(|i: usize| i as int);
    let mid: usize = values.len() / 2;
    assert(median_number(values@) == values@[positions[mid as int]]);
    values[order[mid]]
}

/// The reduction of a sweep, as of `now`: rate and time to the first token are
/// each the median of their own axis.
pub open spec fn is_median_of(
    m: BaselineMeasurement,
    count: u32,
    samples: Seq<BaselineMeasurement>,
    backend: Seq<char>,
    now: u64,
) -> bool {
    &&& m.native_tps_p50 == median_rate(rates(samples))
    &&& m.native_ttft_ms_p50 == median_number(first_token_times(samples))
    &&& m.backend@ == backend
    &&& m.measured_at_unix_secs == now
    &&& opt_fingerprint(m.logit_fingerprint) == first_fingerprint(samples)
    &&& count == samples.len() % 0x1_0000_0000
}

/// Reduces the samples of a sweep to their median, as of the given time.
pub fn median_measurement_at(samples: Vec<BaselineMeasurement>, backend: String, now: u64) -> (r:
    Option<(BaselineMeasurement, u32)>)
    requires
        rates_are_ordered(samples@),
    ensures
        r is None <==> samples@.len() == 0,
        r matches Some((m, count)) ==> is_median_of(m, count, samples@, backend@, now),
{
    if samples.len() == 0 {
        return None;
    }
    let mut tps: Vec<u64> = Vec::new();
    let mut ttft: Vec<u64> = Vec::new();
    let mut i: usize = 0;
    while i < samples.len()
        invariant
            i <= samples.len(),
            tps.len() == i,
            ttft.len() == i,
            forall|j: int| 0 <= j < i ==> tps@[j] == samples@[j].native_tps_p50,
            forall|j: int| 0 <= j < i ==> ttft@[j] == samples@[j].native_ttft_ms_p50,
        decreases samples.len() - i,
    {
        tps.push(samples[i].native_tps_p50);
        ttft.push(samples[i].native_ttft_ms_p50);
        i = i + 1;
    }
    assert(tps@ =~= rates(samples@));
    assert(ttft@ =~= first_token_times(samples@));
    let mut k: usize = 0;
    assert(samples@.skip(0) =~= samples@);
    while k < samples.len() && samples[k].logit_fingerprint.is_none()
        invariant
            k <= samples.len(),
            first_fingerprint(samples@) == first_fingerprint(samples@.skip(k as int)),
        decreases samples.len() - k,
    {
        assert(samples@.skip(k as int).drop_first() =~= samples@.skip(k + 1));
        k = k + 1;
    }
    let logit_fingerprint = if k < samples.len() {
        assert(samples@.skip(k as int)[0] == samples@[k as int]);
        copy_fingerprint(&samples[k].logit_fingerprint)
    } else {
        None
    };
    let count: u32 = (samples.len() as u64 % 0x1_0000_0000) as u32;
    Some(
        (
            BaselineMeasurement {
                native_tps_p50: middle_rate(tps.as_slice()),
                native_ttft_ms_p50: middle_number(ttft.as_slice()),
                backend,
                measured_at_unix_secs: now,
                logit_fingerprint,
            },
            count,
        ),
    )
}

/// Reduces the samples of a sweep to their median, as of now.
pub fn median_measurement(samples: Vec<BaselineMeasurement>, backend: String) -> (r: Option<
    (BaselineMeasurement, u32),
>)
    requires
        rates_are_ordered(samples@),
    ensures
        r is None <==> samples@.len() == 0,
        r matches Some((m, count)) ==> is_median_of(
            m,
            count,
            samples@,
            backend@,
            m.measured_at_unix_secs,
        ),
{
    median_measurement_at(samples, backend, current_unix_secs())
}

/// The item in the middle of a list that was sorted by a number is one of the
/// list; what stands before it has no greater number, and what stands behind it
/// has no smaller one.
proof fn lemma_middle(values: Seq<u64>, key: spec_fn(u64) -> int)
    requires
        values.len() > 0,
    ensures
        ({
            let sorted = sorted_by(values, key, int_order());
            let mid = values.len() as int / 2;
            &&& values.contains(sorted[mid])
            &&& sorted.len() == values.len()
            &&& forall|i: int| 0 <= i < mid ==> key(#[trigger] sorted[i]) <= key(sorted[mid])
            &&& forall|i: int|
                mid <= i < values.len() ==> key(sorted[mid]) <= key(#[trigger] sorted[i])
        }),
{
    let keys = values.map_values(key);
    let order = stable_order(keys, int_order());
    let sorted = sorted_by(values, key, int_order());
    law_stable_order(keys, int_order());
    let mid = values.len() as int / 2;
    assert(values[order[mid]] == sorted[mid]);
    assert forall|i: int| 0 <= i < mid implies key(#[trigger] sorted[i]) <= key(sorted[mid]) by {
        assert((int_order())(keys[order[i]], keys[order[mid]]));
    }
    assert forall|i: int| mid <= i < values.len() implies key(sorted[mid]) <= key(
        #[trigger] sorted[i],
    ) by {
        if mid < i {
            assert((int_order())(keys[order[mid]], keys[order[i]]));
        }
    }
}

/// The median time is one of the times; in order, what stands before it is not
/// greater and what stands behind it is not smaller.
pub proof fn law_median_is_in_the_middle(values: Seq<u64>)
    requires
        values.len() > 0,
    ensures
        ({
            let sorted = sorted_by(values, number_key(), int_order());
            &&& values.contains(median_number(values))
            &&& sorted.len() == values.len()
            &&& forall|i: int|
                0 <= i < values.len() / 2 ==> #[trigger] sorted[i] <= median_number(values)
            &&& forall|i: int|
                values.len() / 2 <= i < values.len() ==> median_number(values)
                    <= #[trigger] sorted[i]
        }),
{
    lemma_middle(values, number_key());
}

/// The median rate is one of the rates; in numeric order, what stands before it is
/// not greater and what stands behind it is not smaller.
pub proof fn law_median_rate_is_in_the_middle(values: Seq<u64>)
    requires
        values.len() > 0,
    ensures
        ({
            let sorted = sorted_by(values, rate_key(), int_order());
            &&& values.contains(median_rate(values))
            &&& sorted.len() == values.len()
            &&& forall|i: int|
                0 <= i < values.len() / 2 ==> double_rank(#[trigger] sorted[i]) <= double_rank(
                    median_rate(values),
                )
            &&& forall|i: int|
                values.len() / 2 <= i < values.len() ==> double_rank(median_rate(values))
                    <= double_rank(#[trigger] sorted[i])
        }),
{
    lemma_middle(values, rate_key());
}

/// What one streamed run was measured to be.
pub struct ProbeTiming {
    /// The tokens that the server counted.
    pub completion_tokens: u64,
    /// The window over which they were decoded.
    pub decode_nanos: u128,
    pub native_ttft_ms: u64,
    pub logit_fingerprint: Option<LogitFingerprint>,
}

/// The window over which the tokens count as decoded. A response that arrives at
/// once collapses the decode window; then the whole time since the request
/// counts.
pub open spec fn decode_window(ttft_nanos: u128, decode_nanos: u128) -> int {
    if decode_nanos < DECODE_FLOOR_NANOS {
        if ttft_nanos + decode_nanos <= DURATION_MAX_NANOS {
            ttft_nanos + decode_nanos
        } else {
            DURATION_MAX_NANOS as int
        }
    } else {
        decode_nanos as int
    }
}

/// Whole milliseconds, as far as they fit.
pub open spec fn whole_millis(nanos: u128) -> int {
    if nanos / 1_000_000 <= u64::MAX {
        (nanos / 1_000_000) as int
    } else {
        u64::MAX as int
    }
}

/// The fingerprint of a stream, if it has any output text.
pub open spec fn stream_fingerprint(documents: Seq<JsonTree>) -> Option<FingerprintView> {
    if stream_text(documents).len() == 0 {
        None
    } else {
        Some(fingerprint_of(stream_tokens(documents), stream_text(documents)))
    }
}

/// What a streamed response amounts to: the server must have counted at least
/// one token, and the decode window must not be empty.
pub open spec fn is_probe_outcome(
    r: Result<ProbeTiming, &'static str>,
    documents: Seq<JsonTree>,
    ttft_nanos: u128,
    decode_nanos: u128,
) -> bool {
    if last_usage(documents) is None || last_usage(documents) == Some(0u64) {
        r matches Err(e) && e@ == "native baseline streaming response had no usage chunk"@
    } else if decode_window(ttft_nanos, decode_nanos) == 0 {
        r matches Err(e) && e@ == "native baseline decode window collapsed to zero"@
    } else {
        &&& r matches Ok(t)
        &&& Some(t.completion_tokens) == last_usage(documents)
        &&& t.decode_nanos == decode_window(ttft_nanos, decode_nanos)
        &&& t.native_ttft_ms == whole_millis(ttft_nanos)
        &&& opt_fingerprint(t.logit_fingerprint) == stream_fingerprint(documents)
    }
}

/// Assesses the documents of a streamed response with the time to its first byte
/// and the time from there to its last chunk.
pub fn assess_documents(documents: &[Json], ttft_nanos: u128, decode_nanos: u128) -> (r: Result<
    ProbeTiming,
    &'static str,
>)
    requires
        ttft_nanos <= DURATION_MAX_NANOS,
        decode_nanos <= DURATION_MAX_NANOS,
    ensures
        is_probe_outcome(r, trees(documents@), ttft_nanos, decode_nanos),
{
    let tokens = match completion_tokens(documents) {
        Some(n) => n,
        None => 0,
    };
    if tokens == 0 {
        return Err("native baseline streaming response had no usage chunk");
    }
    let window: u128 = if decode_nanos < DECODE_FLOOR_NANOS {
        if ttft_nanos + decode_nanos <= DURATION_MAX_NANOS {
            ttft_nanos + decode_nanos
        } else {
            DURATION_MAX_NANOS
        }
    } else {
        decode_nanos
    };
    if window == 0 {
        return Err("native baseline decode window collapsed to zero");
    }
    let (text, stream) = output_and_tokens(documents);
    let logit_fingerprint = if text.as_str().is_empty() {
        None
    } else {
        Some(build_fingerprint(stream.as_slice(), text.as_str()))
    };
    let millis: u128 = ttft_nanos / 1_000_000;
    let native_ttft_ms: u64 = if millis <= u64::MAX as u128 {
        millis as u64
    } else {
        u64::MAX
    };
    Ok(ProbeTiming { completion_tokens: tokens, decode_nanos: window, native_ttft_ms, logit_fingerprint })
}

/// Assesses the body of a streamed response.
pub fn assess_probe(buf: &[u8], ttft_nanos: u128, decode_nanos: u128) -> (r: Result<
    ProbeTiming,
    &'static str,
>)
    requires
        ttft_nanos <= DURATION_MAX_NANOS,
        decode_nanos <= DURATION_MAX_NANOS,
    ensures
        is_probe_outcome(r, stream_documents(buf@), ttft_nanos, decode_nanos),
{
    let documents = parse_stream(buf);
    assess_documents(documents.as_slice(), ttft_nanos, decode_nanos)
}

/// What the collector does next for a model.
pub enum CollectorAction {
    /// Gossip the cached baseline and wait.
    Publish { entry: NativeBaselineEntry },
    /// Take a sweep of samples, and meanwhile gossip the cached baseline if there
    /// is one that still speaks of the model file.
    Measure { publish: Option<NativeBaselineEntry> },
}

/// The pause between two rounds of the collector: half of the time to live.
pub fn collector_pause_secs() -> (secs: u64)
    ensures
        secs == 43_200,
{
    CACHE_TTL_SECS / 2
}

/// The model file is known to have changed since a baseline was measured.
pub open spec fn file_changed(cached_mtime: Option<u64>, live_mtime: Option<u64>) -> bool {
    cached_mtime is Some && live_mtime is Some && cached_mtime != live_mtime
}

/// The collector gossips a cached baseline while it is fresh and measures
/// otherwise. A baseline that is only too old is gossiped until the new one is
/// there; one of another model file is not.
pub open spec fn is_collector_plan(
    action: CollectorAction,
    cache: Map<Seq<char>, CachedNativeBaseline>,
    model: Seq<char>,
    live_mtime: Option<u64>,
    now: u64,
) -> bool {
    if cache.contains_key(model) && baseline_fresh_at(
        cache[model].measured_at_unix_secs,
        cache[model].model_file_mtime_secs,
        live_mtime,
        now,
    ) {
        action matches CollectorAction::Publish { entry } && entry@ == cache[model]@
    } else if cache.contains_key(model) && !file_changed(
        cache[model].model_file_mtime_secs,
        live_mtime,
    ) {
        &&& action matches CollectorAction::Measure { publish }
        &&& publish matches Some(e)
        &&& e@ == cache[model]@
    } else {
        action matches CollectorAction::Measure { publish } && publish is None
    }
}

/// Decides what the collector does next for a model.
pub fn plan_collection(
    cache: &NativeBaselineCache,
    model: &str,
    live_mtime: Option<u64>,
    now: u64,
) -> (action: CollectorAction)
    ensures
        is_collector_plan(action, cache.entries@, model@, live_mtime, now),
{
    match cache.entries.get(model) {
        Some(entry) => {
            let changed = match (entry.model_file_mtime_secs, live_mtime) {
                (Some(cached), Some(live)) => cached != live,
                _ => false,
            };
            if is_fresh_at(entry, live_mtime, now) {
                CollectorAction::Publish { entry: entry_from_cached(entry) }
            } else if changed {
                CollectorAction::Measure { publish: None }
            } else {
                CollectorAction::Measure { publish: Some(entry_from_cached(entry)) }
            }
        },
        None => CollectorAction::Measure { publish: None },
    }
}

/// What the collector gossips next, if anything.
pub open spec fn gossiped(action: CollectorAction) -> Option<BaselineView> {
    match action {
        CollectorAction::Publish { entry } => Some(entry@),
        CollectorAction::Measure { publish } => match publish {
            Some(entry) => Some(entry@),
            None => None,
        },
    }
}

/// The catalogue never goes blank: a cached baseline is gossiped, however old it
/// is, unless the model file is known to have changed.
pub proof fn law_known_baselines_stay_gossiped(
    action: CollectorAction,
    cache: Map<Seq<char>, CachedNativeBaseline>,
    model: Seq<char>,
    live_mtime: Option<u64>,
    now: u64,
)
    requires
        is_collector_plan(action, cache, model, live_mtime, now),
    ensures
        gossiped(action) == (if cache.contains_key(model) && !file_changed(
            cache[model].model_file_mtime_secs,
            live_mtime,
        ) {
            Some(cache[model]@)
        } else {
            None
        }),
{
}

/// A measurement in gossiped form.
pub open spec fn measured_view(model: Seq<char>, m: BaselineMeasurement, samples: u32) -> BaselineView {
    BaselineView {
        model,
        native_tps_p50: m.native_tps_p50,
        native_ttft_ms_p50: m.native_ttft_ms_p50,
        measured_at_unix_secs: m.measured_at_unix_secs,
        samples,
        backend: m.backend@,
        logit_fingerprint: opt_fingerprint(m.logit_fingerprint),
    }
}

/// The gossiped form of a measurement.
pub fn entry_from_measurement(model: &str, m: &BaselineMeasurement, samples: u32) -> (entry:
    NativeBaselineEntry)
    ensures
        entry@ == measured_view(model@, *m, samples),
{
    NativeBaselineEntry {
        model: model.to_owned(),
        native_tps_p50: m.native_tps_p50,
        native_ttft_ms_p50: m.native_ttft_ms_p50,
        measured_at_unix_secs: m.measured_at_unix_secs,
        samples,
        backend: m.backend.clone(),
        logit_fingerprint: copy_fingerprint(&m.logit_fingerprint),
    }
}

/// Records a measurement in the cache under its model, with the modification
/// time of the model file. Everything else in the cache stays.
pub fn record_measurement(
    cache: &mut NativeBaselineCache,
    model: &str,
    m: &BaselineMeasurement,
    samples: u32,
    live_mtime: Option<u64>,
)
    ensures
        final(cache).version == old(cache).version,
        final(cache).entries@.dom() == old(cache).entries@.dom().insert(model@),
        final(cache).entries@[model@]@ == measured_view(model@, *m, samples),
        final(cache).entries@[model@].model_file_mtime_secs == live_mtime,
        forall|k: Seq<char>|
            k != model@ && old(cache).entries@.contains_key(k)
                ==> #[trigger] final(cache).entries@[k] == old(cache).entries@[k],
{
    cache.entries.insert(
        model.to_owned(),
        CachedNativeBaseline {
            model: model.to_owned(),
            native_tps_p50: m.native_tps_p50,
            native_ttft_ms_p50: m.native_ttft_ms_p50,
            measured_at_unix_secs: m.measured_at_unix_secs,
            samples,
            backend: m.backend.clone(),
            model_file_mtime_secs: live_mtime,
            logit_fingerprint: copy_fingerprint(&m.logit_fingerprint),
        },
    );
}

/// What was just measured is published from the cache for a day, unless the
/// model file changes in between.
pub proof fn law_measurement_is_published_next(
    action: CollectorAction,
    cache: Map<Seq<char>, CachedNativeBaseline>,
    model: Seq<char>,
    m: BaselineMeasurement,
    samples: u32,
    live_mtime: Option<u64>,
    now: u64,
)
    requires
        cache.contains_key(model),
        cache[model]@ == measured_view(model, m, samples),
        cache[model].model_file_mtime_secs == live_mtime,
        now - m.measured_at_unix_secs <= CACHE_TTL_SECS,
        is_collector_plan(action, cache, model, live_mtime, now),
    ensures
        action matches CollectorAction::Publish { entry } && entry@ == measured_view(
            model,
            m,
            samples,
        ),
{
}

/// The positions of the items that a number is not greater than, or not smaller than.
spec fn places(values: Seq<u64>, key: spec_fn(u64) -> int, m: int, below: bool) -> Set<int> {
    Set::new(
        |i: int|
            0 <= i < values.len() && if below {
                key(values[i]) <= m
            } else {
                key(values[i]) >= m
            },
    )
}

proof fn lemma_places(
    values: Seq<u64>,
    key: spec_fn(u64) -> int,
    m: int,
    below: bool,
    some: Seq<int>,
)
    requires
        some.no_duplicates(),
        forall|k: int|
            0 <= k < some.len() ==> 0 <= #[trigger] some[k] < values.len() && if below {
                key(values[some[k]]) <= m
            } else {
                key(values[some[k]]) >= m
            },
    ensures
        places(values, key, m, below).len() >= some.len(),
{
    let all = places(values, key, m, below);
    let n = values.len() as int;
    vstd::set_lib::lemma_int_range(0, n);
    assert(all.subset_of(vstd::set_lib::set_int_range(0, n)));
    vstd::set_lib::lemma_len_subset(all, vstd::set_lib::set_int_range(0, n));
    some.unique_seq_to_set();
    assert forall|i: int| some.to_set().contains(i) implies #[trigger] all.contains(i) by {
        let k = choose|k: int| 0 <= k < some.len() && some[k] == i;
        assert(some[k] == i);
    }
    vstd::set_lib::lemma_len_subset(some.to_set(), all);
}

proof fn lemma_some_places(
    values: Seq<u64>,
    key: spec_fn(u64) -> int,
    below: bool,
    from: int,
    to: int,
)
    requires
        values.len() > 0,
        from == (if below {
            0
        } else {
            values.len() as int / 2
        }),
        to == (if below {
            values.len() as int / 2 + 1
        } else {
            values.len() as int
        }),
    ensures
        places(
            values,
            key,
            key(sorted_by(values, key, int_order())[values.len() as int / 2]),
            below,
        ).len() >= to - from,
{
    let keys = values.map_values(key);
    let order = stable_order(keys, int_order());
    let mid = values.len() as int / 2;
    let m = key(sorted_by(values, key, int_order())[mid]);
    lemma_positions(keys, mid, mid);
    assert(m == keys[order[mid]]);
    let some = order.subrange(from, to);
    assert forall|k: int| 0 <= k < some.len() implies 0 <= #[trigger] some[k] < values.len()
        && if below {
        key(values[some[k]]) <= m
    } else {
        key(values[some[k]]) >= m
    } by {
        let at = from + k;
        assert(some[k] == order[at]);
        lemma_positions(keys, at, mid);
        lemma_positions(keys, mid, at);
        assert(keys[order[at]] == key(values[order[at]]));
    }
    assert forall|i: int, j: int| 0 <= i < some.len() && 0 <= j < some.len() && i
        != j implies some[i] != some[j] by {
        lemma_positions(keys, from + i, from + j);
    }
    lemma_places(values, key, m, below, some);
}

proof fn lemma_positions(keys: Seq<int>, i: int, j: int)
    requires
        0 <= i < keys.len(),
        0 <= j < keys.len(),
    ensures
        stable_order(keys, int_order()).len() == keys.len(),
        0 <= stable_order(keys, int_order())[i] < keys.len(),
        0 <= stable_order(keys, int_order())[j] < keys.len(),
        i < j ==> keys[stable_order(keys, int_order())[i]] <= keys[stable_order(
            keys,
            int_order(),
        )[j]],
        i != j ==> stable_order(keys, int_order())[i] != stable_order(keys, int_order())[j],
{
    law_stable_order(keys, int_order());
    let order = stable_order(keys, int_order());
    if i < j {
        assert((int_order())(keys[order[i]], keys[order[j]]));
    } else if j < i {
        assert(order[j] != order[i]);
    }
}

proof fn lemma_middle_splits(values: Seq<u64>, key: spec_fn(u64) -> int)
    requires
        values.len() > 0,
    ensures
        places(
            values,
            key,
            key(sorted_by(values, key, int_order())[values.len() as int / 2]),
            true,
        ).len() > values.len() / 2,
        places(
            values,
            key,
            key(sorted_by(values, key, int_order())[values.len() as int / 2]),
            false,
        ).len() >= values.len() - values.len() / 2,
{
    lemma_some_places(values, key, true, 0, values.len() as int / 2 + 1);
    lemma_some_places(values, key, false, values.len() as int / 2, values.len() as int);
}

/// The median time is one of the times. More than half of them are no greater, and at
/// least half of them are no smaller.
pub proof fn law_median_splits_the_times(values: Seq<u64>)
    requires
        values.len() > 0,
    ensures
        values.contains(median_number(values)),
        Set::new(|i: int| 0 <= i < values.len() && values[i] <= median_number(values)).len()
            > values.len() / 2,
        Set::new(|i: int| 0 <= i < values.len() && values[i] >= median_number(values)).len()
            >= values.len() - values.len() / 2,
{
    lemma_middle(values, number_key());
    lemma_middle_splits(values, number_key());
    let m = median_number(values);
    let key = number_key();
    assert(Set::new(|i: int| 0 <= i < values.len() && values[i] <= m) =~= places(
        values,
        key,
        key(m),
        true,
    ));
    assert(Set::new(|i: int| 0 <= i < values.len() && values[i] >= m) =~= places(
        values,
        key,
        key(m),
        false,
    ));
}

/// The median rate is one of the rates. In numeric order more than half of them are no
/// greater, and at least half of them are no smaller.
pub proof fn law_median_splits_the_rates(values: Seq<u64>)
    requires
        values.len() > 0,
    ensures
        values.contains(median_rate(values)),
        Set::new(
            |i: int|
                0 <= i < values.len() && double_rank(values[i]) <= double_rank(median_rate(values)),
        ).len() > values.len() / 2,
        Set::new(
            |i: int|
                0 <= i < values.len() && double_rank(values[i]) >= double_rank(median_rate(values)),
        ).len() >= values.len() - values.len() / 2,
{
    lemma_middle(values, rate_key());
    lemma_middle_splits(values, rate_key());
    let m = median_rate(values);
    let key = rate_key();
    assert(Set::new(|i: int| 0 <= i < values.len() && double_rank(values[i]) <= double_rank(m))
        =~= places(values, key, key(m), true));
    assert(Set::new(|i: int| 0 <= i < values.len() && double_rank(values[i]) >= double_rank(m))
        =~= places(values, key, key(m), false));
}

/// A sweep is reduced by both of its axes, each over all of its samples, and keeps the
/// fingerprint of the first sample that has one.
pub proof fn law_sweep_is_reduced(
    m: BaselineMeasurement,
    count: u32,
    samples: Seq<BaselineMeasurement>,
    backend: Seq<char>,
    now: u64,
    first: int,
)
    requires
        is_median_of(m, count, samples, backend, now),
        0 <= first <= samples.len(),
        samples.len() > 0,
        forall|i: int| 0 <= i < first ==> (#[trigger] samples[i]).logit_fingerprint is None,
        first < samples.len() ==> samples[first].logit_fingerprint is Some,
    ensures
        Set::new(
            |i: int|
                0 <= i < samples.len() && samples[i].native_ttft_ms_p50 <= m.native_ttft_ms_p50,
        ).len() > samples.len() / 2,
        Set::new(
            |i: int|
                0 <= i < samples.len() && samples[i].native_ttft_ms_p50 >= m.native_ttft_ms_p50,
        ).len() >= samples.len() - samples.len() / 2,
        Set::new(
            |i: int|
                0 <= i < samples.len() && double_rank(samples[i].native_tps_p50) <= double_rank(
                    m.native_tps_p50,
                ),
        ).len() > samples.len() / 2,
        Set::new(
            |i: int|
                0 <= i < samples.len() && double_rank(samples[i].native_tps_p50) >= double_rank(
                    m.native_tps_p50,
                ),
        ).len() >= samples.len() - samples.len() / 2,
        opt_fingerprint(m.logit_fingerprint) == if first < samples.len() {
            opt_fingerprint(samples[first].logit_fingerprint)
        } else {
            None
        },
        samples.len() < 0x1_0000_0000 ==> count == samples.len(),
        m.backend@ == backend && m.measured_at_unix_secs == now,
{
    let times = first_token_times(samples);
    let speeds = rates(samples);
    law_median_splits_the_times(times);
    law_median_splits_the_rates(speeds);
    assert(Set::new(
        |i: int| 0 <= i < samples.len() && samples[i].native_ttft_ms_p50 <= m.native_ttft_ms_p50,
    ) =~= Set::new(|i: int| 0 <= i < times.len() && times[i] <= median_number(times)));
    assert(Set::new(
        |i: int| 0 <= i < samples.len() && samples[i].native_ttft_ms_p50 >= m.native_ttft_ms_p50,
    ) =~= Set::new(|i: int| 0 <= i < times.len() && times[i] >= median_number(times)));
    assert(Set::new(
        |i: int|
            0 <= i < samples.len() && double_rank(samples[i].native_tps_p50) <= double_rank(
                m.native_tps_p50,
            ),
    ) =~= Set::new(
        |i: int| 0 <= i < speeds.len() && double_rank(speeds[i]) <= double_rank(
            median_rate(speeds),
        ),
    ));
    assert(Set::new(
        |i: int|
            0 <= i < samples.len() && double_rank(samples[i].native_tps_p50) >= double_rank(
                m.native_tps_p50,
            ),
    ) =~= Set::new(
        |i: int| 0 <= i < speeds.len() && double_rank(speeds[i]) >= double_rank(
            median_rate(speeds),
        ),
    ));
    lemma_first_fingerprint(samples, first);
}

proof fn lemma_first_fingerprint(samples: Seq<BaselineMeasurement>, first: int)
    requires
        0 <= first <= samples.len(),
        forall|i: int| 0 <= i < first ==> (#[trigger] samples[i]).logit_fingerprint is None,
        first < samples.len() ==> samples[first].logit_fingerprint is Some,
    ensures
        first_fingerprint(samples) == if first < samples.len() {
            opt_fingerprint(samples[first].logit_fingerprint)
        } else {
            None
        },
    decreases first,
{
    if first > 0 {
        let rest = samples.drop_first();
        assert(samples[0].logit_fingerprint is None);
        assert forall|i: int| 0 <= i < first - 1 implies (
        #[trigger] rest[i]).logit_fingerprint is None by {
            assert(rest[i] == samples[i + 1]);
        }
        lemma_first_fingerprint(rest, first - 1);
    }
}

/// Rates are compared as numbers: positive ones grow with their bit patterns, the sign
/// bit turns a number into its negative, and both zeros are equal.
pub proof fn law_rates_are_compared_as_numbers(a: u64, b: u64)
    requires
        a < b < 0x8000_0000_0000_0000,
    ensures
        double_rank(a) < double_rank(b),
        double_rank((a + 0x8000_0000_0000_0000) as u64) == -double_rank(a),
        double_rank((b + 0x8000_0000_0000_0000) as u64) < double_rank(
            (a + 0x8000_0000_0000_0000) as u64,
        ),
        double_rank(0) == double_rank(0x8000_0000_0000_0000),
{
}

/// A baseline is fresh for a day after its measurement, and not once both times of the
/// model file are known and differ.
pub proof fn law_fresh_for_a_day(
    measured_at: u64,
    cached_mtime: Option<u64>,
    live_mtime: Option<u64>,
    age: u64,
)
    requires
        measured_at + age <= u64::MAX,
    ensures
        baseline_fresh_at(measured_at, cached_mtime, cached_mtime, (measured_at + age) as u64)
            <==> age <= 86_400,
        baseline_fresh_at(measured_at, None, live_mtime, (measured_at + age) as u64) <==> age
            <= 86_400,
        baseline_fresh_at(measured_at, cached_mtime, None, (measured_at + age) as u64) <==> age
            <= 86_400,
        cached_mtime is Some && live_mtime is Some && cached_mtime != live_mtime
            ==> !baseline_fresh_at(
            measured_at,
            cached_mtime,
            live_mtime,
            (measured_at + age) as u64,
        ),
{
}

/// A run counts exactly if the server counted tokens and time went by. The tokens are
/// decoded from the first byte on, or from the request on if all came within a tenth of
/// a second.
pub proof fn law_probe_is_timed(
    r: Result<ProbeTiming, &'static str>,
    documents: Seq<JsonTree>,
    ttft_nanos: u128,
    decode_nanos: u128,
)
    requires
        is_probe_outcome(r, documents, ttft_nanos, decode_nanos),
        ttft_nanos + decode_nanos <= 18_446_744_073_709_551_615_999_999_999,
    ensures
        r is Ok <==> (last_usage(documents) matches Some(n) && n > 0) && ttft_nanos + decode_nanos
            > 0,
        r matches Ok(t) ==> {
            &&& Some(t.completion_tokens) == last_usage(documents)
            &&& decode_nanos >= 100_000_000 ==> t.decode_nanos == decode_nanos
            &&& decode_nanos < 100_000_000 ==> t.decode_nanos == ttft_nanos + decode_nanos
            &&& ttft_nanos <= 18_446_744_073_709_551_615_000_000 ==> t.native_ttft_ms * 1_000_000
                <= ttft_nanos < (t.native_ttft_ms + 1) * 1_000_000
            &&& t.logit_fingerprint is Some <==> stream_text(documents).len() > 0
            &&& stream_text(documents).len() > 0 ==> opt_fingerprint(t.logit_fingerprint) == Some(
                fingerprint_of(stream_tokens(documents), stream_text(documents)),
            )
        },
{
}

/// Every probe asks for the same model, prompts, tokens, temperature and seed, so that
/// what comes back is comparable. Only the baseline is streamed, and a remote peer is
/// told to leave its hooks out.
pub proof fn law_probes_ask_the_same(model: Seq<char>, kind: ProbeKind)
    ensures
        ({
            let request = JsonTree::Object(probe_common(model) + probe_specific(kind));
            &&& request.field("model"@) == Some(JsonTree::Text(model))
            &&& request.field("messages"@) == Some(probe_messages_tree())
            &&& request.field("max_tokens"@) == Some(JsonTree::Number(128))
            &&& request.field("temperature"@) == Some(JsonTree::Number(0))
            &&& request.field("seed"@) == Some(JsonTree::Number(42))
            &&& request.field("logprobs"@) == Some(JsonTree::Flag(true))
            &&& request.field("stream"@) == Some(JsonTree::Flag(kind is Baseline))
            &&& kind is Remote ==> request.field("mesh_hooks"@) == Some(JsonTree::Flag(false))
        }),
{
    reveal_strlit("model");
    reveal_strlit("messages");
    reveal_strlit("max_tokens");
    reveal_strlit("temperature");
    reveal_strlit("seed");
    reveal_strlit("logprobs");
    reveal_strlit("stream");
    reveal_strlit("mesh_hooks");
    let fields = probe_common(model) + probe_specific(kind);
    assert("model"@.len() == 5 && "messages"@.len() == 8 && "max_tokens"@.len() == 10);
    assert("temperature"@.len() == 11 && "seed"@.len() == 4 && "logprobs"@.len() == 8);
    assert("stream"@.len() == 6 && "mesh_hooks"@.len() == 10);
    assert("messages"@[0] != "logprobs"@[0]);
    assert("max_tokens"@[1] != "mesh_hooks"@[1]);
    assert(fields[0].0 == "model"@ && fields[1].0 == "messages"@ && fields[2].0 == "max_tokens"@);
    assert(fields[3].0 == "temperature"@ && fields[4].0 == "seed"@ && fields[5].0
        == "logprobs"@);
    assert(fields[6].0 == "stream"@);
    crate::json::law_first_field_counts(fields, "model"@, 0);
    crate::json::law_first_field_counts(fields, "messages"@, 1);
    crate::json::law_first_field_counts(fields, "max_tokens"@, 2);
    crate::json::law_first_field_counts(fields, "temperature"@, 3);
    crate::json::law_first_field_counts(fields, "seed"@, 4);
    crate::json::law_first_field_counts(fields, "logprobs"@, 5);
    crate::json::law_first_field_counts(fields, "stream"@, 6);
    if kind is Remote {
        crate::json::law_first_field_counts(fields, "mesh_hooks"@, 7);
    }
}

/// What was measured is what is gossiped, figure by figure, from the measurement and
/// from the cache alike.
pub proof fn law_figures_stay_in_their_places(
    entry: NativeBaselineEntry,
    m: BaselineMeasurement,
    c: CachedNativeBaseline,
    model: Seq<char>,
    samples: u32,
)
    ensures
        entry@ == measured_view(model, m, samples) ==> {
            &&& entry.model@ == model
            &&& entry.native_tps_p50 == m.native_tps_p50
            &&& entry.native_ttft_ms_p50 == m.native_ttft_ms_p50
            &&& entry.measured_at_unix_secs == m.measured_at_unix_secs
            &&& entry.samples == samples
            &&& entry.backend@ == m.backend@
            &&& entry.logit_fingerprint is Some <==> m.logit_fingerprint is Some
        },
        entry@ == c@ ==> {
            &&& entry.model@ == c.model@
            &&& entry.native_tps_p50 == c.native_tps_p50
            &&& entry.native_ttft_ms_p50 == c.native_ttft_ms_p50
            &&& entry.measured_at_unix_secs == c.measured_at_unix_secs
            &&& entry.samples == c.samples
            &&& entry.backend@ == c.backend@
            &&& entry.logit_fingerprint is Some <==> c.logit_fingerprint is Some
        },
{
}

/// A baseline of another model file is measured anew and not gossiped. One that is too
/// old is measured anew and gossiped meanwhile, and a model without one is measured.
pub proof fn law_old_baselines_are_measured_anew(
    action: CollectorAction,
    cache: Map<Seq<char>, CachedNativeBaseline>,
    model: Seq<char>,
    live_mtime: Option<u64>,
    now: u64,
)
    requires
        is_collector_plan(action, cache, model, live_mtime, now),
    ensures
        !cache.contains_key(model) ==> action is Measure && gossiped(action) is None,
        cache.contains_key(model) && cache[model].model_file_mtime_secs is Some
            && live_mtime is Some && cache[model].model_file_mtime_secs != live_mtime ==> action
            is Measure && gossiped(action) is None,
        cache.contains_key(model) && now - cache[model].measured_at_unix_secs > 86_400 ==> action
            is Measure,
        cache.contains_key(model) && now - cache[model].measured_at_unix_secs <= 86_400 && (
        cache[model].model_file_mtime_secs is None || live_mtime is None
            || cache[model].model_file_mtime_secs == live_mtime) ==> action is Publish,
        cache.contains_key(model) && (cache[model].model_file_mtime_secs is None || live_mtime
            is None || cache[model].model_file_mtime_secs == live_mtime) ==> gossiped(action)
            == Some(cache[model]@),
{
}

/// Every probe sends two messages: what the system is told, then what the user asks.
pub proof fn law_probe_messages()
    ensures
        ({
            &&& probe_messages_tree() matches JsonTree::Array(list)
            &&& list.len() == 2
            &&& list[0].field("role"@) == Some(JsonTree::Text("system"@))
            &&& list[0].field("content"@) == Some(JsonTree::Text(PROBE_SYSTEM_PROMPT@))
            &&& list[1].field("role"@) == Some(JsonTree::Text("user"@))
            &&& list[1].field("content"@) == Some(JsonTree::Text(PROBE_USER_PROMPT@))
        }),
{
    reveal_strlit("role");
    reveal_strlit("content");
    assert("role"@.len() != "content"@.len());
    let a = message_tree("system"@, PROBE_SYSTEM_PROMPT@)->Object_0;
    let b = message_tree("user"@, PROBE_USER_PROMPT@)->Object_0;
    assert(a[0].0 == "role"@ && a[1].0 == "content"@);
    assert(b[0].0 == "role"@ && b[1].0 == "content"@);
    crate::json::law_first_field_counts(a, "role"@, 0);
    crate::json::law_first_field_counts(a, "content"@, 1);
    crate::json::law_first_field_counts(b, "role"@, 0);
    crate::json::law_first_field_counts(b, "content"@, 1);
}

} // verus!
