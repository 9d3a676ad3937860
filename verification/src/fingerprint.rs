//! Model-identity fingerprints of a deterministic probe.
//!
//! A peer that claims to serve one model but runs another, or returns canned
//! text, decodes a fixed prompt differently. The fingerprint is the hash of the
//! whole output and a bounded prefix of the decoded tokens, so that a comparison
//! can tolerate the differences that backends show in near ties.

use vstd::prelude::*;
use vstd::utf8::{decode_utf8, encode_utf8, valid_utf8};

use crate::crypto::{sha256, sha256_digest};
use crate::hexcodec::{hex_encode, hex_text};
use crate::json::{json_document, parse_json, Json, JsonTree};
use crate::text::{
    chars_of, copy_range, copy_texts, has_prefix, parts, same_chars, split, split_on,
    stands_at, string_of, texts, trim, trimmed, utf8_text,
};

verus! {

/// How many decoded tokens a fingerprint covers.
pub const FINGERPRINT_PREFIX_LEN: usize = 32;

/// The output tokens that the probe asks for.
pub const MAX_TOKENS: u32 = 128;

/// The sampling seed of the probe.
pub const PROBE_SEED: u64 = 42;

/// A deterministic model-identity fingerprint.
#[derive(Debug, PartialEq)]
pub struct LogitFingerprint {
    /// Number of decoded tokens, zero if the backend returned no per-token data.
    pub token_count: u32,
    /// Lower-case hexadecimal SHA-256 of the whole output text.
    pub output_sha256: String,
    /// The first decoded tokens.
    pub prefix_tokens: Vec<String>,
}

/// The mathematical content of a [`LogitFingerprint`].
#[verifier::ext_equal]
pub struct FingerprintView {
    pub token_count: u32,
    pub output_sha256: Seq<char>,
    pub prefix_tokens: Seq<Seq<char>>,
}

impl View for LogitFingerprint {
    type V = FingerprintView;

    open spec fn view(&self) -> FingerprintView {
        FingerprintView {
            token_count: self.token_count,
            output_sha256: self.output_sha256@,
            prefix_tokens: texts(self.prefix_tokens@),
        }
    }
}

/// The content of an optional fingerprint.
pub open spec fn opt_fingerprint(value: Option<LogitFingerprint>) -> Option<FingerprintView> {
    match value {
        Some(fp) => Some(fp@),
        None => None,
    }
}

impl Clone for LogitFingerprint {
    fn clone(&self) -> (r: LogitFingerprint)
        ensures
            r@ == self@,
    {
        LogitFingerprint {
            token_count: self.token_count,
            output_sha256: self.output_sha256.clone(),
            prefix_tokens: copy_texts(self.prefix_tokens.as_slice()),
        }
    }
}

/// The first `n` items of a list, or all of them.
pub open spec fn first_items<T>(list: Seq<T>, n: nat) -> Seq<T> {
    if list.len() <= n {
        list
    } else {
        list.take(n as int)
    }
}

/// The fingerprint of a decoded token stream and the output text.
pub open spec fn fingerprint_of(tokens: Seq<Seq<char>>, text: Seq<char>) -> FingerprintView {
    FingerprintView {
        token_count: (tokens.len() % 0x1_0000_0000) as u32,
        output_sha256: hex_text(sha256(encode_utf8(text))),
        prefix_tokens: first_items(tokens, FINGERPRINT_PREFIX_LEN as nat),
    }
}

/// Builds a fingerprint from the decoded token stream and the output text.
pub fn build_fingerprint(tokens: &[String], full_text: &str) -> (r: LogitFingerprint)
    ensures
        r@ == fingerprint_of(texts(tokens@), full_text@),
{
    let digest = sha256_digest(full_text.as_bytes());
    let output_sha256 = hex_encode(digest.as_slice());
    let mut prefix_tokens: Vec<String> = Vec::new();
    let mut i: usize = 0;
    while i < tokens.len() && i < FINGERPRINT_PREFIX_LEN
        invariant
            i <= tokens.len(),
            i <= FINGERPRINT_PREFIX_LEN,
            prefix_tokens.len() == i,
            forall|j: int| 0 <= j < i ==> prefix_tokens@[j]@ == tokens@[j]@,
        decreases tokens.len() - i,
    {
        prefix_tokens.push(tokens[i].clone());
        i = i + 1;
    }
    assert(texts(prefix_tokens@) =~= first_items(
        texts(tokens@),
        FINGERPRINT_PREFIX_LEN as nat,
    ));
    let token_count: u32 = (tokens.len() as u64 % 0x1_0000_0000) as u32;
    LogitFingerprint { token_count, output_sha256, prefix_tokens }
}

/// The prefix never exceeds its bound, and a fingerprint with tokens has a
/// prefix.
pub proof fn law_prefix_is_bounded(tokens: Seq<Seq<char>>, text: Seq<char>)
    ensures
        fingerprint_of(tokens, text).prefix_tokens.len() <= FINGERPRINT_PREFIX_LEN,
        tokens.len() > 0 ==> fingerprint_of(tokens, text).prefix_tokens.len() > 0,
        fingerprint_of(tokens, text).prefix_tokens.is_prefix_of(tokens),
{
}

/// The first choice of a completion.
pub open spec fn first_choice(v: JsonTree) -> Option<JsonTree> {
    match v.field("choices"@) {
        Some(choices) => choices.head(),
        None => None,
    }
}

/// A text at `choice.outer.inner`.
pub open spec fn choice_text(choice: JsonTree, outer: Seq<char>, inner: Seq<char>) -> Option<
    Seq<char>,
> {
    match choice.path(outer, inner) {
        Some(value) => value.text(),
        None => None,
    }
}

/// The token texts of a list of log-probability entries; entries without one
/// are passed over.
pub open spec fn token_texts(items: Seq<JsonTree>) -> Seq<Seq<char>>
    decreases items.len(),
{
    if items.len() == 0 {
        Seq::empty()
    } else {
        let before = token_texts(items.drop_last());
        match items.last().field("token"@) {
            Some(token) => match token.text() {
                Some(text) => before.push(text),
                None => before,
            },
            None => before,
        }
    }
}

/// The tokens of a choice: `choice.logprobs.content[].token`.
pub open spec fn choice_tokens(choice: JsonTree) -> Seq<Seq<char>> {
    match choice.path("logprobs"@, "content"@) {
        Some(content) => match content.items() {
            Some(items) => token_texts(items),
            None => Seq::empty(),
        },
        None => Seq::empty(),
    }
}

/// The text of a completion's message, empty if there is none.
pub open spec fn message_text(choice: JsonTree) -> Seq<char> {
    match choice_text(choice, "message"@, "content"@) {
        Some(text) => text,
        None => Seq::empty(),
    }
}

/// The fingerprint of a completion that was not streamed; none if it carries no
/// output text.
pub open spec fn completion_fingerprint(v: JsonTree) -> Option<FingerprintView> {
    match first_choice(v) {
        Some(choice) => if message_text(choice).len() == 0 {
            None
        } else {
            Some(fingerprint_of(choice_tokens(choice), message_text(choice)))
        },
        None => None,
    }
}

/// Appends the tokens of a choice.
fn push_choice_tokens(choice: &Json, tokens: &mut Vec<String>)
    ensures
        texts(final(tokens)@) == texts(old(tokens)@) + choice_tokens(choice.tree()),
{
    let ghost start = texts(tokens@);
    match choice.get_path("logprobs", "content") {
        Some(Json::Array(entries)) => {
            let ghost items = choice.tree().path("logprobs"@, "content"@)->0->Array_0;
            let mut i: usize = 0;
            assert(texts(tokens@) =~= start + token_texts(items.take(0)));
            while i < entries.len()
                invariant
                    i <= entries.len(),
                    items.len() == entries.len(),
                    forall|j: int|
                        0 <= j < items.len() ==> #[trigger] items[j] == entries@[j].tree(),
                    texts(tokens@) == start + token_texts(items.take(i as int)),
                decreases entries.len() - i,
            {
                proof {
                    assert(items.take(i + 1).drop_last() =~= items.take(i as int));
                    assert(items.take(i + 1).last() == entries@[i as int].tree());
                }
                let ghost before = tokens@;
                match entries[i].get("token") {
                    Some(token) => match token.as_text() {
                        Some(text) => {
                            tokens.push(text.to_owned());
                            assert(texts(tokens@) =~= texts(before).push(text@));
                            assert(texts(tokens@) =~= start + token_texts(items.take(i + 1)));
                        },
                        None => {},
                    },
                    None => {},
                }
                i = i + 1;
            }
            assert(items.take(i as int) =~= items);
        },
        _ => {
            assert(texts(tokens@) =~= start + choice_tokens(choice.tree()));
        },
    }
}

/// Builds a fingerprint from a completion that was not streamed.
pub fn fingerprint_from_completion_json(v: &Json) -> (r: Option<LogitFingerprint>)
    ensures
        opt_fingerprint(r) == completion_fingerprint(v.tree()),
{
    let choice = match v.get("choices") {
        Some(choices) => match choices.head() {
            Some(choice) => choice,
            None => return None,
        },
        None => return None,
    };
    let text = match choice.get_path("message", "content") {
        Some(content) => match content.as_text() {
            Some(text) => text.to_owned(),
            None => String::new(),
        },
        None => String::new(),
    };
    if text.as_str().is_empty() {
        return None;
    }
    let mut tokens: Vec<String> = Vec::new();
    push_choice_tokens(choice, &mut tokens);
    assert(texts(tokens@) =~= choice_tokens(choice.tree()));
    Some(build_fingerprint(tokens.as_slice(), text.as_str()))
}

/// The payload of one line of an event stream: the line without `data:` and
/// without white space around it.
pub open spec fn event_payload(line: Seq<char>) -> Seq<char> {
    let line = trimmed(line);
    if has_prefix(line, "data:"@) {
        trimmed(line.skip(5))
    } else {
        line
    }
}

/// The documents of the first lines of an event stream; lines that hold none
/// are passed over, and so is the closing `[DONE]`.
pub open spec fn line_documents(lines: Seq<Seq<char>>) -> Seq<JsonTree>
    decreases lines.len(),
{
    if lines.len() == 0 {
        Seq::empty()
    } else {
        let before = line_documents(lines.drop_last());
        let payload = event_payload(lines.last());
        if payload.len() == 0 || payload == "[DONE]"@ {
            before
        } else {
            match json_document(payload) {
                Some(document) => before.push(document),
                None => before,
            }
        }
    }
}

/// The documents of an event stream. Bytes that are not UTF-8 hold none.
pub open spec fn stream_documents(buf: Seq<u8>) -> Seq<JsonTree> {
    if valid_utf8(buf) {
        line_documents(split_on(decode_utf8(buf), '\n'))
    } else {
        Seq::empty()
    }
}

/// The contents of a list of documents.
pub open spec fn trees(documents: Seq<Json>) -> Seq<JsonTree> {
    documents.map_values(|v: Json| v.tree())
}

/// The payload of one line.
fn line_payload(line: &[char]) -> (r: Vec<char>)
    ensures
        r@ == event_payload(line@),
{
    let line = trim(line);
    let marker = chars_of("data:");
    proof {
        reveal_strlit("data:");
        assert(line@.len() >= 5 ==> line@.subrange(0, 5) =~= line@.take(5));
    }
    if stands_at(line.as_slice(), marker.as_slice(), 0) {
        let rest = copy_range(line.as_slice(), 5, line.len());
        assert(rest@ =~= line@.skip(5));
        trim(rest.as_slice())
    } else {
        line
    }
}

/// Reads the documents of an event stream.
pub fn parse_stream(buf: &[u8]) -> (r: Vec<Json>)
    ensures
        trees(r@) == stream_documents(buf@),
{
    let mut documents: Vec<Json> = Vec::new();
    let text = match utf8_text(buf) {
        Some(text) => text,
        None => {
            assert(trees(documents@) =~= Seq::empty());
            return documents;
        },
    };
    let chars = chars_of(text);
    let lines = split(chars.as_slice(), '\n');
    let done = chars_of("[DONE]");
    let ghost all = parts(lines@);
    let mut i: usize = 0;
    assert(trees(documents@) =~= line_documents(all.take(0)));
    while i < lines.len()
        invariant
            i <= lines.len(),
            all == parts(lines@),
            done@ == "[DONE]"@,
            trees(documents@) == line_documents(all.take(i as int)),
        decreases lines.len() - i,
    {
        let payload = line_payload(lines[i].as_slice());
        let ghost before = documents@;
        proof {
            assert(all.take(i + 1).drop_last() =~= all.take(i as int));
            assert(all.take(i + 1).last() == lines@[i as int]@);
        }
        if payload.len() > 0 && !same_chars(payload.as_slice(), done.as_slice()) {
            let payload = string_of(payload.as_slice());
            match parse_json(payload.as_str()) {
                Ok(document) => {
                    documents.push(document);
                    assert(trees(documents@) =~= trees(before).push(document.tree()));
                },
                Err(_) => {},
            }
        }
        i = i + 1;
    }
    assert(all.take(i as int) =~= all);
    documents
}

/// The output text of a stream: the delta texts one after another.
pub open spec fn stream_text(documents: Seq<JsonTree>) -> Seq<char>
    decreases documents.len(),
{
    if documents.len() == 0 {
        Seq::empty()
    } else {
        let before = stream_text(documents.drop_last());
        match first_choice(documents.last()) {
            Some(choice) => match choice_text(choice, "delta"@, "content"@) {
                Some(text) => before + text,
                None => before,
            },
            None => before,
        }
    }
}

/// The tokens of a stream, in order.
pub open spec fn stream_tokens(documents: Seq<JsonTree>) -> Seq<Seq<char>>
    decreases documents.len(),
{
    if documents.len() == 0 {
        Seq::empty()
    } else {
        let before = stream_tokens(documents.drop_last());
        match first_choice(documents.last()) {
            Some(choice) => before + choice_tokens(choice),
            None => before,
        }
    }
}

/// The output text and the tokens of a stream's documents.
pub fn output_and_tokens(documents: &[Json]) -> (r: (String, Vec<String>))
    ensures
        r.0@ == stream_text(trees(documents@)),
        texts(r.1@) == stream_tokens(trees(documents@)),
{
    let mut text = String::new();
    let mut tokens: Vec<String> = Vec::new();
    let ghost all = trees(documents@);
    let mut i: usize = 0;
    assert(text@ =~= stream_text(all.take(0)));
    assert(texts(tokens@) =~= stream_tokens(all.take(0)));
    while i < documents.len()
        invariant
            i <= documents.len(),
            all == trees(documents@),
            text@ == stream_text(all.take(i as int)),
            texts(tokens@) == stream_tokens(all.take(i as int)),
        decreases documents.len() - i,
    {
        proof {
            assert(all.take(i + 1).drop_last() =~= all.take(i as int));
            assert(all.take(i + 1).last() == documents@[i as int].tree());
        }
        let choice = match documents[i].get("choices") {
            Some(choices) => choices.head(),
            None => None,
        };
        match choice {
            Some(choice) => {
                match choice.get_path("delta", "content") {
                    Some(content) => match content.as_text() {
                        Some(piece) => {
                            text.append(piece);
                        },
                        None => {},
                    },
                    None => {},
                }
                push_choice_tokens(choice, &mut tokens);
            },
            None => {},
        }
        i = i + 1;
    }
    assert(all.take(i as int) =~= all);
    (text, tokens)
}

/// Reads the output text and the tokens from the body of an event stream.
pub fn parse_output_and_tokens_from_sse(buf: &[u8]) -> (r: (String, Vec<String>))
    ensures
        r.0@ == stream_text(stream_documents(buf@)),
        texts(r.1@) == stream_tokens(stream_documents(buf@)),
{
    let documents = parse_stream(buf);
    output_and_tokens(documents.as_slice())
}

/// `usage.completion_tokens` of a document.
pub open spec fn usage_tokens(document: JsonTree) -> Option<u64> {
    match document.path("usage"@, "completion_tokens"@) {
        Some(value) => value.number(),
        None => None,
    }
}

/// The count in the last document that has one.
pub open spec fn last_usage(documents: Seq<JsonTree>) -> Option<u64>
    decreases documents.len(),
{
    if documents.len() == 0 {
        None
    } else {
        match usage_tokens(documents.last()) {
            Some(n) => Some(n),
            None => last_usage(documents.drop_last()),
        }
    }
}

/// The completion tokens that the last usage document of a stream counts.
pub fn completion_tokens(documents: &[Json]) -> (r: Option<u64>)
    ensures
        r == last_usage(trees(documents@)),
{
    let ghost all = trees(documents@);
    let mut n: usize = documents.len();
    assert(all.take(n as int) =~= all);
    while n > 0
        invariant
            n <= documents.len(),
            all == trees(documents@),
            last_usage(all) == last_usage(all.take(n as int)),
        decreases n,
    {
        proof {
            assert(all.take(n as int).drop_last() =~= all.take(n - 1));
            assert(all.take(n as int).last() == documents@[n - 1].tree());
        }
        match documents[n - 1].get_path("usage", "completion_tokens") {
            Some(value) => match value.as_number() {
                Some(count) => return Some(count),
                None => {},
            },
            None => {},
        }
        n = n - 1;
    }
    None
}

/// Reads `usage.completion_tokens` from the body of an event stream.
pub fn parse_completion_tokens_from_sse_tail(buf: &[u8]) -> (r: Option<u64>)
    ensures
        r == last_usage(stream_documents(buf@)),
{
    let documents = parse_stream(buf);
    completion_tokens(documents.as_slice())
}

/// A completion has the same fingerprint whether it came at once or streamed,
/// as long as the stream carries the same text and the same tokens.
pub proof fn law_streaming_does_not_change_the_fingerprint(v: JsonTree, documents: Seq<JsonTree>)
    requires
        first_choice(v) is Some,
        message_text(first_choice(v)->0) == stream_text(documents),
        choice_tokens(first_choice(v)->0) == stream_tokens(documents),
        stream_text(documents).len() > 0,
    ensures
        completion_fingerprint(v) == Some(
            fingerprint_of(stream_tokens(documents), stream_text(documents)),
        ),
{
}

/// A fingerprint holds the first 32 tokens, or all of them if there are fewer, and
/// counts them all.
pub proof fn law_prefix_is_the_first_tokens(tokens: Seq<Seq<char>>, text: Seq<char>)
    ensures
        fingerprint_of(tokens, text).prefix_tokens.len() == if tokens.len() < 32 {
            tokens.len()
        } else {
            32nat
        },
        forall|i: int|
            0 <= i < 32 && i < tokens.len() ==> #[trigger] fingerprint_of(
                tokens,
                text,
            ).prefix_tokens[i] == tokens[i],
        tokens.len() < 0x1_0000_0000 ==> fingerprint_of(tokens, text).token_count == tokens.len(),
{
}

/// Every entry with a token text gives a token, in order; other entries give none.
pub proof fn law_one_more_token(items: Seq<JsonTree>, item: JsonTree, token: Seq<char>)
    ensures
        item.field("token"@) == Some(JsonTree::Text(token)) ==> token_texts(items.push(item))
            == token_texts(items).push(token),
        !(item.field("token"@) matches Some(JsonTree::Text(_))) ==> token_texts(items.push(item))
            == token_texts(items),
        token_texts(Seq::empty()) == Seq::<Seq<char>>::empty(),
{
    assert(items.push(item).drop_last() =~= items);
}

/// A completion with a text in the message of its first choice has a fingerprint of
/// that text and of the tokens in that choice; one without has none.
pub proof fn law_completion_is_read(
    v: JsonTree,
    choices: Seq<JsonTree>,
    message: JsonTree,
    text: Seq<char>,
    logprobs: JsonTree,
    items: Seq<JsonTree>,
)
    requires
        v.field("choices"@) == Some(JsonTree::Array(choices)),
        choices.len() > 0,
        choices[0].field("message"@) == Some(message),
        message.field("content"@) == Some(JsonTree::Text(text)),
    ensures
        text.len() == 0 ==> completion_fingerprint(v) is None,
        text.len() > 0 ==> completion_fingerprint(v) is Some && completion_fingerprint(
            v,
        )->0.output_sha256 == hex_text(sha256(encode_utf8(text))),
        text.len() > 0 && choices[0].field("logprobs"@) == Some(logprobs) && logprobs.field(
            "content"@,
        ) == Some(JsonTree::Array(items)) ==> completion_fingerprint(v) == Some(
            fingerprint_of(token_texts(items), text),
        ),
        text.len() > 0 && choices[0].field("logprobs"@) is None ==> completion_fingerprint(
            v,
        )->0.prefix_tokens.len() == 0,
{
}

/// Each document of a stream adds what its first choice holds: the text of its delta
/// and its tokens. One without choices adds nothing. The last count of tokens counts.
pub proof fn law_one_more_document(
    documents: Seq<JsonTree>,
    document: JsonTree,
    choices: Seq<JsonTree>,
    delta: JsonTree,
    text: Seq<char>,
    usage: JsonTree,
    n: u64,
)
    ensures
        ({
            let more = documents.push(document);
            &&& document.field("choices"@) == Some(JsonTree::Array(choices)) && choices.len() > 0
                && choices[0].field("delta"@) == Some(delta) && delta.field("content"@) == Some(
                JsonTree::Text(text),
            ) ==> stream_text(more) == stream_text(documents) + text && stream_tokens(more)
                == stream_tokens(documents) + choice_tokens(choices[0])
            &&& document.field("choices"@) is None ==> stream_text(more) == stream_text(documents)
                && stream_tokens(more) == stream_tokens(documents)
            &&& document.field("usage"@) == Some(usage) && usage.field("completion_tokens"@)
                == Some(JsonTree::Number(n)) ==> last_usage(more) == Some(n)
            &&& document.field("usage"@) is None ==> last_usage(more) == last_usage(documents)
        }),
        stream_text(Seq::empty()).len() == 0,
        stream_tokens(Seq::empty()).len() == 0,
        last_usage(Seq::empty()) is None,
{
    assert(documents.push(document).drop_last() =~= documents);
}

/// The payload of a line of an event stream is what stands behind `data:`, without the
/// white space around it; a line without that marker is its own payload.
pub proof fn law_event_payload(payload: Seq<char>)
    requires
        payload.len() > 0,
        !crate::text::is_space(payload[0]),
        !crate::text::is_space(payload.last()),
    ensures
        event_payload("data:"@ + payload) == payload,
        event_payload("data: "@ + payload) == payload,
        event_payload("data: "@ + payload.push('\r')) == payload,
        !has_prefix(payload, "data:"@) ==> event_payload(payload) == payload,
{
    reveal_strlit("data:");
    reveal_strlit("data: ");
    crate::text::law_trimmed_between(Seq::empty(), payload, Seq::empty());
    assert(Seq::<char>::empty() + payload + Seq::<char>::empty() =~= payload);
    let a = "data:"@ + payload;
    let b = "data: "@ + payload;
    let c = "data: "@ + payload.push('\r');
    crate::text::law_trimmed_between(Seq::empty(), a, Seq::empty());
    crate::text::law_trimmed_between(Seq::empty(), b, Seq::empty());
    crate::text::law_trimmed_between(Seq::empty(), b, seq!['\r']);
    assert(Seq::<char>::empty() + a + Seq::<char>::empty() =~= a);
    assert(Seq::<char>::empty() + b + Seq::<char>::empty() =~= b);
    assert(Seq::<char>::empty() + b + seq!['\r'] =~= c);
    assert(a.skip(5) =~= payload);
    crate::text::law_trimmed_between(seq![' '], payload, Seq::empty());
    assert(b.skip(5) =~= seq![' '] + payload + Seq::<char>::empty());
    assert(a.subrange(0, 5) =~= "data:"@);
    assert(b.subrange(0, 5) =~= "data:"@);
}

/// Each line of an event stream adds the document that its payload is. A line without
/// one adds nothing, and neither does the closing `[DONE]` or a blank line.
pub proof fn law_one_more_line(lines: Seq<Seq<char>>, line: Seq<char>)
    ensures
        event_payload(line).len() > 0 && event_payload(line) != "[DONE]"@ ==> line_documents(
            lines.push(line),
        ) == match json_document(event_payload(line)) {
            Some(document) => line_documents(lines).push(document),
            None => line_documents(lines),
        },
        event_payload(line).len() == 0 || event_payload(line) == "[DONE]"@ ==> line_documents(
            lines.push(line),
        ) == line_documents(lines),
{
    assert(lines.push(line).drop_last() =~= lines);
}

} // verus!
