//! The local model runtime as the management API shows it.

use vstd::prelude::*;
use vstd::utf8::{decode_utf8, encode_utf8, valid_utf8};

use crate::hexcodec::hex_value;
use crate::order::{sort_order, sorted_by_text};
use crate::text::{
    chars_of, copy_range, find_chars, has_prefix, has_text, lower_text, occurs_at, same_text,
    starts_with, string_of, text_contains, texts, to_lower, utf8_text,
};

verus! {

/// A local model server process.
#[derive(Debug)]
pub struct RuntimeProcessPayload {
    pub name: String,
    pub backend: String,
    pub status: String,
    pub port: u16,
    pub pid: u32,
    pub slots: usize,
}

/// A local model.
#[derive(Debug)]
pub struct RuntimeModelPayload {
    pub name: String,
    pub backend: String,
    pub status: String,
    pub port: Option<u16>,
}

/// The local models.
#[derive(Debug)]
pub struct RuntimeStatusPayload {
    pub models: Vec<RuntimeModelPayload>,
}

/// The local processes.
#[derive(Debug)]
pub struct RuntimeProcessesPayload {
    pub processes: Vec<RuntimeProcessPayload>,
}

/// The mathematical content of a [`RuntimeProcessPayload`].
pub struct ProcessView {
    pub name: Seq<char>,
    pub backend: Seq<char>,
    pub status: Seq<char>,
    pub port: u16,
    pub pid: u32,
    pub slots: usize,
}

/// The mathematical content of a [`RuntimeModelPayload`].
pub struct ModelView {
    pub name: Seq<char>,
    pub backend: Seq<char>,
    pub status: Seq<char>,
    pub port: Option<u16>,
}

impl View for RuntimeProcessPayload {
    type V = ProcessView;

    open spec fn view(&self) -> ProcessView {
        ProcessView {
            name: self.name@,
            backend: self.backend@,
            status: self.status@,
            port: self.port,
            pid: self.pid,
            slots: self.slots,
        }
    }
}

impl View for RuntimeModelPayload {
    type V = ModelView;

    open spec fn view(&self) -> ModelView {
        ModelView {
            name: self.name@,
            backend: self.backend@,
            status: self.status@,
            port: self.port,
        }
    }
}

impl Clone for RuntimeProcessPayload {
    fn clone(&self) -> (r: RuntimeProcessPayload)
        ensures
            r@ == self@,
    {
        RuntimeProcessPayload {
            name: self.name.clone(),
            backend: self.backend.clone(),
            status: self.status.clone(),
            port: self.port,
            pid: self.pid,
            slots: self.slots,
        }
    }
}

/// The content of a list of processes.
pub open spec fn processes(list: Seq<RuntimeProcessPayload>) -> Seq<ProcessView> {
    list.map_values(|p: RuntimeProcessPayload| p@)
}

/// The content of a list of models.
pub open spec fn models(list: Seq<RuntimeModelPayload>) -> Seq<ModelView> {
    list.map_values(|m: RuntimeModelPayload| m@)
}

/// Processes are listed by name, whatever the case.
pub open spec fn process_key() -> spec_fn(ProcessView) -> Seq<char> {
    |p: ProcessView| lower_text(p.name)
}

/// The processes in listing order.
pub open spec fn listed(list: Seq<ProcessView>) -> Seq<ProcessView> {
    sorted_by_text(list, process_key())
}

/// The places of the processes in listing order.
fn listing_order(list: &[RuntimeProcessPayload]) -> (order: Vec<usize>)
    ensures
        order.len() == list.len(),
        listed(processes(list@)).len() == list.len(),
        forall|i: int| 0 <= i < order.len() ==> #[trigger] order@[i] < list.len(),
        forall|i: int|
            0 <= i < order.len() ==> list@[#[trigger] order@[i] as int]@ == listed(
                processes(list@),
            )[i],
{
    let mut keys: Vec<String> = Vec::new();
    let mut i: usize = 0;
    while i < list.len()
        invariant
            i <= list.len(),
            keys.len() == i,
            forall|j: int| 0 <= j < i ==> (#[trigger] keys@[j])@ == lower_text(list@[j].name@),
        decreases list.len() - i,
    {
        keys.push(to_lower(list[i].name.as_str()));
        i = i + 1;
    }
    assert(texts(keys@) =~= processes(list@).map_values(process_key()));
    let order = sort_order(keys.as_slice());
    proof {
        let positions = order@.map_values(|i: usize| i as int);
        assert forall|i: int| 0 <= i < order.len() implies list@[#[trigger] order@[i] as int]@
            == listed(processes(list@))[i] by {
            assert(positions[i] == order@[i] as int);
        }
    }
    order
}

/// The model that a running process serves.
pub open spec fn model_of(p: ProcessView) -> ModelView {
    ModelView { name: p.name, backend: p.backend, status: p.status, port: Some(p.port) }
}

/// The local models: those of the processes in listing order, and in front of
/// them the primary model while it starts and has no process yet.
pub open spec fn runtime_models(
    model_name: Seq<char>,
    primary_backend: Option<Seq<char>>,
    is_host: bool,
    llama_ready: bool,
    llama_port: Option<u16>,
    running: Seq<ProcessView>,
) -> Seq<ModelView> {
    let live = listed(running).map_values(|p: ProcessView| model_of(p));
    let has_process = exists|i: int| 0 <= i < live.len() && (#[trigger] live[i]).name == model_name;
    if is_host && !llama_ready && !has_process && model_name.len() > 0 {
        seq![
            ModelView {
                name: model_name,
                backend: match primary_backend {
                    Some(backend) => backend,
                    None => "unknown"@,
                },
                status: "starting"@,
                port: llama_port,
            },
        ] + live
    } else {
        live
    }
}

/// Lists the local models.
pub fn build_runtime_status_payload(
    model_name: &str,
    primary_backend: Option<String>,
    is_host: bool,
    llama_ready: bool,
    llama_port: Option<u16>,
    local_processes: Vec<RuntimeProcessPayload>,
) -> (r: RuntimeStatusPayload)
    ensures
        models(r.models@) == runtime_models(
            model_name@,
            crate::text::opt_text(primary_backend),
            is_host,
            llama_ready,
            llama_port,
            processes(local_processes@),
        ),
{
    let order = listing_order(local_processes.as_slice());
    let ghost running = processes(local_processes@);
    let ghost live = listed(running).map_values(|p: ProcessView| model_of(p));
    let mut list: Vec<RuntimeModelPayload> = Vec::new();
    let mut has_process = false;
    let mut i: usize = 0;
    assert(models(list@) =~= live.take(0));
    while i < order.len()
        invariant
            i <= order.len(),
            live.len() == order.len(),
            forall|j: int| 0 <= j < order.len() ==> #[trigger] order@[j] < local_processes.len(),
            forall|j: int|
                0 <= j < order.len() ==> model_of(
                    local_processes@[#[trigger] order@[j] as int]@,
                ) == live[j],
            models(list@) == live.take(i as int),
            has_process == exists|j: int| 0 <= j < i && (#[trigger] live[j]).name == model_name@,
        decreases order.len() - i,
    {
        let p = &local_processes[order[i]];
        let ghost before = list@;
        assert(live[i as int] == model_of(p@));
        if same_text(p.name.as_str(), model_name) {
            has_process = true;
            assert(live[i as int].name == model_name@);
        }
        let m = RuntimeModelPayload {
            name: p.name.clone(),
            backend: p.backend.clone(),
            status: p.status.clone(),
            port: Some(p.port),
        };
        list.push(m);
        assert(models(list@) =~= models(before).push(m@));
        assert(models(list@) =~= live.take(i + 1));
        i = i + 1;
    }
    assert(live.take(i as int) =~= live);
    if is_host && !llama_ready && !has_process && !model_name.is_empty() {
        let backend = match primary_backend {
            Some(backend) => backend,
            None => "unknown".to_owned(),
        };
        let first = RuntimeModelPayload {
            name: model_name.to_owned(),
            backend,
            status: "starting".to_owned(),
            port: llama_port,
        };
        let ghost before = list@;
        list.insert(0, first);
        assert(models(list@) =~= seq![first@] + models(before));
    }
    RuntimeStatusPayload { models: list }
}

/// Lists the local processes.
pub fn build_runtime_processes_payload(local_processes: Vec<RuntimeProcessPayload>) -> (r:
    RuntimeProcessesPayload)
    ensures
        processes(r.processes@) == listed(processes(local_processes@)),
{
    let order = listing_order(local_processes.as_slice());
    let ghost wanted = listed(processes(local_processes@));
    let mut list: Vec<RuntimeProcessPayload> = Vec::new();
    let mut i: usize = 0;
    while i < order.len()
        invariant
            i <= order.len(),
            list.len() == i,
            wanted.len() == order.len(),
            forall|j: int| 0 <= j < order.len() ==> #[trigger] order@[j] < local_processes.len(),
            forall|j: int|
                0 <= j < order.len() ==> local_processes@[#[trigger] order@[j] as int]@
                    == wanted[j],
            forall|j: int| 0 <= j < i ==> (#[trigger] list@[j])@ == wanted[j],
        decreases order.len() - i,
    {
        list.push(local_processes[order[i]].clone());
        i = i + 1;
    }
    assert(processes(list@) =~= wanted);
    RuntimeProcessesPayload { processes: list }
}

/// The HTTP status for a runtime error.
pub open spec fn error_status(msg: Seq<char>) -> u16 {
    if has_text(msg, "not loaded"@) {
        404
    } else if has_text(msg, "already loaded"@) {
        409
    } else if has_text(msg, "fit locally"@) || has_text(msg, "runtime load only supports"@) {
        422
    } else {
        400
    }
}

/// The HTTP status for a runtime error, by what its message says.
pub fn classify_runtime_error(msg: &str) -> (status: u16)
    ensures
        status == error_status(msg@),
{
    if text_contains(msg, "not loaded") {
        404
    } else if text_contains(msg, "already loaded") {
        409
    } else if text_contains(msg, "fit locally") || text_contains(
        msg,
        "runtime load only supports",
    ) {
        422
    } else {
        400
    }
}

/// The byte that two characters behind a percent sign stand for: two hexadecimal
/// digits, or a plus sign and one.
pub open spec fn escaped_byte(hi: u8, lo: u8) -> Option<u8> {
    match (hex_value(hi as char), hex_value(lo as char)) {
        (Some(a), Some(b)) => Some((16 * a + b) as u8),
        (None, Some(b)) => if hi == 0x2b {
            Some(b as u8)
        } else {
            None
        },
        _ => None,
    }
}

/// The bytes of a path with its percent escapes resolved, from place `i` on. A
/// percent sign without two characters behind it stands for itself.
pub open spec fn unescaped(bytes: Seq<u8>, i: int) -> Option<Seq<u8>>
    decreases bytes.len() - i,
{
    if 0 <= i < bytes.len() {
        if bytes[i] == 0x25 && i + 2 < bytes.len() {
            match escaped_byte(bytes[i + 1], bytes[i + 2]) {
                Some(b) => match unescaped(bytes, i + 3) {
                    Some(rest) => Some(seq![b] + rest),
                    None => None,
                },
                None => None,
            }
        } else {
            match unescaped(bytes, i + 1) {
                Some(rest) => Some(seq![bytes[i]] + rest),
                None => None,
            }
        }
    } else {
        Some(Seq::empty())
    }
}

/// The name in a path that starts with a prefix, with its percent escapes resolved.
pub open spec fn name_below(path: Seq<char>, prefix: Seq<char>) -> Option<Seq<char>> {
    if has_prefix(path, prefix) && path.len() > prefix.len() {
        match unescaped(encode_utf8(path.skip(prefix.len() as int)), 0) {
            Some(bytes) => if valid_utf8(bytes) {
                Some(decode_utf8(bytes))
            } else {
                None
            },
            None => None,
        }
    } else {
        None
    }
}

/// The model name in a path below `/api/runtime/models/`.
pub open spec fn model_in_path(path: Seq<char>) -> Option<Seq<char>> {
    name_below(path, "/api/runtime/models/"@)
}

/// The value of a hexadecimal digit.
fn digit_value(b: u8) -> (r: Option<u8>)
    ensures
        match r {
            Some(n) => hex_value(b as char) == Some(n as int) && n < 16,
            None => hex_value(b as char) is None,
        },
{
    if 0x30 <= b && b <= 0x39 {
        Some(b - 0x30)
    } else if 0x61 <= b && b <= 0x66 {
        Some(b - 0x61 + 10)
    } else if 0x41 <= b && b <= 0x46 {
        Some(b - 0x41 + 10)
    } else {
        None
    }
}

/// Resolves the two characters behind a percent sign.
fn resolve_escape(hi: u8, lo: u8) -> (r: Option<u8>)
    ensures
        r == escaped_byte(hi, lo),
{
    match (digit_value(hi), digit_value(lo)) {
        (Some(a), Some(b)) => Some(16 * a + b),
        (None, Some(b)) => if hi == 0x2b {
            Some(b)
        } else {
            None
        },
        _ => None,
    }
}

/// Resolves the percent escapes of a path.
fn unescape(bytes: &[u8]) -> (r: Option<Vec<u8>>)
    ensures
        match r {
            Some(decoded) => unescaped(bytes@, 0) == Some(decoded@),
            None => unescaped(bytes@, 0) is None,
        },
{
    let mut decoded: Vec<u8> = Vec::new();
    let mut i: usize = 0;
    let ghost whole = unescaped(bytes@, 0);
    proof {
        if let Some(rest) = whole {
            assert(rest =~= decoded@ + rest);
        }
    }
    while i < bytes.len()
        invariant
            i <= bytes.len(),
            whole == unescaped(bytes@, 0),
            match unescaped(bytes@, i as int) {
                Some(rest) => whole == Some(decoded@ + rest),
                None => whole is None,
            },
        decreases bytes.len() - i,
    {
        let ghost before = decoded@;
        if bytes[i] == 0x25 && bytes.len() - i > 2 {
            match resolve_escape(bytes[i + 1], bytes[i + 2]) {
                Some(b) => {
                    decoded.push(b);
                    proof {
                        if let Some(rest) = unescaped(bytes@, i + 3) {
                            assert(before + (seq![b] + rest) =~= decoded@ + rest);
                        }
                    }
                    i = i + 3;
                },
                None => return None,
            }
        } else {
            decoded.push(bytes[i]);
            proof {
                if let Some(rest) = unescaped(bytes@, i + 1) {
                    assert(before + (seq![bytes@[i as int]] + rest) =~= decoded@ + rest);
                }
            }
            i = i + 1;
        }
    }
    assert(decoded@ + Seq::<u8>::empty() =~= decoded@);
    Some(decoded)
}

/// Reads the name from a path that starts with a prefix.
fn decode_below(path: &str, prefix: &str) -> (r: Option<String>)
    ensures
        crate::text::opt_text(r) == name_below(path@, prefix@),
{
    if !starts_with(path, prefix) {
        return None;
    }
    let chars = chars_of(path);
    let skip: usize = chars_of(prefix).len();
    if chars.len() == skip {
        return None;
    }
    let raw = copy_range(chars.as_slice(), skip, chars.len());
    assert(raw@ =~= path@.skip(prefix@.len() as int));
    let raw = string_of(raw.as_slice());
    let decoded = match unescape(raw.as_str().as_bytes()) {
        Some(bytes) => bytes,
        None => return None,
    };
    match utf8_text(decoded.as_slice()) {
        Some(text) => Some(text.to_owned()),
        None => None,
    }
}

/// Reads the model name from a path below `/api/runtime/models/`.
pub fn decode_runtime_model_path(path: &str) -> (r: Option<String>)
    ensures
        crate::text::opt_text(r) == model_in_path(path@),
{
    decode_below(path, "/api/runtime/models/")
}

/// Reads the model reference from a path below `/api/model-interests/`.
pub fn decode_interest_path(path: &str) -> (r: Option<String>)
    ensures
        crate::text::opt_text(r) == name_below(path@, "/api/model-interests/"@),
{
    decode_below(path, "/api/model-interests/")
}

proof fn lemma_unescaped_plain(bytes: Seq<u8>, i: int)
    requires
        0 <= i <= bytes.len(),
        forall|j: int| 0 <= j < bytes.len() ==> bytes[j] != 0x25,
    ensures
        unescaped(bytes, i) == Some(bytes.skip(i)),
    decreases bytes.len() - i,
{
    if i < bytes.len() {
        lemma_unescaped_plain(bytes, i + 1);
        assert(seq![bytes[i]] + bytes.skip(i + 1) =~= bytes.skip(i));
    } else {
        assert(bytes.skip(i) =~= Seq::empty());
    }
}

/// A path without percent signs is taken as it is; a plus sign stays a plus sign.
pub proof fn law_plain_path_is_kept(path: Seq<char>, name: Seq<char>)
    requires
        path == "/api/runtime/models/"@ + name,
        name.len() > 0,
        forall|j: int| 0 <= j < encode_utf8(name).len() ==> encode_utf8(name)[j] != 0x25,
    ensures
        model_in_path(path) == Some(name),
{
    broadcast use vstd::utf8::encode_utf8_decode_utf8;
    broadcast use vstd::utf8::encode_utf8_valid_utf8;

    let prefix = "/api/runtime/models/"@;
    let bytes = encode_utf8(name);
    assert(path.take(prefix.len() as int) =~= prefix);
    assert(path.skip(prefix.len() as int) =~= name);
    lemma_unescaped_plain(bytes, 0);
    assert(bytes.skip(0) =~= bytes);
}

/// Bytes as they may be written in a path: any of them as a percent sign and two
/// hexadecimal digits of either case, the others as they are. A percent sign has to
/// be escaped.
pub open spec fn is_escaping(written: Seq<u8>, bytes: Seq<u8>) -> bool
    decreases bytes.len(),
{
    if bytes.len() == 0 {
        written.len() == 0
    } else {
        ||| {
            &&& written.len() >= 1
            &&& written[0] == bytes[0]
            &&& bytes[0] != 0x25
            &&& is_escaping(written.skip(1), bytes.drop_first())
        }
        ||| {
            &&& written.len() >= 3
            &&& written[0] == 0x25
            &&& hex_value(written[1] as char) matches Some(hi)
            &&& hex_value(written[2] as char) matches Some(lo)
            &&& bytes[0] == 16 * hi + lo
            &&& is_escaping(written.skip(3), bytes.drop_first())
        }
    }
}

/// Resolving escapes gives the bytes back, whichever of them were escaped.
pub proof fn law_unescape_undoes_escape(written: Seq<u8>, bytes: Seq<u8>)
    requires
        is_escaping(written, bytes),
    ensures
        unescaped(written, 0) == Some(bytes),
{
    lemma_unescape_from(Seq::empty(), written, bytes);
    assert(Seq::<u8>::empty() + written =~= written);
}

proof fn lemma_unescape_from(front: Seq<u8>, written: Seq<u8>, bytes: Seq<u8>)
    requires
        is_escaping(written, bytes),
    ensures
        unescaped(front + written, front.len() as int) == Some(bytes),
    decreases bytes.len(),
{
    let all = front + written;
    if bytes.len() > 0 {
        let rest = bytes.drop_first();
        let n: int = if written[0] == bytes[0] && bytes[0] != 0x25 {
            1
        } else {
            3
        };
        let one = written.take(n);
        lemma_unescape_from(front + one, written.skip(n), rest);
        assert((front + one) + written.skip(n) =~= all);
        let at = front.len() as int;
        assert(all[at] == written[0]);
        if n == 3 {
            assert(all[at + 1] == written[1]);
            assert(all[at + 2] == written[2]);
        }
        assert(seq![bytes[0]] + rest =~= bytes);
    } else {
        assert(bytes =~= Seq::empty());
    }
}

/// A name comes back from its path, whichever of its bytes the path escapes. A path
/// that does not start as it should, or ends there, names nothing.
pub proof fn law_decoding_undoes_encoding(
    path: Seq<char>,
    prefix: Seq<char>,
    text: Seq<char>,
    name: Seq<char>,
)
    requires
        name.len() > 0,
        is_escaping(encode_utf8(text), encode_utf8(name)),
    ensures
        name_below(prefix + text, prefix) == Some(name),
        model_in_path("/api/runtime/models/"@ + text) == Some(name),
        !has_prefix(path, prefix) ==> name_below(path, prefix) is None,
        name_below(prefix, prefix) is None,
{
    lemma_name_comes_back(prefix, text, name);
    lemma_name_comes_back("/api/runtime/models/"@, text, name);
}

proof fn lemma_name_comes_back(prefix: Seq<char>, text: Seq<char>, name: Seq<char>)
    requires
        name.len() > 0,
        is_escaping(encode_utf8(text), encode_utf8(name)),
    ensures
        name_below(prefix + text, prefix) == Some(name),
{
    broadcast use vstd::utf8::encode_utf8_decode_utf8;
    broadcast use vstd::utf8::encode_utf8_valid_utf8;

    let whole = prefix + text;
    if text.len() == 0 {
        assert(encode_utf8(text).len() == 0);
        assert(encode_utf8(name).len() == 0);
        assert(decode_utf8(encode_utf8(name)) =~= decode_utf8(encode_utf8(text)));
        assert(name =~= text);
    }
    assert(whole.take(prefix.len() as int) =~= prefix);
    assert(whole.skip(prefix.len() as int) =~= text);
    law_unescape_undoes_escape(encode_utf8(text), encode_utf8(name));
}

/// The body of a request: what follows the first blank line of its text.
pub open spec fn body_text(text: Seq<char>) -> Seq<char> {
    if has_text(text, "\r\n\r\n"@) {
        text.skip(
            choose|i: int|
                occurs_at(text, "\r\n\r\n"@, i) && forall|j: int|
                    0 <= j < i ==> !occurs_at(text, "\r\n\r\n"@, j),
        ).skip(4)
    } else {
        Seq::empty()
    }
}

/// The body of a raw request as text, empty if there is none or if the request is
/// not valid UTF-8.
pub fn http_body_text(raw: &[u8]) -> (r: String)
    ensures
        r@ == (if valid_utf8(raw@) {
            body_text(decode_utf8(raw@))
        } else {
            Seq::empty()
        }),
{
    let text = match utf8_text(raw) {
        Some(text) => text,
        None => return String::new(),
    };
    let chars = chars_of(text);
    let blank = chars_of("\r\n\r\n");
    proof {
        reveal_strlit("\r\n\r\n");
    }
    match find_chars(chars.as_slice(), blank.as_slice()) {
        Some(i) => {
            assert(blank@.len() == 4);
            assert(i + 4 <= chars@.len());
            assert(chars@.len() == chars.len());
            let body = copy_range(chars.as_slice(), i + 4, chars.len());
            proof {
                let k = choose|k: int|
                    occurs_at(text@, "\r\n\r\n"@, k) && forall|j: int|
                        0 <= j < k ==> !occurs_at(text@, "\r\n\r\n"@, j);
                assert(occurs_at(text@, "\r\n\r\n"@, i as int));
                assert(k == i);
                assert(body@ =~= text@.skip(k).skip(4));
            }
            string_of(body.as_slice())
        },
        None => String::new(),
    }
}

/// The processes are listed by name whatever the case: all of them, each as often as it
/// runs, and in ascending order.
pub proof fn law_processes_are_listed_by_name(list: Seq<ProcessView>)
    ensures
        listed(list).len() == list.len(),
        listed(list).to_multiset() == list.to_multiset(),
        forall|i: int, j: int|
            0 <= i < j < list.len() ==> crate::order::text_le(
                lower_text((#[trigger] listed(list)[i]).name),
                lower_text((#[trigger] listed(list)[j]).name),
            ),
{
    let le = crate::order::text_order();
    let keys = list.map_values(process_key());
    crate::order::lemma_text_order_is_total();
    crate::order::lemma_sorted_multiset(list, process_key(), le);
    crate::order::law_stable_order(keys, le);
    let order = crate::order::stable_order(keys, le);
    assert forall|i: int, j: int| 0 <= i < j < list.len() implies crate::order::text_le(
        lower_text((#[trigger] listed(list)[i]).name),
        lower_text((#[trigger] listed(list)[j]).name),
    ) by {
        assert(le(keys[order[i]], keys[order[j]]));
        assert(listed(list)[i] == list[order[i]]);
        assert(listed(list)[j] == list[order[j]]);
    }
}

/// Every process is listed as a model with its name, backend, status and port. The
/// primary model stands in front of them while it starts and has no process.
pub proof fn law_every_process_is_a_model(
    model_name: Seq<char>,
    primary_backend: Option<Seq<char>>,
    is_host: bool,
    llama_ready: bool,
    llama_port: Option<u16>,
    running: Seq<ProcessView>,
    i: int,
) -> (k: int)
    requires
        0 <= i < running.len(),
    ensures
        ({
            let shown = runtime_models(
                model_name,
                primary_backend,
                is_host,
                llama_ready,
                llama_port,
                running,
            );
            &&& 0 <= k < shown.len()
            &&& shown[k].name == running[i].name
            &&& shown[k].backend == running[i].backend
            &&& shown[k].status == running[i].status
            &&& shown[k].port == Some(running[i].port)
            &&& shown.len() == running.len() || shown.len() == running.len() + 1
            &&& running[i].name == model_name ==> shown.len() == running.len()
        }),
{
    broadcast use vstd::seq_lib::group_to_multiset_ensures;

    law_processes_are_listed_by_name(running);
    let order = listed(running);
    let live = order.map_values(|p: ProcessView| model_of(p));
    assert(running.contains(running[i]));
    assert(running.to_multiset().count(running[i]) > 0);
    assert(order.to_multiset().count(running[i]) > 0);
    let k = choose|k: int| 0 <= k < order.len() && order[k] == running[i];
    assert(live[k] == model_of(running[i]));
    let shown = runtime_models(
        model_name,
        primary_backend,
        is_host,
        llama_ready,
        llama_port,
        running,
    );
    if shown.len() == running.len() {
        k
    } else {
        assert(shown[k + 1] == live[k]);
        k + 1
    }
}

/// A primary model that starts is shown as starting exactly if this node hosts it, it
/// has a name, it is not ready, and no process serves it.
pub proof fn law_starting_model_is_shown(
    model_name: Seq<char>,
    primary_backend: Option<Seq<char>>,
    is_host: bool,
    llama_ready: bool,
    llama_port: Option<u16>,
    running: Seq<ProcessView>,
)
    requires
        forall|i: int| 0 <= i < running.len() ==> (#[trigger] running[i]).name != model_name,
    ensures
        ({
            let shown = runtime_models(
                model_name,
                primary_backend,
                is_host,
                llama_ready,
                llama_port,
                running,
            );
            if is_host && !llama_ready && model_name.len() > 0 {
                &&& shown.len() == running.len() + 1
                &&& shown[0].name == model_name
                &&& shown[0].status == "starting"@
                &&& shown[0].port == llama_port
                &&& shown[0].backend == (if primary_backend is Some {
                    primary_backend->0
                } else {
                    "unknown"@
                })
            } else {
                shown.len() == running.len()
            }
        }),
{
    broadcast use vstd::seq_lib::group_to_multiset_ensures;

    law_processes_are_listed_by_name(running);
    let order = listed(running);
    let live = order.map_values(|p: ProcessView| model_of(p));
    assert forall|k: int| 0 <= k < live.len() implies (#[trigger] live[k]).name != model_name by {
        assert(order.contains(order[k]));
        assert(order.to_multiset().count(order[k]) > 0);
        assert(running.to_multiset().count(order[k]) > 0);
        let i = choose|i: int| 0 <= i < running.len() && running[i] == order[k];
        assert(running[i].name == live[k].name);
    }
}

/// The body of a request is all that follows its first blank line.
pub proof fn law_body_follows_the_first_blank_line(head: Seq<char>, body: Seq<char>)
    requires
        forall|j: int|
            0 <= j < head.len() ==> !occurs_at(head + "\r\n\r\n"@ + body, "\r\n\r\n"@, j),
    ensures
        body_text(head + "\r\n\r\n"@ + body) == body,
{
    reveal_strlit("\r\n\r\n");
    let text = head + "\r\n\r\n"@ + body;
    let n = head.len() as int;
    assert(text.subrange(n, n + 4) =~= "\r\n\r\n"@);
    assert(occurs_at(text, "\r\n\r\n"@, n));
    let i = choose|i: int|
        occurs_at(text, "\r\n\r\n"@, i) && forall|j: int|
            0 <= j < i ==> !occurs_at(text, "\r\n\r\n"@, j);
    assert(i == n);
    assert(text.skip(n).skip(4) =~= body);
}

/// What a runtime error says decides its status.
pub proof fn law_error_statuses(msg: Seq<char>)
    ensures
        has_text(msg, "not loaded"@) <==> error_status(msg) == 404,
        error_status(msg) == 409 <==> has_text(msg, "already loaded"@) && !has_text(
            msg,
            "not loaded"@,
        ),
        error_status(msg) == 400 <==> !has_text(msg, "not loaded"@) && !has_text(
            msg,
            "already loaded"@,
        ) && !has_text(msg, "fit locally"@) && !has_text(msg, "runtime load only supports"@),
        error_status(msg) == 422 || error_status(msg) == 400 || error_status(msg) == 404
            || error_status(msg) == 409,
{
}

/// What stands behind a percent sign: two hexadecimal digits give the byte with that
/// value, a plus sign counts as no digit at all, and anything else gives none.
pub proof fn law_escape_digits(hi: u8, lo: u8)
    ensures
        hex_value(lo as char) is None ==> escaped_byte(hi, lo) is None,
        hex_value(hi as char) is None && hi != 0x2b ==> escaped_byte(hi, lo) is None,
        hi == 0x2b && hex_value(lo as char) is Some ==> escaped_byte(hi, lo) is Some
            && escaped_byte(hi, lo)->0 == hex_value(lo as char)->0,
        hex_value(hi as char) is Some && hex_value(lo as char) is Some ==> escaped_byte(hi, lo)
            is Some && escaped_byte(hi, lo)->0 == 16 * hex_value(hi as char)->0 + hex_value(
            lo as char,
        )->0,
{
}

} // verus!
