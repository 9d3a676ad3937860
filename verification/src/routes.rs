//! Which part of the management API answers a request.

use vstd::prelude::*;

use crate::text::{
    chars_of, copy_range, decimal, decimal_text, ends_with, find_char, has_prefix, has_suffix,
    index_of_char, parts, same_text, split, split_on, starts_with, string_of,
};

verus! {

/// Who answers a request.
#[derive(Debug, Clone, Copy, PartialEq, Eq, Structural)]
pub enum RouteAction {
    /// Nobody: the answer is 404.
    Refuse,
    /// The start page of the dashboard.
    Index,
    /// A file of the dashboard.
    Asset,
    /// The API.
    Dispatch,
}

/// A path without its query.
pub open spec fn without_query(path: Seq<char>) -> Seq<char> {
    match index_of_char(path, '?', 0) {
        Some(i) => path.take(i),
        None => path,
    }
}

/// A path without its query.
pub fn path_only(path: &str) -> (r: String)
    ensures
        r@ == without_query(path@),
{
    let chars = chars_of(path);
    match find_char(chars.as_slice(), '?') {
        Some(i) => {
            let head = copy_range(chars.as_slice(), 0, i);
            assert(head@ =~= path@.take(i as int));
            string_of(head.as_slice())
        },
        None => path.to_owned(),
    }
}

/// What stands behind the last dot; all of it if there is no dot.
pub open spec fn ending(path: Seq<char>) -> Seq<char> {
    split_on(path, '.').last()
}

/// The path of a page of the dashboard.
pub open spec fn is_page(path: Seq<char>) -> bool {
    path == "/"@ || path == "/dashboard"@ || path == "/dashboard/"@ || path == "/chat"@ || path
        == "/chat/"@ || has_prefix(path, "/chat/"@)
}

/// The path of a file of the dashboard: one in its directory, or one with the ending
/// of such a file that is not under the API.
pub open spec fn is_asset(path: Seq<char>) -> bool {
    has_prefix(path, "/assets/"@) || (!has_prefix(path, "/api/"@) && (ending(path) == "png"@
        || ending(path) == "ico"@ || ending(path) == "webmanifest"@ || has_suffix(
        path,
        ".json"@,
    )))
}

/// Whether a path is that of a page of the dashboard.
fn page(path: &str) -> (r: bool)
    ensures
        r == is_page(path@),
{
    same_text(path, "/") || same_text(path, "/dashboard") || same_text(path, "/dashboard/")
        || same_text(path, "/chat") || same_text(path, "/chat/") || starts_with(path, "/chat/")
}

/// Whether a path is that of a file of the dashboard.
fn asset(path: &str) -> (r: bool)
    ensures
        r == is_asset(path@),
{
    let pieces = split(chars_of(path).as_slice(), '.');
    let end = string_of(pieces[pieces.len() - 1].as_slice());
    assert(parts(pieces@).last() == end@);
    starts_with(path, "/assets/") || (!starts_with(path, "/api/") && (same_text(
        end.as_str(),
        "png",
    ) || same_text(end.as_str(), "ico") || same_text(end.as_str(), "webmanifest") || ends_with(
        path,
        ".json",
    )))
}

/// Whether a path belongs to the dashboard alone.
pub fn is_ui_only_route(path: &str) -> (r: bool)
    ensures
        r == (is_page(path@) || is_asset(path@)),
{
    page(path) || asset(path)
}

/// Who answers a request.
pub open spec fn route(method: Seq<char>, path: Seq<char>, headless: bool) -> RouteAction {
    if method != "GET"@ {
        RouteAction::Dispatch
    } else if headless && (is_page(path) || is_asset(path)) {
        RouteAction::Refuse
    } else if is_page(path) {
        RouteAction::Index
    } else if is_asset(path) {
        RouteAction::Asset
    } else {
        RouteAction::Dispatch
    }
}

/// Decides who answers a request, by its method and its path without the query.
pub fn route_request(method: &str, path: &str, headless: bool) -> (r: RouteAction)
    ensures
        r == route(method@, path@, headless),
{
    if !same_text(method, "GET") {
        return RouteAction::Dispatch;
    }
    if headless && is_ui_only_route(path) {
        return RouteAction::Refuse;
    }
    if page(path) {
        return RouteAction::Index;
    }
    if asset(path) {
        return RouteAction::Asset;
    }
    RouteAction::Dispatch
}

/// What is refused without a dashboard is just what the dashboard would answer:
/// no other request is answered differently.
pub proof fn law_headless_refuses_the_dashboard_alone(method: Seq<char>, path: Seq<char>)
    ensures
        route(method, path, true) is Refuse <==> (route(method, path, false) is Index || route(
            method,
            path,
            false,
        ) is Asset),
        !(route(method, path, true) is Refuse) ==> route(method, path, true) == route(
            method,
            path,
            false,
        ),
        !(route(method, path, false) is Refuse),
{
}

/// The API stays fully available without a dashboard: a path under `/api/` belongs
/// to no part of the dashboard and is dispatched.
pub proof fn law_api_stays_reachable(method: Seq<char>, path: Seq<char>, headless: bool)
    requires
        has_prefix(path, "/api/"@),
    ensures
        !is_page(path) && !is_asset(path),
        route(method, path, headless) is Dispatch,
{
    reveal_strlit("/api/");
    reveal_strlit("/");
    reveal_strlit("/dashboard");
    reveal_strlit("/dashboard/");
    reveal_strlit("/chat");
    reveal_strlit("/chat/");
    reveal_strlit("/assets/");
    assert("/api/"@[1] == 'a' && "/api/"@[2] == 'p');
    assert(path[1] == "/api/"@[1] && path[2] == "/api/"@[2]);
    assert(path.len() >= 5);
    if path == "/dashboard"@ {
        assert(path[1] == 'd');
    }
    if path == "/dashboard/"@ {
        assert(path[1] == 'd');
    }
    if path == "/chat"@ {
        assert(path[1] == 'c');
    }
    if has_prefix(path, "/chat/"@) {
        assert(path[1] == "/chat/"@[1]);
    }
    if has_prefix(path, "/assets/"@) {
        assert(path[2] == "/assets/"@[2]);
    }
}

/// The address to listen on: of all interfaces, or of this machine alone.
pub open spec fn address(listen_all: bool, port: u16) -> Seq<char> {
    (if listen_all {
        "0.0.0.0"@
    } else {
        "127.0.0.1"@
    }) + ":"@ + decimal(port as nat)
}

/// The address to listen on.
pub fn listen_address(listen_all: bool, port: u16) -> (r: String)
    ensures
        r@ == address(listen_all, port),
{
    let host = if listen_all {
        "0.0.0.0"
    } else {
        "127.0.0.1"
    };
    host.to_owned().concat(":").concat(decimal_text(port as u128).as_str())
}

/// A server-sent event with the given document.
pub fn status_event(json: &str) -> (r: String)
    ensures
        r@ == "data: "@ + json@ + "\n\n"@,
{
    "data: ".to_owned().concat(json).concat("\n\n")
}

/// The query of a path is what follows its first question mark.
pub proof fn law_query_is_cut_off(path: Seq<char>, query: Seq<char>)
    requires
        !path.contains('?'),
    ensures
        without_query(path) == path,
        without_query(path.push('?') + query) == path,
{
    let whole = path.push('?') + query;
    crate::text::law_first_place(path, '?', 0);
    crate::text::law_first_place(whole, '?', 0);
    assert(whole[path.len() as int] == '?');
    match index_of_char(path, '?', 0) {
        Some(i) => {
            assert(path.contains(path[i]));
        },
        None => {},
    }
    match index_of_char(whole, '?', 0) {
        Some(i) => {
            if i < path.len() {
                assert(whole[i] == path[i]);
                assert(path.contains(path[i]));
            }
        },
        None => {},
    }
    assert(whole.take(path.len() as int) =~= path);
}

/// A picture or manifest outside the API is a file of the dashboard wherever it lies,
/// and so is everything in the directory of such files.
pub proof fn law_files_go_by_their_ending(front: Seq<char>, path: Seq<char>)
    ensures
        !has_prefix(front + ".png"@, "/api/"@) ==> is_asset(front + ".png"@),
        !has_prefix(front + ".ico"@, "/api/"@) ==> is_asset(front + ".ico"@),
        !has_prefix(front + ".webmanifest"@, "/api/"@) ==> is_asset(front + ".webmanifest"@),
        !has_prefix(front + ".json"@, "/api/"@) ==> is_asset(front + ".json"@),
        is_asset("/assets/"@ + path),
        route("GET"@, "/chat/"@ + path, false) is Index,
        route("GET"@, "/chat/"@ + path, true) is Refuse,
{
    reveal_strlit(".png");
    reveal_strlit(".ico");
    reveal_strlit(".webmanifest");
    reveal_strlit(".json");
    reveal_strlit("png");
    reveal_strlit("ico");
    reveal_strlit("webmanifest");
    lemma_ending(front, "png"@);
    lemma_ending(front, "ico"@);
    lemma_ending(front, "webmanifest"@);
    assert(front.push('.') + "png"@ =~= front + ".png"@);
    assert(front.push('.') + "ico"@ =~= front + ".ico"@);
    assert(front.push('.') + "webmanifest"@ =~= front + ".webmanifest"@);
    let json = front + ".json"@;
    assert(json.skip(json.len() - ".json"@.len()) =~= ".json"@);
    let file = "/assets/"@ + path;
    assert(file.take("/assets/"@.len() as int) =~= "/assets/"@);
    let chat = "/chat/"@ + path;
    assert(chat.take("/chat/"@.len() as int) =~= "/chat/"@);
}

proof fn lemma_ending(front: Seq<char>, end: Seq<char>)
    requires
        forall|i: int| 0 <= i < end.len() ==> #[trigger] end[i] != '.',
    ensures
        ending(front.push('.') + end) == end,
    decreases end.len(),
{
    let whole = front.push('.') + end;
    if end.len() == 0 {
        assert(whole =~= front.push('.'));
        assert(whole.last() == '.');
        assert(end =~= Seq::empty());
    } else {
        let head = end.drop_last();
        assert forall|i: int| 0 <= i < head.len() implies #[trigger] head[i] != '.' by {
            assert(head[i] == end[i]);
        }
        lemma_ending(front, head);
        assert(whole.drop_last() =~= front.push('.') + head);
        assert(whole.last() == end[end.len() - 1]);
        assert(head.push(end.last()) =~= end);
    }
}

/// Only reading is answered by the dashboard: every other method goes to the API.
pub proof fn law_other_methods_go_to_the_api(method: Seq<char>, path: Seq<char>, headless: bool)
    requires
        method != "GET"@,
    ensures
        route(method, path, headless) is Dispatch,
        route("GET"@, "/"@, false) is Index,
        route("GET"@, "/dashboard"@, false) is Index,
        route("GET"@, "/chat"@, false) is Index,
{
}

/// Other machines are listened to only if that was asked for, and always on the given
/// port.
pub proof fn law_listening_is_local_unless_asked(port: u16)
    ensures
        has_prefix(address(false, port), "127.0.0.1:"@),
        has_prefix(address(true, port), "0.0.0.0:"@),
        has_suffix(address(false, port), ":"@ + decimal(port as nat)),
        has_suffix(address(true, port), ":"@ + decimal(port as nat)),
{
    reveal_strlit("127.0.0.1");
    reveal_strlit("127.0.0.1:");
    reveal_strlit("0.0.0.0");
    reveal_strlit("0.0.0.0:");
    reveal_strlit(":");
    let (a, b) = (address(false, port), address(true, port));
    assert(a.take("127.0.0.1:"@.len() as int) =~= "127.0.0.1:"@);
    assert(b.take("0.0.0.0:"@.len() as int) =~= "0.0.0.0:"@);
    let end = ":"@ + decimal(port as nat);
    assert(a.skip(a.len() - end.len()) =~= end);
    assert(b.skip(b.len() - end.len()) =~= end);
}

} // verus!
