//! Which requests the relay takes, and which room they lead to.

use vstd::prelude::*;
use vstd::string::*;

use crate::text::{chars_of, same_text};

verus! {

/// What is done with an incoming request.
#[derive(Debug)]
pub enum Route {
    /// Say that the relay is up.
    Healthy,
    /// Hand the request to the room of this name.
    Room(String),
    /// Refuse it: it has to ask for a WebSocket.
    ExpectedUpgrade,
    /// Refuse it: there is nothing under its path.
    NotFound,
}

/// `Route` over sequences.
#[verifier::ext_equal]
pub enum RouteView {
    Healthy,
    Room(Seq<char>),
    ExpectedUpgrade,
    NotFound,
}

impl View for Route {
    type V = RouteView;

    open spec fn view(&self) -> RouteView {
        match self {
            Route::Healthy => RouteView::Healthy,
            Route::Room(name) => RouteView::Room(name@),
            Route::ExpectedUpgrade => RouteView::ExpectedUpgrade,
            Route::NotFound => RouteView::NotFound,
        }
    }
}

impl Route {
    /// The HTTP status of a request that is not handed on.
    pub fn status(&self) -> (r: Option<u16>)
        ensures
            r == (match self {
                Route::Healthy => Some(200u16),
                Route::Room(_) => None,
                Route::ExpectedUpgrade => Some(400u16),
                Route::NotFound => Some(404u16),
            }),
    {
        match self {
            Route::Healthy => Some(200),
            Route::Room(_) => None,
            Route::ExpectedUpgrade => Some(400),
            Route::NotFound => Some(404),
        }
    }
}

/// A text without the slashes that it starts with.
pub open spec fn without_slashes(s: Seq<char>) -> Seq<char>
    decreases s.len(),
{
    if s.len() > 0 && s[0] == '/' {
        without_slashes(s.skip(1))
    } else {
        s
    }
}

/// The path of the WebSocket endpoint: one slash, then what is configured, or `ws`.
pub open spec fn ws_path_of(configured: Option<Seq<char>>) -> Seq<char> {
    "/"@ + without_slashes(
        match configured {
            Some(p) => p,
            None => "ws"@,
        },
    )
}

/// Whether `i` is the place of the first parameter of this name.
pub open spec fn is_first_named(query: Seq<(String, String)>, name: Seq<char>, i: int) -> bool {
    &&& 0 <= i < query.len()
    &&& query[i].0@ == name
    &&& forall|j: int| 0 <= j < i ==> (#[trigger] query[j]).0@ != name
}

/// Whether a query names the room `room`: by its first parameter `room`, or by having none.
pub open spec fn names_room(query: Seq<(String, String)>, room: Seq<char>) -> bool {
    ||| exists|i: int| #[trigger] is_first_named(query, "room"@, i) && query[i].1@ == room
    ||| (forall|i: int| !(#[trigger] is_first_named(query, "room"@, i))) && room == "default"@
}

/// Whether `route` is what is done with a request.
pub open spec fn routes_to(
    path: Seq<char>,
    configured: Option<Seq<char>>,
    upgrade: Option<Seq<char>>,
    query: Seq<(String, String)>,
    route: RouteView,
) -> bool {
    let ws_path = ws_path_of(configured);
    if path == "/healthz"@ {
        route == RouteView::Healthy
    } else if path != ws_path && path != ws_path + "/"@ {
        route == RouteView::NotFound
    } else if upgrade != Some("websocket"@) {
        route == RouteView::ExpectedUpgrade
    } else {
        route matches RouteView::Room(room) && names_room(query, room)
    }
}

/// The characters of a string, if there is one.
pub open spec fn str_of(s: Option<&str>) -> Option<Seq<char>> {
    match s {
        Some(t) => Some(t@),
        None => None,
    }
}

fn trim_slashes(s: &str) -> (r: String)
    ensures
        r@ == without_slashes(s@),
{
    let text = chars_of(s);
    let mut i: usize = 0;
    assert(s@.skip(0) =~= s@);
    while i < text.len() && text[i] == '/'
        invariant
            i <= text@.len(),
            text@ == s@,
            without_slashes(s@) == without_slashes(s@.skip(i as int)),
        decreases text@.len() - i,
    {
        assert(s@.skip(i as int).skip(1) =~= s@.skip(i + 1));
        i = i + 1;
    }
    let n: usize = text.len();
    assert(s@.subrange(i as int, n as int) =~= s@.skip(i as int));
    s.substring_char(i, n).to_owned()
}

/// The path of the WebSocket endpoint.
pub fn ws_path(configured: Option<&str>) -> (r: String)
    ensures
        r@ == ws_path_of(str_of(configured)),
{
    let name = match configured {
        Some(p) => trim_slashes(p),
        None => trim_slashes("ws"),
    };
    let mut r = "/".to_owned();
    r.append(name.as_str());
    r
}

/// The room that a query names.
pub fn room_of(query: &Vec<(String, String)>) -> (r: String)
    ensures
        names_room(query@, r@),
{
    let mut i: usize = 0;
    while i < query.len()
        invariant
            i <= query@.len(),
            forall|j: int| 0 <= j < i ==> (#[trigger] query@[j]).0@ != "room"@,
        decreases query@.len() - i,
    {
        if same_text(query[i].0.as_str(), "room") {
            assert(is_first_named(query@, "room"@, i as int));
            return query[i].1.clone();
        }
        i = i + 1;
    }
    assert forall|k: int| !(#[trigger] is_first_named(query@, "room"@, k)) by {
        if 0 <= k < query@.len() {
            assert(query@[k].0@ != "room"@);
        }
    }
    "default".to_string()
}

/// Whether an `Upgrade` header asks for a WebSocket.
pub fn asks_for_websocket(upgrade: Option<&str>) -> (r: bool)
    ensures
        r == (str_of(upgrade) == Some("websocket"@)),
{
    match upgrade {
        Some(u) => same_text(u, "websocket"),
        None => false,
    }
}

/// What is done with a request: its path, the configured endpoint, its `Upgrade` header and the
/// parameters of its query decide.
pub fn route(
    path: &str,
    configured: Option<&str>,
    upgrade: Option<&str>,
    query: &Vec<(String, String)>,
) -> (r: Route)
    ensures
        routes_to(path@, str_of(configured), str_of(upgrade), query@, r@),
{
    if same_text(path, "/healthz") {
        return Route::Healthy;
    }
    let ws_path = ws_path(configured);
    let mut with_slash = ws_path.clone();
    with_slash.append("/");
    if !same_text(path, ws_path.as_str()) && !same_text(path, with_slash.as_str()) {
        return Route::NotFound;
    }
    if !asks_for_websocket(upgrade) {
        return Route::ExpectedUpgrade;
    }
    Route::Room(room_of(query))
}

/// Every query names exactly one room.
pub proof fn queries_name_one_room(query: Seq<(String, String)>, a: Seq<char>, b: Seq<char>)
    requires
        names_room(query, a),
        names_room(query, b),
    ensures
        a == b,
{
    if exists|i: int| is_first_named(query, "room"@, i) {
        let i = choose|i: int| #[trigger] is_first_named(query, "room"@, i) && query[i].1@ == a;
        let j = choose|j: int| #[trigger] is_first_named(query, "room"@, j) && query[j].1@ == b;
        assert(is_first_named(query, "room"@, i));
        assert(is_first_named(query, "room"@, j));
        assert(query[i].0@ == "room"@ && query[j].0@ == "room"@);
        assert(i == j);
    }
}

/// The endpoint starts with exactly one slash, however many are configured.
pub proof fn endpoint_has_one_leading_slash(configured: Seq<char>)
    ensures
        ws_path_of(Some(seq!['/'] + configured)) == ws_path_of(Some(configured)),
        without_slashes(configured).len() > 0 ==> without_slashes(configured)[0] != '/',
    decreases configured.len(),
{
    assert((seq!['/'] + configured).skip(1) =~= configured);
    if configured.len() > 0 && configured[0] == '/' {
        endpoint_has_one_leading_slash(configured.skip(1));
    }
}

} // verus!
