//! The answers of the metrics server.

use crate::config::get_livez;
use crate::config::get_readyz;
use crate::config::State;
use crate::text::appended;
use crate::text::text_equal;
use vstd::prelude::*;

verus! {

/// What is asked for.
#[derive(Copy, Clone, PartialEq, Eq, Debug, Structural)]
pub enum Route {
    Metrics,
    Livez,
    Readyz,
    NotFound,
}

/// Whether an address asks for a path: it is the path, alone or with an empty query.
pub open spec fn asks_for(uri: Seq<char>, path: Seq<char>) -> bool {
    uri == path || uri == path + "?"@
}

/// What is asked for under an address.
pub open spec fn route_of(uri: Seq<char>) -> Route {
    if asks_for(uri, "/metrics"@) {
        Route::Metrics
    } else if asks_for(uri, "/livez"@) || asks_for(uri, "/healthz"@) {
        Route::Livez
    } else if asks_for(uri, "/readyz"@) {
        Route::Readyz
    } else {
        Route::NotFound
    }
}

fn is_path(uri: &str, path: &str) -> (r: bool)
    ensures
        r == asks_for(uri@, path@),
{
    text_equal(uri, path) || text_equal(uri, &appended(path, "?"))
}

/// What is asked for under an address.
pub fn route(uri: &str) -> (r: Route)
    ensures
        r == route_of(uri@),
{
    if is_path(uri, "/metrics") {
        Route::Metrics
    } else if is_path(uri, "/livez") {
        Route::Livez
    } else if is_path(uri, "/healthz") {
        Route::Livez
    } else if is_path(uri, "/readyz") {
        Route::Readyz
    } else {
        Route::NotFound
    }
}

/// A status and a text; the metrics themselves have no fixed text.
pub open spec fn answer_of(r: Route, livez: bool, readyz: bool) -> (u16, Option<Seq<char>>) {
    match r {
        Route::Metrics => (200, None),
        Route::Livez => (
            if livez {
                200
            } else {
                500
            },
            Some("livez"@),
        ),
        Route::Readyz => (
            if readyz {
                200
            } else {
                500
            },
            Some("readyz"@),
        ),
        Route::NotFound => (404, Some("NOT FOUND"@)),
    }
}

/// The status of an answer, and its text unless it is the metrics themselves.
pub fn answer(r: Route, state: &State) -> (a: (u16, Option<&'static str>))
    ensures
        ({
            let (status, body) = answer_of(r, state@.livez, state@.readyz);
            &&& a.0 == status
            &&& match a.1 {
                Some(text) => body == Some(text@),
                None => body is None,
            }
        }),
{
    match r {
        Route::Metrics => (200, None),
        Route::Livez => (
            if get_livez(state) {
                200
            } else {
                500
            },
            Some("livez"),
        ),
        Route::Readyz => (
            if get_readyz(state) {
                200
            } else {
                500
            },
            Some("readyz"),
        ),
        Route::NotFound => (404, Some("NOT FOUND")),
    }
}

/// Under the three names of the server's health and the name of the metrics, each alone or
/// with an empty query, that is what is asked for; anything else is not found.
pub proof fn law_routes(uri: Seq<char>)
    ensures
        route_of(uri) == Route::Metrics <==> uri == "/metrics"@ || uri == "/metrics"@ + "?"@,
        route_of(uri) == Route::Livez <==> uri == "/livez"@ || uri == "/livez"@ + "?"@ || uri
            == "/healthz"@ || uri == "/healthz"@ + "?"@,
        route_of(uri) == Route::Readyz <==> uri == "/readyz"@ || uri == "/readyz"@ + "?"@,
{
    reveal_strlit("/metrics");
    reveal_strlit("/livez");
    reveal_strlit("/healthz");
    reveal_strlit("/readyz");
    reveal_strlit("?");
    if asks_for(uri, "/metrics"@) {
        assert(uri[1] == 'm');
    }
    if asks_for(uri, "/livez"@) {
        assert(uri[1] == 'l');
    }
    if asks_for(uri, "/healthz"@) {
        assert(uri[1] == 'h');
    }
    if asks_for(uri, "/readyz"@) {
        assert(uri[1] == 'r');
    }
}

/// The health of the server is told by the status: 200 where it is well, 500 where it is
/// not, whatever else holds; an unknown address is 404, and the metrics are always there.
pub proof fn law_answers(livez: bool, readyz: bool)
    ensures
        answer_of(Route::Livez, livez, readyz).0 == 200 <==> livez,
        answer_of(Route::Livez, livez, readyz).0 == 500 <==> !livez,
        answer_of(Route::Readyz, livez, readyz).0 == 200 <==> readyz,
        answer_of(Route::Readyz, livez, readyz).0 == 500 <==> !readyz,
        answer_of(Route::Livez, livez, readyz).1 == Some("livez"@),
        answer_of(Route::Readyz, livez, readyz).1 == Some("readyz"@),
        answer_of(Route::NotFound, livez, readyz) == (404u16, Some("NOT FOUND"@)),
        answer_of(Route::Metrics, livez, readyz) == (200u16, None::<Seq<char>>),
{
}

} // verus!
