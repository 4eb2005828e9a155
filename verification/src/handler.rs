//! The request handler: what each request does to the counters and what it
//! is answered, and the counter update itself.

use vstd::prelude::*;
use crate::assets::{AssetError, asset_name_spec, get_static_asset};
use crate::counter::{CounterError, increment_spec, parse_counter, counter_bytes};
use crate::routing::{
    Method, Route, RouteView, route, route_spec, default_counter_path, has_no_slash,
    lemma_route_by_trimmed_path,
};
use crate::text::{Pattern, trim_spec};

verus! {

/// The key-value bucket that holds the counters.
pub const BUCKET: &'static str = "default";

/// The key of the counter that `GET /api/counter` increments.
pub const DEFAULT_COUNTER: &'static str = "default";

/// The body of the answer to a counter request.
pub const COUNTER_BODY: &'static str = "0";

/// The page answered to a `GET` for a static asset.
pub const NOT_IMPLEMENTED_PAGE: &'static str = r#"
<!DOCTYPE html>
<html>
  <head><title>Example Page</title></head>
  <body>
  <h1>Not Implemented</h1>
  </body>
</html>
"#;

/// The page answered to a request with a method other than `GET`.
pub const NOT_FOUND_PAGE: &'static str = r#"
<!DOCTYPE html>
<html>
  <head><title>Not Found</title></head>
  <body>
  <h1>404 - Page not found</h1>
  </body>
</html>
"#;

/// The handler of the counter component.
pub struct KvCounter;

/// What handling one request takes: the counter to increment by one in
/// [`BUCKET`], the asset to look up, and the body of the answer.
pub struct Handling {
    /// Where the request goes.
    pub route: Route,
    /// The key of the counter in [`BUCKET`] that goes up by one.
    pub increment: Option<String>,
    /// The path of the static asset to retrieve.
    pub asset: Option<String>,
    /// The body of the answer.
    pub body: &'static str,
}

/// The text of an optional string.
pub open spec fn opt_text(o: Option<String>) -> Option<Seq<char>> {
    match o {
        Some(s) => Some(s@),
        None => None,
    }
}

/// The counter that a request on `r` increments.
pub open spec fn counter_key_spec(r: RouteView) -> Option<Seq<char>> {
    match r {
        RouteView::DefaultCounter => Some(DEFAULT_COUNTER@),
        RouteView::NamedCounter(name) => Some(name),
        _ => None,
    }
}

/// The asset that a request on `r` retrieves.
pub open spec fn asset_path_spec(r: RouteView) -> Option<Seq<char>> {
    match r {
        RouteView::Asset(path) => Some(path),
        _ => None,
    }
}

/// The body of the answer to a request on `r`.
pub open spec fn body_spec(r: RouteView) -> Seq<char> {
    match r {
        RouteView::DefaultCounter => COUNTER_BODY@,
        RouteView::NamedCounter(_) => COUNTER_BODY@,
        RouteView::Asset(_) => NOT_IMPLEMENTED_PAGE@,
        RouteView::NotFound => NOT_FOUND_PAGE@,
    }
}

/// What each request does, told by its method and its path with the outer
/// slashes trimmed (`t`): a `GET` of `api/counter` increments the counter
/// `default` and is answered `0`; a `GET` of `api/counter/<name>`, with no
/// slash in `<name>`, increments the counter `<name>` and is answered `0`;
/// every other `GET` retrieves the asset at `t` and is answered the "Not
/// Implemented" page; and a request with any other method touches nothing
/// and is answered the "404" page, which no `GET` is ever answered.
pub proof fn lemma_handling(is_get: bool, path: Seq<char>, name: Seq<char>)
    ensures
        ({
            let t = trim_spec(path, Pattern::Slash);
            let r = route_spec(is_get, path);
            &&& !is_get ==> counter_key_spec(r) is None && asset_path_spec(r) is None
            &&& (body_spec(r) == NOT_FOUND_PAGE@ <==> !is_get)
            &&& is_get && t == default_counter_path() ==> counter_key_spec(r) == Some(
                "default"@,
            ) && asset_path_spec(r) is None && body_spec(r) == "0"@
            &&& is_get && t == default_counter_path() + seq!['/'] + name && has_no_slash(name)
                ==> counter_key_spec(r) == Some(name) && asset_path_spec(r) is None && body_spec(r)
                == "0"@
            &&& is_get && !(r is DefaultCounter || r is NamedCounter) ==> counter_key_spec(r) is None
                && asset_path_spec(r) == Some(t) && body_spec(r) == NOT_IMPLEMENTED_PAGE@
        }),
{
    lemma_route_by_trimmed_path(is_get, path, name);
    reveal_strlit(r#"
<!DOCTYPE html>
<html>
  <head><title>Not Found</title></head>
  <body>
  <h1>404 - Page not found</h1>
  </body>
</html>
"#);
    reveal_strlit(r#"
<!DOCTYPE html>
<html>
  <head><title>Example Page</title></head>
  <body>
  <h1>Not Implemented</h1>
  </body>
</html>
"#);
    reveal_strlit("0");
    reveal_strlit("default");
    assert(NOT_FOUND_PAGE@ != NOT_IMPLEMENTED_PAGE@) by {
        assert(NOT_FOUND_PAGE@[39] != NOT_IMPLEMENTED_PAGE@[39]);
    }
    assert(NOT_FOUND_PAGE@ != "0"@) by {
        assert(NOT_FOUND_PAGE@.len() != "0"@.len());
    }
}

impl KvCounter {
    /// Increments (possibly negatively) a counter: from the bytes that the
    /// store holds for it, the bytes to store in their place.
    pub fn increment_counter(stored: &[u8], amount: i32) -> (r: Result<Vec<u8>, CounterError>)
        ensures
            match r {
                Ok(bytes) => increment_spec(stored@, amount) == Ok::<Seq<u8>, CounterError>(
                    bytes@,
                ),
                Err(e) => increment_spec(stored@, amount) == Err::<Seq<u8>, CounterError>(e),
            },
    {
        match parse_counter(stored) {
            Err(e) => Err(e),
            Ok(value) => match value.checked_add(amount) {
                Some(next) => Ok(counter_bytes(next)),
                None => Err(CounterError::Overflow),
            },
        }
    }

    /// Retrieves a static asset: what `lookup` finds under the file name that
    /// `path` names (see [`get_static_asset`]).
    pub fn get_asset<F: Fn(&str) -> Option<Vec<u8>>>(path: &str, lookup: F) -> (r: Option<
        Vec<u8>,
    >)
        requires
            forall|name: &str| #[trigger] call_requires(lookup, (name,)),
        ensures
            exists|name: &str, found: Option<Vec<u8>>|
                {
                    &&& name@ == asset_name_spec(path@)
                    &&& #[trigger] call_ensures(lookup, (name,), found)
                    &&& r == found
                },
    {
        match get_static_asset(path, lookup) {
            Ok(data) => Some(data),
            Err(AssetError::NotFound) => None,
        }
    }

    /// Decides what a request with `method` and `path` does: `GET
    /// /api/counter` and `GET /api/counter/<name>` increment a counter and
    /// are answered `0`, any other `GET` retrieves a static asset and is
    /// answered a "Not Implemented" page, and any other method is answered a
    /// "404" page.
    pub fn handle(method: &Method, path: &str) -> (h: Handling)
        ensures
            h.route@ == route_spec(*method is Get, path@),
            opt_text(h.increment) == counter_key_spec(h.route@),
            opt_text(h.asset) == asset_path_spec(h.route@),
            h.body@ == body_spec(h.route@),
    {
        let r = route(method, path);
        match r {
            Route::DefaultCounter => Handling {
                route: Route::DefaultCounter,
                increment: Some(String::from_str(DEFAULT_COUNTER)),
                asset: None,
                body: COUNTER_BODY,
            },
            Route::NamedCounter(name) => {
                let key = name.clone();
                Handling {
                    route: Route::NamedCounter(name),
                    increment: Some(key),
                    asset: None,
                    body: COUNTER_BODY,
                }
            },
            Route::Asset(path) => {
                let asset = path.clone();
                Handling {
                    route: Route::Asset(path),
                    increment: None,
                    asset: Some(asset),
                    body: NOT_IMPLEMENTED_PAGE,
                }
            },
            Route::NotFound => Handling {
                route: Route::NotFound,
                increment: None,
                asset: None,
                body: NOT_FOUND_PAGE,
            },
        }
    }
}

} // verus!
