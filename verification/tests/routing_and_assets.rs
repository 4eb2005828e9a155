use kvcounter::assets::{asset_name, AssetError};
use kvcounter::get_static_asset;
use kvcounter::handler::{
    BUCKET, COUNTER_BODY, DEFAULT_COUNTER, NOT_FOUND_PAGE, NOT_IMPLEMENTED_PAGE,
};
use kvcounter::routing::{route, Method, Route};
use kvcounter::KvCounter;

fn asset(path: &str) -> Route {
    Route::Asset(path.to_string())
}

#[test]
fn routes_the_default_counter() {
    assert_eq!(route(&Method::Get, "/api/counter"), Route::DefaultCounter);
    assert_eq!(route(&Method::Get, "/api/counter/"), Route::DefaultCounter);
    assert_eq!(route(&Method::Get, "//api/counter//"), Route::DefaultCounter);
    assert_eq!(route(&Method::Get, "api/counter"), Route::DefaultCounter);
}

#[test]
fn routes_named_counters() {
    assert_eq!(
        route(&Method::Get, "/api/counter/visits"),
        Route::NamedCounter("visits".to_string())
    );
    assert_eq!(
        route(&Method::Get, "/api/counter/ünï/"),
        Route::NamedCounter("ünï".to_string())
    );
}

#[test]
fn routes_other_gets_to_assets() {
    assert_eq!(route(&Method::Get, "/"), asset(""));
    assert_eq!(route(&Method::Get, ""), asset(""));
    assert_eq!(route(&Method::Get, "/index.html"), asset("index.html"));
    assert_eq!(route(&Method::Get, "/static/app.js/"), asset("static/app.js"));
    assert_eq!(route(&Method::Get, "/api/counter/a/b"), asset("api/counter/a/b"));
    assert_eq!(route(&Method::Get, "/api//counter"), asset("api//counter"));
    assert_eq!(route(&Method::Get, "/api/counter//x"), asset("api/counter//x"));
    assert_eq!(route(&Method::Get, "/API/counter"), asset("API/counter"));
    assert_eq!(route(&Method::Get, "/api"), asset("api"));
}

#[test]
fn routes_other_methods_nowhere() {
    assert_eq!(route(&Method::Post, "/api/counter"), Route::NotFound);
    assert_eq!(route(&Method::Put, "/index.html"), Route::NotFound);
    assert_eq!(route(&Method::Other("PURGE".to_string()), "/"), Route::NotFound);
}

#[test]
fn outer_slashes_do_not_change_the_route() {
    for p in ["api/counter", "api/counter/x", "a/b", "", "x"] {
        let plain = route(&Method::Get, p);
        assert_eq!(route(&Method::Get, &format!("/{}", p)), plain);
        assert_eq!(route(&Method::Get, &format!("{}/", p)), plain);
    }
}

#[test]
fn handles_counter_requests() {
    let h = KvCounter::handle(&Method::Get, "/api/counter");
    assert_eq!(h.route, Route::DefaultCounter);
    assert_eq!(h.increment, Some(DEFAULT_COUNTER.to_string()));
    assert_eq!(h.asset, None);
    assert_eq!(h.body, "0");
    assert_eq!(BUCKET, "default");
    assert_eq!(DEFAULT_COUNTER, "default");

    let h = KvCounter::handle(&Method::Get, "/api/counter/hits");
    assert_eq!(h.increment, Some("hits".to_string()));
    assert_eq!(h.body, COUNTER_BODY);
}

#[test]
fn handles_asset_and_other_requests() {
    let h = KvCounter::handle(&Method::Get, "/app.js");
    assert_eq!(h.increment, None);
    assert_eq!(h.asset, Some("app.js".to_string()));
    assert_eq!(h.body, NOT_IMPLEMENTED_PAGE);
    assert!(h.body.contains("<h1>Not Implemented</h1>"));

    let h = KvCounter::handle(&Method::Delete, "/api/counter");
    assert_eq!(h.route, Route::NotFound);
    assert_eq!(h.increment, None);
    assert_eq!(h.asset, None);
    assert_eq!(h.body, NOT_FOUND_PAGE);
    assert!(h.body.contains("<h1>404 - Page not found</h1>"));
}

#[test]
fn names_the_asset_to_look_up() {
    assert_eq!(asset_name("/"), "index.html");
    assert_eq!(asset_name(""), "index.html");
    assert_eq!(asset_name("  / \n"), "index.html");
    assert_eq!(asset_name("\t"), "index.html");
    assert_eq!(asset_name("/app.js"), "app.js");
    assert_eq!(asset_name("///app.js"), "app.js");
    assert_eq!(asset_name(" /css/site.css "), "css/site.css");
    assert_eq!(asset_name("app.js"), "app.js");
    assert_eq!(asset_name("//"), "");
    assert_eq!(asset_name("/ a"), " a");
}

fn store(name: &str) -> Option<Vec<u8>> {
    match name {
        "index.html" => Some(b"<html></html>".to_vec()),
        "app.js" => Some(b"main()".to_vec()),
        _ => None,
    }
}

#[test]
fn serves_static_assets() {
    assert_eq!(get_static_asset("/", store), Ok(b"<html></html>".to_vec()));
    assert_eq!(get_static_asset(" ", store), Ok(b"<html></html>".to_vec()));
    assert_eq!(get_static_asset("/app.js", store), Ok(b"main()".to_vec()));
    assert_eq!(get_static_asset("app.js", store), Ok(b"main()".to_vec()));
    assert_eq!(get_static_asset("/missing.css", store), Err(AssetError::NotFound));
    assert_eq!(get_static_asset("//", store), Err(AssetError::NotFound));
}

#[test]
fn retrieves_assets_for_the_handler() {
    assert_eq!(KvCounter::get_asset("app.js", store), Some(b"main()".to_vec()));
    assert_eq!(KvCounter::get_asset("", store), Some(b"<html></html>".to_vec()));
    assert_eq!(KvCounter::get_asset("nope", store), None);
}
