use fire_ssr::fetch::{
    answer_or_not_found, fetch_method, fetch_target, local_response, local_target,
    remote_response, remote_target, stays_local, FetchError, FetchRequest, FetchTarget, NOT_FOUND,
};
use fire_ssr::headers::HeaderTable;
use reqwest::header::{HeaderMap, HeaderName, HeaderValue};

fn request(url: &str, method: &str) -> FetchRequest {
    let mut headers = HeaderTable::new();
    headers.insert("Accept".to_string(), "*/*".to_string());
    FetchRequest { url: url.to_string(), method: method.to_string(), headers, body: "b".to_string() }
}

#[test]
fn methods_are_written_in_any_case() {
    assert_eq!(fetch_method("get"), "GET");
    assert_eq!(fetch_method("Post"), "POST");
    assert_eq!(fetch_method("delete"), "DELETE");
    assert_eq!(fetch_method("purge-all"), "PURGE-ALL");
    // the sharp s has no capital letter of its own
    assert_eq!(fetch_method("gru\u{df}"), "GRUSS");
}

#[test]
fn what_is_no_method_is_get() {
    assert_eq!(fetch_method(""), "GET");
    assert_eq!(fetch_method("not a method"), "GET");
    assert_eq!(fetch_method("h\u{e4}nde"), "GET");
    assert_eq!(fetch_method("a/b"), "GET");
    assert_eq!(fetch_method("a#b"), "GET");
}

#[test]
fn a_leading_slash_keeps_a_fetch_local() {
    assert!(stays_local("/"));
    assert!(stays_local("//example.com/x"));
    assert!(!stays_local(""));
    assert!(!stays_local("https://example.com/"));
    assert!(!stays_local("x/"));
}

#[test]
fn a_local_fetch_goes_to_the_router() {
    match fetch_target("/api?x=1") {
        Ok(FetchTarget::Local(uri)) => assert_eq!(uri, "/api?x=1"),
        _ => panic!("not local"),
    }
}

#[test]
fn a_fragment_stays_behind() {
    match fetch_target("/api#top") {
        Ok(FetchTarget::Local(uri)) => assert_eq!(uri, "/api"),
        _ => panic!("not local"),
    }
}

#[test]
fn a_remote_fetch_goes_to_its_url() {
    match fetch_target("HTTPS://Example.com") {
        Ok(FetchTarget::Remote(url)) => assert_eq!(url, "https://example.com/"),
        _ => panic!("not remote"),
    }
}

#[test]
fn a_bad_uri_is_refused() {
    match fetch_target("/a b") {
        Err(FetchError::InvalidUri(message)) => assert_eq!(message, "invalid uri character"),
        _ => panic!("not refused"),
    }
}

#[test]
fn a_relative_url_is_refused() {
    match fetch_target("relative") {
        Err(FetchError::InvalidUrl(message)) => {
            assert_eq!(message, "relative URL without a base")
        }
        _ => panic!("not refused"),
    }
}

#[test]
fn targets_follow_from_what_was_parsed() {
    assert!(matches!(remote_target(Ok("u".to_string())), Ok(FetchTarget::Remote(u)) if u == "u"));
    assert!(matches!(local_target(Ok("u".to_string())), Ok(FetchTarget::Local(u)) if u == "u"));
    assert!(matches!(
        remote_target(Err("m".to_string())),
        Err(FetchError::InvalidUrl(m)) if m == "m"
    ));
    assert!(matches!(
        local_target(Err("m".to_string())),
        Err(FetchError::InvalidUri(m)) if m == "m"
    ));
}

#[test]
fn a_plan_holds_all_that_is_sent() {
    let plan = match request("/x", "post").plan() {
        Ok(plan) => plan,
        Err(_) => panic!("refused"),
    };
    assert_eq!(plan.method, "POST");
    assert_eq!(plan.body, "b");
    assert_eq!(plan.headers.len(), 1);
    assert_eq!(plan.headers.get("accept").unwrap(), "*/*");
    assert!(matches!(plan.target, FetchTarget::Local(uri) if uri == "/x"));
}

#[test]
fn a_plan_is_refused_with_its_target() {
    assert!(matches!(request("nowhere", "get").plan(), Err(FetchError::InvalidUrl(_))));
    assert!(matches!(request("/ ", "get").plan(), Err(FetchError::InvalidUri(_))));
}

#[test]
fn far_too_many_headers_are_refused() {
    let mut headers = HeaderTable::new();
    for n in 0..24577 {
        headers.insert(format!("x-{}", n), "v".to_string());
    }
    let req = FetchRequest {
        url: "/".to_string(),
        method: "get".to_string(),
        headers,
        body: String::new(),
    };
    assert!(matches!(req.plan(), Err(FetchError::TooManyHeaders)));
}

#[test]
fn what_no_route_takes_is_not_found() {
    assert_eq!(NOT_FOUND, 404);
    assert_eq!(answer_or_not_found::<u8, &str>(None, 4), Ok(4));
    assert_eq!(answer_or_not_found::<u8, &str>(Some(None), 4), Ok(4));
    assert_eq!(answer_or_not_found::<u8, &str>(Some(Some(Ok(1))), 4), Ok(1));
    assert_eq!(answer_or_not_found::<u8, &str>(Some(Some(Err("bad"))), 4), Err("bad"));
}

fn response_headers() -> HeaderMap {
    let mut map = HeaderMap::new();
    map.insert(HeaderName::from_static("content-type"), HeaderValue::from_static("wrong"));
    map.insert(HeaderName::from_static("etag"), HeaderValue::from_static("7"));
    map
}

fn get(table: &HeaderTable, name: &str) -> Option<String> {
    table.get(&name.to_string()).cloned()
}

#[test]
fn a_remote_response_is_read() {
    let resp = remote_response(201, &response_headers(), "text".to_string());
    assert_eq!(resp.status, 201);
    assert_eq!(resp.body, "text");
    assert_eq!(resp.headers.len(), 2);
    assert_eq!(get(&resp.headers, "etag"), Some("7".to_string()));
    assert_eq!(get(&resp.headers, "content-type"), Some("wrong".to_string()));
}

#[test]
fn a_local_response_has_its_own_content_type() {
    let resp = local_response(200, &response_headers(), "text/html".to_string(), None);
    assert_eq!(resp.status, 200);
    assert_eq!(resp.body, "");
    assert_eq!(get(&resp.headers, "content-type"), Some("text/html".to_string()));
    let bare = local_response(404, &HeaderMap::new(), String::new(), Some("x".to_string()));
    assert_eq!(bare.body, "x");
    assert_eq!(bare.headers.len(), 1);
    assert_eq!(get(&bare.headers, "content-type"), Some(String::new()));
}
