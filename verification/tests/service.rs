use steno_lookup::service::{
    base_url, handle_lookup, handle_not_found, handle_request, route, Status, Target,
};
use steno_lookup::{Dictionary, IndexSet, Stroke, Translation};

const BASE: &str = "https://127.0.0.1:25040";

fn two_dictionaries() -> IndexSet {
    let first = Dictionary::from_pairs(vec![(
        Stroke::new("TEF".to_string()),
        Translation::new("test".to_string()),
    )]);
    let second = Dictionary::from_pairs(vec![
        (Stroke::new("TEFT".to_string()), Translation::new("test".to_string())),
        (Stroke::new("H-L".to_string()), Translation::new("hello world".to_string())),
    ]);
    IndexSet::from_results(vec![Ok(first.invert()), Ok(second.invert())]).unwrap()
}

fn pair(name: &str, value: &str) -> (String, String) {
    (name.to_string(), value.to_string())
}

#[test]
fn base_url_puts_the_scheme_before_the_address() {
    assert_eq!(base_url("127.0.0.1:25040"), BASE);
    assert_eq!(base_url(""), "https://");
}

#[test]
fn lookup_without_a_term_is_a_bad_request() {
    let set = two_dictionaries();
    let response = handle_request(&set, BASE, true, "/lookup");
    assert_eq!(response.status, Status::BadRequest);
    assert_eq!(response.body, "Bad Request");
    let response = handle_request(&set, BASE, true, "/lookup?term=test");
    assert_eq!(response.status, Status::BadRequest);
    assert_eq!(response.body, "Bad Request");
    let response = handle_request(&set, BASE, true, "/lookup?Q=test");
    assert_eq!(response.status, Status::BadRequest);
}

#[test]
fn lookup_answers_with_the_strokes_in_order() {
    let set = two_dictionaries();
    let response = handle_request(&set, BASE, true, "/lookup?q=test");
    assert_eq!(response.status, Status::Success);
    assert_eq!(response.body, r#"[Stroke("TEF"), Stroke("TEFT")]"#);
}

#[test]
fn lookup_of_an_unknown_term_answers_with_an_empty_list() {
    let set = two_dictionaries();
    let response = handle_request(&set, BASE, true, "/lookup?q=nonexistent");
    assert_eq!(response.status, Status::Success);
    assert_eq!(response.body, "[]");
    let response = handle_request(&set, BASE, true, "/lookup?q=");
    assert_eq!(response.status, Status::Success);
    assert_eq!(response.body, "[]");
}

#[test]
fn the_term_is_decoded() {
    let set = two_dictionaries();
    let response = handle_request(&set, BASE, true, "/lookup?q=hello%20world");
    assert_eq!(response.body, r#"[Stroke("H-L")]"#);
    let response = handle_request(&set, BASE, true, "/lookup?q=hello+world");
    assert_eq!(response.body, r#"[Stroke("H-L")]"#);
}

#[test]
fn the_first_term_of_a_query_counts() {
    let set = two_dictionaries();
    let response = handle_request(&set, BASE, true, "/lookup?q=test&q=nonexistent");
    assert_eq!(response.body, r#"[Stroke("TEF"), Stroke("TEFT")]"#);
    let response = handle_request(&set, BASE, true, "/lookup?x=1&q=nonexistent&q=test");
    assert_eq!(response.body, "[]");
}

#[test]
fn the_root_names_the_service() {
    let set = two_dictionaries();
    let response = handle_request(&set, BASE, true, "/");
    assert_eq!(response.status, Status::Success);
    assert_eq!(response.body, "steno-lookup");
    let response = handle_request(&set, BASE, true, "/?q=test");
    assert_eq!(response.body, "steno-lookup");
}

#[test]
fn anything_else_is_not_found() {
    let set = two_dictionaries();
    for target in ["/other", "/lookup/", "/Lookup?q=test", "/lookup/x?q=test"] {
        let response = handle_request(&set, BASE, true, target);
        assert_eq!(response.status, Status::NotFound);
        assert_eq!(response.body, "Not Found");
    }
    let response = handle_request(&set, BASE, false, "/lookup?q=test");
    assert_eq!(response.status, Status::NotFound);
    let response = handle_request(&set, BASE, false, "/");
    assert_eq!(response.body, "Not Found");
    let response = handle_not_found();
    assert_eq!((response.status, response.body.as_str()), (Status::NotFound, "Not Found"));
}

#[test]
fn a_target_that_cannot_be_resolved_is_a_bad_request() {
    let set = two_dictionaries();
    let response = handle_request(&set, BASE, true, "//[");
    assert_eq!(response.status, Status::BadRequest);
    assert_eq!(response.body, "Bad Request");
    let response = handle_request(&set, "no base", true, "/lookup?q=test");
    assert_eq!(response.status, Status::BadRequest);
    let response = route(&set, true, None);
    assert_eq!((response.status, response.body.as_str()), (Status::BadRequest, "Bad Request"));
}

#[test]
fn route_decides_by_method_and_path() {
    let set = two_dictionaries();
    let target = |path: &str, query: Vec<(String, String)>| {
        Some(Target { path: path.to_string(), query })
    };
    let response = route(&set, true, target("/lookup", vec![pair("q", "test")]));
    assert_eq!(response.status, Status::Success);
    assert_eq!(response.body, r#"[Stroke("TEF"), Stroke("TEFT")]"#);
    let response = route(&set, true, target("/lookup", vec![]));
    assert_eq!((response.status, response.body.as_str()), (Status::BadRequest, "Bad Request"));
    let response = route(&set, true, target("/", vec![pair("q", "test")]));
    assert_eq!((response.status, response.body.as_str()), (Status::Success, "steno-lookup"));
    let response = route(&set, true, target("", vec![]));
    assert_eq!((response.status, response.body.as_str()), (Status::NotFound, "Not Found"));
    let response = route(&set, false, target("/", vec![]));
    assert_eq!(response.status, Status::NotFound);
}

#[test]
fn handle_lookup_takes_the_first_pair_named_q() {
    let set = two_dictionaries();
    let response =
        handle_lookup(&set, &vec![pair("a", "test"), pair("q", "hello world"), pair("q", "test")]);
    assert_eq!((response.status, response.body.as_str()), (Status::Success, r#"[Stroke("H-L")]"#));
    let response = handle_lookup(&set, &vec![pair("a", "test"), pair("qq", "test")]);
    assert_eq!((response.status, response.body.as_str()), (Status::BadRequest, "Bad Request"));
}

#[test]
fn strokes_are_printed_with_escapes() {
    let odd = Dictionary::from_pairs(vec![(
        Stroke::new("A\"B\\".to_string()),
        Translation::new("odd".to_string()),
    )]);
    let set = IndexSet::from_results(vec![Ok(odd.invert())]).unwrap();
    let response = handle_request(&set, BASE, true, "/lookup?q=odd");
    assert_eq!(response.body, r#"[Stroke("A\"B\\")]"#);
}

#[test]
fn a_status_has_its_number() {
    assert_eq!(Status::Success.code(), 200);
    assert_eq!(Status::BadRequest.code(), 400);
    assert_eq!(Status::NotFound.code(), 404);
    let set = two_dictionaries();
    assert_eq!(handle_request(&set, BASE, true, "/lookup").status.code(), 400);
    assert_eq!(handle_request(&set, BASE, true, "/lookup?q=test").status.code(), 200);
}
