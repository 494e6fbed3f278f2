use api_workbench::failure::Failure;
use api_workbench::forward::{plan_request, HeaderPair, OutboundRequest};
use api_workbench::method::{method_with_name, parse_method, to_upper_char, HttpMethod};
use api_workbench::response::{assemble_response, unreadable_headers, ProxyResponse, RawHeader};

fn pair(name: &str, value: &str) -> HeaderPair {
    HeaderPair { name: name.to_string(), value: value.to_string() }
}

fn raw(name: &str, value: &[u8]) -> RawHeader {
    RawHeader { name: name.to_string(), value: value.to_vec() }
}

#[test]
fn every_supported_method_is_matched_in_upper_case() {
    assert_eq!(parse_method("GET"), Ok(HttpMethod::Get));
    assert_eq!(parse_method("POST"), Ok(HttpMethod::Post));
    assert_eq!(parse_method("PUT"), Ok(HttpMethod::Put));
    assert_eq!(parse_method("DELETE"), Ok(HttpMethod::Delete));
    assert_eq!(parse_method("PATCH"), Ok(HttpMethod::Patch));
    assert_eq!(parse_method("HEAD"), Ok(HttpMethod::Head));
    assert_eq!(parse_method("OPTIONS"), Ok(HttpMethod::Options));
}

#[test]
fn methods_are_matched_in_any_letter_case() {
    assert_eq!(parse_method("get"), Ok(HttpMethod::Get));
    assert_eq!(parse_method("pOsT"), Ok(HttpMethod::Post));
    assert_eq!(parse_method("Put"), Ok(HttpMethod::Put));
    assert_eq!(parse_method("delete"), Ok(HttpMethod::Delete));
    assert_eq!(parse_method("pAtCh"), Ok(HttpMethod::Patch));
    assert_eq!(parse_method("head"), Ok(HttpMethod::Head));
    assert_eq!(parse_method("oPTIONs"), Ok(HttpMethod::Options));
}

#[test]
fn other_methods_are_refused_with_the_text_as_given() {
    for text in [
        "TRACE",
        "connect",
        "",
        "GETS",
        "GE",
        " get",
        "get ",
        "p\u{f6}st",
        "OPTIONSX",
        "a-very-long-method-name",
    ] {
        assert_eq!(parse_method(text), Err(Failure::UnsupportedMethod(text.to_string())));
    }
}

#[test]
fn single_characters_are_raised_within_ascii_only() {
    assert_eq!(to_upper_char('a'), 'A');
    assert_eq!(to_upper_char('z'), 'Z');
    assert_eq!(to_upper_char('M'), 'M');
    assert_eq!(to_upper_char('{'), '{');
    assert_eq!(to_upper_char('`'), '`');
    assert_eq!(to_upper_char('\u{e9}'), '\u{e9}');
}

#[test]
fn other_texts_are_matched_by_their_unicode_upper_case() {
    assert_eq!(parse_method("po\u{17f}t"), Ok(HttpMethod::Post));
    assert_eq!(parse_method("PO\u{fb06}"), Ok(HttpMethod::Post));
    assert_eq!(parse_method("opt\u{131}ons"), Ok(HttpMethod::Options));
    assert_eq!(
        parse_method("p\u{f6}st"),
        Err(Failure::UnsupportedMethod("p\u{f6}st".to_string()))
    );
    assert_eq!(
        parse_method("g\u{e9}t"),
        Err(Failure::UnsupportedMethod("g\u{e9}t".to_string()))
    );
    assert_eq!(
        parse_method("\u{212a}GET"),
        Err(Failure::UnsupportedMethod("\u{212a}GET".to_string()))
    );
}

#[test]
fn canonical_names_are_upper_case() {
    assert_eq!(HttpMethod::Get.as_str(), "GET");
    assert_eq!(HttpMethod::Post.as_str(), "POST");
    assert_eq!(HttpMethod::Put.as_str(), "PUT");
    assert_eq!(HttpMethod::Delete.as_str(), "DELETE");
    assert_eq!(HttpMethod::Patch.as_str(), "PATCH");
    assert_eq!(HttpMethod::Head.as_str(), "HEAD");
    assert_eq!(HttpMethod::Options.as_str(), "OPTIONS");
}

#[test]
fn exact_names_are_looked_up() {
    assert_eq!(method_with_name("GET"), Some(HttpMethod::Get));
    assert_eq!(method_with_name("POST"), Some(HttpMethod::Post));
    assert_eq!(method_with_name("PUT"), Some(HttpMethod::Put));
    assert_eq!(method_with_name("DELETE"), Some(HttpMethod::Delete));
    assert_eq!(method_with_name("PATCH"), Some(HttpMethod::Patch));
    assert_eq!(method_with_name("HEAD"), Some(HttpMethod::Head));
    assert_eq!(method_with_name("OPTIONS"), Some(HttpMethod::Options));
    assert_eq!(method_with_name("patch"), None);
    assert_eq!(method_with_name(""), None);
    assert_eq!(method_with_name("OPTIONSS"), None);
    assert_eq!(method_with_name("TRACE"), None);
}

#[test]
fn only_get_and_head_carry_no_body() {
    assert!(!HttpMethod::Get.allows_body());
    assert!(!HttpMethod::Head.allows_body());
    assert!(HttpMethod::Post.allows_body());
    assert!(HttpMethod::Put.allows_body());
    assert!(HttpMethod::Delete.allows_body());
    assert!(HttpMethod::Patch.allows_body());
    assert!(HttpMethod::Options.allows_body());
}

#[test]
fn post_is_planned_with_headers_and_body() {
    let planned = plan_request(
        "https://example.test/echo".to_string(),
        "post",
        Some(vec![pair("X-Test", "1")]),
        Some("{\"a\":1}".to_string()),
    );
    assert_eq!(
        planned,
        Ok(OutboundRequest {
            method: HttpMethod::Post,
            url: "https://example.test/echo".to_string(),
            headers: vec![pair("X-Test", "1")],
            body: Some("{\"a\":1}".to_string()),
        })
    );
}

#[test]
fn body_is_dropped_for_get_and_head() {
    for method in ["GET", "get", "HEAD", "Head"] {
        let planned = plan_request(
            "http://example.test/".to_string(),
            method,
            None,
            Some("payload".to_string()),
        )
        .unwrap();
        assert_eq!(planned.body, None);
        assert!(planned.headers.is_empty());
        assert_eq!(planned.url, "http://example.test/");
    }
}

#[test]
fn body_is_kept_unmodified_for_the_other_methods() {
    let body = " line one\r\n\tline two \u{1f600} ";
    for (method, expected) in [
        ("post", HttpMethod::Post),
        ("PUT", HttpMethod::Put),
        ("Delete", HttpMethod::Delete),
        ("patch", HttpMethod::Patch),
        ("options", HttpMethod::Options),
    ] {
        let planned =
            plan_request("http://h/".to_string(), method, None, Some(body.to_string())).unwrap();
        assert_eq!(planned.method, expected);
        assert_eq!(planned.body, Some(body.to_string()));
    }
}

#[test]
fn a_request_without_body_has_none() {
    let planned = plan_request("http://h/".to_string(), "POST", None, None).unwrap();
    assert_eq!(planned.body, None);
}

#[test]
fn headers_are_attached_verbatim_and_in_order() {
    let headers = vec![pair("b", "2"), pair("A", " spaced "), pair("b", "again"), pair("", "")];
    let planned =
        plan_request("http://h/".to_string(), "GET", Some(headers.clone()), None).unwrap();
    assert_eq!(planned.headers, headers);
}

#[test]
fn an_unsupported_method_is_refused_before_anything_is_planned() {
    let planned = plan_request(
        "http://h/".to_string(),
        "FETCH",
        Some(vec![pair("a", "b")]),
        Some("x".to_string()),
    );
    assert_eq!(planned, Err(Failure::UnsupportedMethod("FETCH".to_string())));
    assert_eq!(planned.unwrap_err().message(), "Unsupported HTTP method: FETCH");
}

#[test]
fn response_keeps_status_body_and_readable_headers() {
    let response = assemble_response(
        201,
        vec![raw("content-type", b"application/json"), raw("x-test", b"1")],
        "{\"ok\":true}".to_string(),
    );
    assert_eq!(
        response,
        ProxyResponse {
            status: 201,
            headers: vec![pair("content-type", "application/json"), pair("x-test", "1")],
            body: "{\"ok\":true}".to_string(),
        }
    );
}

#[test]
fn a_header_with_an_unreadable_value_is_left_out() {
    let received = vec![
        raw("x-first", b"one"),
        raw("x-binary", &[0x66, 0xff, 0x6f]),
        raw("x-last", b"three"),
    ];
    assert_eq!(unreadable_headers(&received), vec!["x-binary".to_string()]);
    let response = assemble_response(200, received, String::new());
    assert_eq!(response.headers, vec![pair("x-first", "one"), pair("x-last", "three")]);
    assert_eq!(response.header("x-binary"), None);
    assert_eq!(response.header("x-first"), Some(&"one".to_string()));
    assert_eq!(response.header("x-last"), Some(&"three".to_string()));
}

#[test]
fn only_visible_ascii_reads_as_text() {
    let readable: Vec<u8> = (32u8..127).collect();
    let text: String = readable.iter().map(|b| *b as char).collect();
    let response = assemble_response(
        200,
        vec![
            raw("all-visible", &readable),
            raw("tab", b"a\tb"),
            raw("empty", b""),
            raw("del", &[0x41, 0x7f]),
            raw("newline", b"a\nb"),
            raw("nul", &[0]),
            raw("high", &[0x80]),
            raw("utf8", "\u{e9}".as_bytes()),
        ],
        String::new(),
    );
    assert_eq!(
        response.headers,
        vec![pair("all-visible", &text), pair("tab", "a\tb"), pair("empty", "")]
    );
}

#[test]
fn a_later_header_takes_the_place_of_an_earlier_one_with_its_name() {
    let response = assemble_response(
        200,
        vec![
            raw("set-cookie", b"a=1"),
            raw("x-other", b"kept"),
            raw("set-cookie", b"b=2"),
            raw("set-cookie", &[0xfe]),
        ],
        String::new(),
    );
    assert_eq!(response.headers, vec![pair("set-cookie", "b=2"), pair("x-other", "kept")]);
    assert_eq!(response.header("set-cookie"), Some(&"b=2".to_string()));
}

#[test]
fn a_response_without_headers_has_none() {
    let response = assemble_response(599, Vec::new(), "body".to_string());
    assert_eq!(response.status, 599);
    assert!(response.headers.is_empty());
    assert_eq!(response.body, "body");
    assert!(unreadable_headers(&Vec::new()).is_empty());
}

#[test]
fn unreadable_headers_are_reported_in_order() {
    let received = vec![
        raw("b", &[0xff]),
        raw("ok", b"fine"),
        raw("a", &[0x1f]),
        raw("b", &[0x80, 0x81]),
    ];
    assert_eq!(
        unreadable_headers(&received),
        vec!["b".to_string(), "a".to_string(), "b".to_string()]
    );
}

#[test]
fn failures_have_descriptive_messages() {
    assert_eq!(
        Failure::UnsupportedMethod("trace".to_string()).message(),
        "Unsupported HTTP method: trace"
    );
    assert_eq!(
        Failure::TransportError("connection refused".to_string()).message(),
        "Request failed: connection refused"
    );
    assert_eq!(Failure::NotFound("abc".to_string()).message(), "Collection not found: abc");
    assert_eq!(Failure::CorruptDocument("bad json".to_string()).message(), "bad json");
    assert_eq!(Failure::IoFailure("denied".to_string()).message(), "denied");
    assert_eq!(Failure::SerializationFailure("nope".to_string()).message(), "nope");
}

#[test]
fn a_forwarded_post_yields_the_servers_answer() {
    let planned = plan_request(
        "https://example.test/echo".to_string(),
        "post",
        Some(vec![pair("X-Test", "1")]),
        Some("{\"a\":1}".to_string()),
    )
    .unwrap();
    assert_eq!(planned.method.as_str(), "POST");
    assert_eq!(planned.url, "https://example.test/echo");
    assert_eq!(planned.headers, vec![pair("X-Test", "1")]);
    assert_eq!(planned.body, Some("{\"a\":1}".to_string()));

    let answer = vec![
        raw("content-type", b"application/json"),
        raw("x-test", b"1"),
        raw("x-trace", &[0xc3, 0x28]),
    ];
    let response = assemble_response(201, answer, "{\"a\":1}".to_string());
    assert_eq!(response.status, 201);
    assert_eq!(response.body, "{\"a\":1}");
    assert_eq!(
        response.headers,
        vec![pair("content-type", "application/json"), pair("x-test", "1")]
    );
}
