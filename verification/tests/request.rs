use cextauthz::request::RequestParts;

#[test]
fn builds_check_request_with_raw_and_text_body() {
    let mut parts = RequestParts {
        method: "POST".to_string(),
        path: "/submit".to_string(),
        query: "a=1".to_string(),
        host: "example.com".to_string(),
        scheme: "http".to_string(),
        request_id: "request-1".to_string(),
        body: b"hello".to_vec(),
        ..Default::default()
    };
    parts
        .headers
        .insert("x-ext-authz".to_string(), "allow".to_string());

    let request = parts.into_check_request();
    let http = request.attributes.unwrap().request.unwrap().http.unwrap();

    assert_eq!(http.id, "request-1");
    assert_eq!(http.method, "POST");
    assert_eq!(http.path, "/submit");
    assert_eq!(http.query, "a=1");
    assert_eq!(http.host, "example.com");
    assert_eq!(http.scheme, "http");
    assert_eq!(http.headers.get("x-ext-authz").unwrap(), "allow");
    assert_eq!(http.size, 5);
    assert_eq!(http.body, "hello");
    assert_eq!(http.raw_body, b"hello");
}

#[test]
fn body_that_is_not_utf8_is_replaced_in_the_text_only() {
    let parts = RequestParts { body: vec![b'a', 0xff, b'b'], ..Default::default() };
    let request = parts.into_check_request();
    let http = request.attributes.unwrap().request.unwrap().http.unwrap();
    assert_eq!(http.body, "a\u{fffd}b");
    assert_eq!(http.raw_body, vec![b'a', 0xff, b'b']);
    assert_eq!(http.size, 3);
    assert_eq!(http.fragment, "");
    assert_eq!(http.protocol, "");
}
