use http_dispatch::http::{HttpRequest, ParseError};
use vstd::hash_map::StringHashMap;

fn parsed(text: &str) -> HttpRequest {
    match HttpRequest::new(text.to_string()) {
        Ok(request) => request,
        Err(e) => panic!("unexpected parse error: {:?}", e),
    }
}

fn is_blank(request: &HttpRequest) -> bool {
    request.method.is_empty()
        && request.uri.is_empty()
        && request.headers.len() == 0
        && request.post_body.is_empty()
        && request.query_params.len() == 0
        && request.path_params.len() == 0
}

#[test]
fn parses_a_simple_get() {
    let request = parsed(
        "GET /user?id=7&flag HTTP/1.1\r\nHost: example.org\r\nAccept: */*\r\n\r\nhello",
    );
    assert_eq!(request.method, "GET");
    assert_eq!(request.uri, "/user");
    assert_eq!(request.headers.len(), 2);
    assert_eq!(request.headers.get("Host"), Some(&" example.org".to_string()));
    assert_eq!(request.headers.get("Accept"), Some(&" */*".to_string()));
    assert_eq!(request.post_body, "hello");
    assert_eq!(request.query_params.len(), 1);
    assert_eq!(request.get_query_param("id"), Some(&"7".to_string()));
    assert_eq!(request.get_query_param("flag"), None);
    assert_eq!(request.path_params.len(), 0);
}

#[test]
fn parses_a_post_with_a_body() {
    let request = parsed(
        "POST /home HTTP/1.1\r\nContent-Type:text/plain\r\n\r\nline one\r\nline two\r\n",
    );
    assert_eq!(request.method, "POST");
    assert_eq!(request.uri, "/home");
    assert_eq!(request.headers.get("Content-Type"), Some(&"text/plain".to_string()));
    assert_eq!(request.post_body, "line one\r\nline two\r\n");
    assert_eq!(request.query_params.len(), 0);
}

#[test]
fn header_without_colon_is_rejected() {
    let text = "GET / HTTP/1.1\r\nHost example.org\r\n\r\n";
    assert_eq!(HttpRequest::new(text.to_string()).err(), Some(ParseError::MalformedHeader));
}

#[test]
fn header_without_colon_after_good_headers_is_rejected() {
    let text = "GET / HTTP/1.1\r\nHost: a\r\nAccept: b\r\nbroken\r\n\r\nbody";
    assert_eq!(HttpRequest::new(text.to_string()).err(), Some(ParseError::MalformedHeader));
}

#[test]
fn line_without_colon_after_the_blank_line_is_body() {
    let request = parsed("GET / HTTP/1.1\r\nHost: a\r\n\r\nno colon here\r\n");
    assert_eq!(request.headers.len(), 1);
    assert_eq!(request.post_body, "no colon here\r\n");
}

#[test]
fn query_string_parses_pairs_and_drops_entries_without_equals() {
    let request = parsed("GET /search?a=1&b=2&c HTTP/1.1\r\n\r\n");
    assert_eq!(request.uri, "/search");
    assert_eq!(request.query_params.len(), 2);
    assert_eq!(request.get_query_param("a"), Some(&"1".to_string()));
    assert_eq!(request.get_query_param("b"), Some(&"2".to_string()));
    assert_eq!(request.get_query_param("c"), None);
    assert!(!request.query_params.contains_key("c"));
}

#[test]
fn request_line_with_fewer_than_three_words_gives_the_blank_request() {
    assert!(is_blank(&parsed("GET /\r\nHost: a\r\n\r\n")));
    assert!(is_blank(&parsed("GET\r\n\r\n")));
    assert!(is_blank(&parsed("\r\n\r\n")));
    assert!(is_blank(&parsed("   \r\nHost: a\r\n\r\n")));
}

#[test]
fn request_line_with_more_than_three_words_gives_the_blank_request() {
    assert!(is_blank(&parsed("GET / HTTP/1.1 extra\r\nHost: a\r\n\r\n")));
}

#[test]
fn text_without_a_line_end_gives_the_blank_request() {
    assert!(is_blank(&parsed("GET / HTTP/1.1")));
    assert!(is_blank(&parsed("")));
    assert!(is_blank(&parsed("GET / HTTP/1.1\n\n")));
}

#[test]
fn a_bad_request_line_hides_a_bad_header() {
    assert!(is_blank(&parsed("GET /\r\nno colon\r\n\r\n")));
}

#[test]
fn request_line_words_may_be_separated_by_any_whitespace() {
    let request = parsed("  GET\t/a/b   HTTP/1.1 \r\n\r\n");
    assert_eq!(request.method, "GET");
    assert_eq!(request.uri, "/a/b");
}

#[test]
fn duplicate_header_keeps_the_last_value() {
    let request = parsed("GET / HTTP/1.1\r\nX: 1\r\nY: 2\r\nX: 3\r\n\r\n");
    assert_eq!(request.headers.len(), 2);
    assert_eq!(request.headers.get("X"), Some(&" 3".to_string()));
    assert_eq!(request.headers.get("Y"), Some(&" 2".to_string()));
}

#[test]
fn duplicate_query_key_keeps_the_last_value() {
    let request = parsed("GET /?k=1&k=2&j=3&k=4 HTTP/1.1\r\n\r\n");
    assert_eq!(request.query_params.len(), 2);
    assert_eq!(request.get_query_param("k"), Some(&"4".to_string()));
    assert_eq!(request.get_query_param("j"), Some(&"3".to_string()));
}

#[test]
fn header_is_split_at_its_first_colon_only() {
    let request = parsed("GET / HTTP/1.1\r\nHost: example.org:8080\r\n:odd\r\n\r\n");
    assert_eq!(request.headers.get("Host"), Some(&" example.org:8080".to_string()));
    assert_eq!(request.headers.get(""), Some(&"odd".to_string()));
}

#[test]
fn body_is_all_that_follows_the_first_empty_line() {
    let request = parsed("GET / HTTP/1.1\r\nA: b\r\n\r\nbody\r\n\r\nC: d\r\n\0\0\0");
    assert_eq!(request.headers.len(), 1);
    assert_eq!(request.post_body, "body\r\n\r\nC: d\r\n\0\0\0");
}

#[test]
fn headers_without_an_empty_line_leave_the_body_empty() {
    let request = parsed("GET / HTTP/1.1\r\nA: b\r\nC: d\r\ntrailing without colon");
    assert_eq!(request.headers.len(), 2);
    assert_eq!(request.headers.get("A"), Some(&" b".to_string()));
    assert_eq!(request.headers.get("C"), Some(&" d".to_string()));
    assert_eq!(request.post_body, "");
}

#[test]
fn request_line_alone_gives_no_headers_and_no_body() {
    let request = parsed("GET /x HTTP/1.1\r\n");
    assert_eq!(request.method, "GET");
    assert_eq!(request.uri, "/x");
    assert_eq!(request.headers.len(), 0);
    assert_eq!(request.post_body, "");
}

#[test]
fn text_that_is_not_ascii_is_kept() {
    let request = parsed("GET /caf\u{e9}?n\u{f6}=\u{fc}ber HTTP/1.1\r\nN\u{e4}me: w\u{e9}rt\r\n\r\n\u{4f60}\u{597d}");
    assert_eq!(request.uri, "/caf\u{e9}");
    assert_eq!(request.get_query_param("n\u{f6}"), Some(&"\u{fc}ber".to_string()));
    assert_eq!(request.headers.get("N\u{e4}me"), Some(&" w\u{e9}rt".to_string()));
    assert_eq!(request.post_body, "\u{4f60}\u{597d}");
}

#[test]
fn default_request_is_blank() {
    assert!(is_blank(&HttpRequest::default()));
}

#[test]
fn extract_adds_to_what_is_there() {
    let mut headers: StringHashMap<String> = StringHashMap::new();
    headers.insert("Old".to_string(), "kept".to_string());
    headers.insert("Host".to_string(), "replaced".to_string());
    let mut body = "start:".to_string();
    let r = HttpRequest::extract("Host: new\r\nX-Id: 9\r\n\r\nrest", &mut headers, &mut body);
    assert_eq!(r, Ok(()));
    assert_eq!(headers.len(), 3);
    assert_eq!(headers.get("Old"), Some(&"kept".to_string()));
    assert_eq!(headers.get("Host"), Some(&" new".to_string()));
    assert_eq!(headers.get("X-Id"), Some(&" 9".to_string()));
    assert_eq!(body, "start:rest");
}

#[test]
fn extract_keeps_the_headers_read_before_a_malformed_line() {
    let mut headers: StringHashMap<String> = StringHashMap::new();
    let mut body = String::new();
    let r = HttpRequest::extract("A: 1\r\nbroken\r\nB: 2\r\n\r\nbody", &mut headers, &mut body);
    assert_eq!(r, Err(ParseError::MalformedHeader));
    assert_eq!(headers.len(), 1);
    assert_eq!(headers.get("A"), Some(&" 1".to_string()));
    assert_eq!(body, "");
}

#[test]
fn extract_of_a_block_without_line_end_does_nothing() {
    let mut headers: StringHashMap<String> = StringHashMap::new();
    let mut body = String::new();
    assert_eq!(HttpRequest::extract("no line end", &mut headers, &mut body), Ok(()));
    assert_eq!(headers.len(), 0);
    assert_eq!(body, "");
    assert_eq!(HttpRequest::extract("", &mut headers, &mut body), Ok(()));
    assert_eq!(headers.len(), 0);
}

#[test]
fn extract_of_an_empty_line_takes_the_rest_as_body() {
    let mut headers: StringHashMap<String> = StringHashMap::new();
    let mut body = String::new();
    assert_eq!(HttpRequest::extract("\r\nA: 1\r\n", &mut headers, &mut body), Ok(()));
    assert_eq!(headers.len(), 0);
    assert_eq!(body, "A: 1\r\n");
}

#[test]
fn parse_uri_without_a_query() {
    let (path, query) = HttpRequest::parse_uri("/a/b");
    assert_eq!(path, "/a/b");
    assert_eq!(query.len(), 0);
}

#[test]
fn parse_uri_splits_at_the_first_question_mark() {
    let (path, query) = HttpRequest::parse_uri("/a?x=1?2&y=?");
    assert_eq!(path, "/a");
    assert_eq!(query.len(), 2);
    assert_eq!(query.get("x"), Some(&"1?2".to_string()));
    assert_eq!(query.get("y"), Some(&"?".to_string()));
}

#[test]
fn parse_uri_splits_an_entry_at_its_first_equals_sign() {
    let (path, query) = HttpRequest::parse_uri("?a=b=c&=v&k=&&novalue");
    assert_eq!(path, "");
    assert_eq!(query.len(), 3);
    assert_eq!(query.get("a"), Some(&"b=c".to_string()));
    assert_eq!(query.get(""), Some(&"v".to_string()));
    assert_eq!(query.get("k"), Some(&"".to_string()));
    assert_eq!(query.get("novalue"), None);
}

#[test]
fn parse_uri_with_an_empty_query() {
    let (path, query) = HttpRequest::parse_uri("/a?");
    assert_eq!(path, "/a");
    assert_eq!(query.len(), 0);
}

#[test]
fn typed_query_parameter() {
    let request = parsed("GET /user?id=42&name=ann&neg=-3 HTTP/1.1\r\n\r\n");
    assert_eq!(request.get_query_param_as::<u32>("id"), Some(42));
    assert_eq!(request.get_query_param_as::<String>("name"), Some("ann".to_string()));
    assert_eq!(request.get_query_param_as::<i64>("neg"), Some(-3));
}

#[test]
fn typed_query_parameter_that_does_not_parse_is_none() {
    let request = parsed("GET /user?id=forty&big=300&neg=-3 HTTP/1.1\r\n\r\n");
    assert_eq!(request.get_query_param_as::<u32>("id"), None);
    assert_eq!(request.get_query_param_as::<u8>("big"), None);
    assert_eq!(request.get_query_param_as::<u32>("neg"), None);
}

#[test]
fn typed_query_parameter_that_is_missing_is_none() {
    let request = parsed("GET /user?id=42 HTTP/1.1\r\n\r\n");
    assert_eq!(request.get_query_param_as::<u32>("nothing"), None);
    assert_eq!(request.get_path_param_as::<u32>("id"), None);
}

#[test]
fn path_parameters_are_read_from_their_own_map() {
    let mut request = parsed("GET /user/42?id=7 HTTP/1.1\r\n\r\n");
    assert_eq!(request.get_path_param("id"), None);
    request.path_params.insert("id".to_string(), "42".to_string());
    assert_eq!(request.get_path_param("id"), Some(&"42".to_string()));
    assert_eq!(request.get_path_param_as::<u32>("id"), Some(42));
    assert_eq!(request.get_path_param_as::<bool>("id"), None);
    assert_eq!(request.get_query_param_as::<u32>("id"), Some(7));
}
