use docfetch::dict::StringMap;
use docfetch::layout::text::Body;
use docfetch::url::{
    load, RedirectError, Response, ResponseParseError, Step, Transfer, TransportError, URL,
};

fn answer(status: &str, location: Option<&str>) -> Response {
    let mut headers = StringMap::new();
    if let Some(target) = location {
        headers.insert("Location".to_string(), target.to_string());
    }
    Response::new(status.to_string(), headers, Body::new(String::new()))
}

struct Run {
    response: Response,
    requests: usize,
    redirects: usize,
    url: URL,
}

fn run(start: &str, serve: &dyn Fn(&URL) -> Response) -> Run {
    let mut loader = load(start).unwrap();
    let mut requests = 1;
    let mut redirects = 0;
    let mut response = serve(&loader.url);
    loop {
        match loader.advance(&response).unwrap() {
            Step::Follow => {
                response = serve(&loader.url);
                requests += 1;
                redirects += 1;
            }
            Step::Finish => break,
        }
    }
    Run { response, requests, redirects, url: loader.url }
}

#[test]
fn redirect_to_a_path_takes_two_requests() {
    let serve = |url: &URL| {
        if url.path == "/b" {
            answer("HTTP/1.1 200 OK", None)
        } else {
            answer("HTTP/1.1 301 Moved Permanently", Some("/b"))
        }
    };
    let run = run("http://example.com/a", &serve);
    assert_eq!(run.requests, 2);
    assert_eq!(run.redirects, 1);
    assert_eq!(run.response.get_response_code(), Some(200));
    assert_eq!(run.response.status, "HTTP/1.1 200 OK");
    assert_eq!(run.url.host, "example.com");
    assert_eq!(run.url.path, "/b");
    assert_eq!(run.url.port, 80);
}

#[test]
fn redirect_loop_ends_when_the_budget_is_spent() {
    let serve = |_: &URL| answer("HTTP/1.1 302 Found", Some("/again"));
    let run = run("http://example.com/again", &serve);
    assert_eq!(run.redirects, 10);
    assert_eq!(run.requests, 11);
    assert_eq!(run.response.get_response_code(), Some(302));
    assert_eq!(run.url.path, "/again");
}

#[test]
fn full_url_redirect_replaces_the_url() {
    let serve = |url: &URL| {
        if url.host == "other.org:81" {
            answer("HTTP/1.1 200 OK", None)
        } else {
            answer("HTTP/1.1 307 Temporary Redirect", Some("https://other.org:81/x?k=v"))
        }
    };
    let run = run("view-source:http://example.com/", &serve);
    assert_eq!(run.requests, 2);
    assert_eq!(run.response.get_response_code(), Some(200));
    assert_eq!(run.url.port, 81);
    assert_eq!(run.url.path, "/x");
    assert!(!run.url.show_source);
    assert_eq!(run.url.queries.get("k").cloned(), Some("v".to_string()));
}

#[test]
fn client_and_server_errors_end_the_load() {
    for status in ["HTTP/1.1 404 Not Found", "HTTP/1.1 500 Oops", "HTTP/1.1 400 Bad", "HTTP/1.1 100 Continue", "200 OK", ""] {
        let mut loader = load("http://example.com/").unwrap();
        assert_eq!(loader.hops, 10);
        assert_eq!(loader.advance(&answer(status, Some("/b"))), Ok(Step::Finish));
        assert_eq!(loader.hops, 10);
        assert_eq!(loader.url.path, "/");
    }
}

#[test]
fn each_redirect_spends_one_hop() {
    let mut loader = load("http://example.com/").unwrap();
    assert_eq!(loader.advance(&answer("HTTP/1.1 300 Multiple", Some("/b"))), Ok(Step::Follow));
    assert_eq!(loader.hops, 9);
    assert_eq!(loader.advance(&answer("HTTP/1.1 399 Odd", Some("c"))), Ok(Step::Follow));
    assert_eq!(loader.hops, 8);
    assert_eq!(loader.url.path, "c");
}

#[test]
fn redirect_without_location_fails() {
    let mut loader = load("http://example.com/").unwrap();
    assert_eq!(
        loader.advance(&answer("HTTP/1.1 301 Moved", None)),
        Err(RedirectError::MissingLocationHeader)
    );
    assert_eq!(loader.hops, 10);
    let mut lower = StringMap::new();
    lower.insert("location".to_string(), "/b".to_string());
    let response = Response::new("HTTP/1.1 301 Moved".to_string(), lower, Body::new(String::new()));
    assert_eq!(loader.advance(&response), Err(RedirectError::MissingLocationHeader));
}

#[test]
fn redirect_to_a_bad_url_fails() {
    let mut loader = load("http://example.com/").unwrap();
    assert_eq!(
        loader.advance(&answer("HTTP/1.1 301 Moved", Some("ftp://x"))),
        Err(RedirectError::UnresolvableRedirectTarget)
    );
    assert_eq!(loader.url.host, "example.com");
    assert_eq!(loader.hops, 10);
}

#[test]
fn load_reports_parse_errors() {
    assert!(matches!(load(""), Err(docfetch::url::UrlParseError::EmptyUrl)));
    assert!(matches!(load("ftp://x"), Err(docfetch::url::UrlParseError::UnsupportedScheme)));
}

#[test]
fn data_url_answers_with_its_payload() {
    let url = URL::from_string("data:text/html,<p>x</p>").unwrap();
    match url.request() {
        Ok(Transfer::Ready { response }) => {
            assert_eq!(response.body.text(), "<p>x</p>");
            assert_eq!(response.status, "200 OK");
            assert!(response.headers.is_empty());
            assert_eq!(response.get_response_code(), None);
        }
        other => panic!("unexpected transfer {:?}", other),
    }
}

#[test]
fn data_payload_keeps_colons_and_commas() {
    let response = URL::request_data("text/html,<a href='https://x'>a,b</a>".to_string()).unwrap();
    assert_eq!(response.body.text(), "<a href='https://x'>a,b</a>");
}

#[test]
fn data_url_without_comma_is_malformed() {
    let url = URL::from_string("data:text/html").unwrap();
    assert!(matches!(url.request(), Err(TransportError::MalformedDataUrl)));
    assert!(matches!(
        URL::request_data("nocomma".to_string()),
        Err(TransportError::MalformedDataUrl)
    ));
}

#[test]
fn about_blank_answers_with_an_empty_page() {
    let url = URL::from_string("about:blank").unwrap();
    match url.request() {
        Ok(Transfer::Ready { response }) => {
            assert_eq!(response.body.text(), "<html><body></body></html>");
            assert_eq!(response.status, "200 OK");
        }
        other => panic!("unexpected transfer {:?}", other),
    }
    let other = URL::from_string("http://example.com").unwrap();
    assert!(matches!(other.request_blank(), Err(TransportError::UnsupportedOperation)));
}

#[test]
fn http_request_names_what_to_send_where() {
    let url = URL::from_string("http://example.com/index.html?x=1").unwrap();
    match url.request() {
        Ok(Transfer::Network { secure, host, address, message }) => {
            assert!(!secure);
            assert_eq!(host, "example.com");
            assert_eq!(address, "example.com:80");
            assert_eq!(
                message,
                "GET /index.html HTTP/1.1\r\nHost: example.com\r\nConnection: close\r\nAccept-Encoding: identity\r\n\r\n"
            );
        }
        other => panic!("unexpected transfer {:?}", other),
    }
}

#[test]
fn https_request_is_secure() {
    let url = URL::from_string("https://example.com").unwrap();
    match url.request() {
        Ok(Transfer::Network { secure, address, .. }) => {
            assert!(secure);
            assert_eq!(address, "example.com:443");
        }
        other => panic!("unexpected transfer {:?}", other),
    }
    let url = URL::from_string("https://h:65535/").unwrap();
    assert_eq!(url.address(), "h:65535:65535");
    assert_eq!(url.request_text(), "GET / HTTP/1.1\r\nHost: h:65535\r\nConnection: close\r\nAccept-Encoding: identity\r\n\r\n");
}

#[test]
fn file_request_names_the_path() {
    let url = URL::from_string("file:///tmp/page.html").unwrap();
    match url.request() {
        Ok(Transfer::File { path }) => assert_eq!(path, "/tmp/page.html"),
        other => panic!("unexpected transfer {:?}", other),
    }
    let response = URL::request_file("<b>hi</b>".to_string());
    assert_eq!(response.status, "200 OK");
    assert_eq!(response.body.text(), "<b>hi</b>");
    assert!(response.headers.is_empty());
}

#[test]
fn response_is_read_from_wire_text() {
    let text = "HTTP/1.1 200 OK\r\nContent-Type: text/html\r\n  X-Pad :  spaced value \r\nbroken line\r\nA:b:c\r\n\r\n<html>\r\n\r\n<body>hi</body>\r\n</html>";
    let response = Response::from_string(text).unwrap();
    assert_eq!(response.status, "HTTP/1.1 200 OK");
    assert_eq!(response.headers.len(), 3);
    assert_eq!(response.headers.get("Content-Type").cloned(), Some("text/html".to_string()));
    assert_eq!(response.headers.get("X-Pad").cloned(), Some("spaced value".to_string()));
    assert_eq!(response.headers.get("A").cloned(), Some("b:c".to_string()));
    assert_eq!(response.headers.get("content-type"), None);
    assert_eq!(response.body.text(), "<html><body>hi</body></html>");
    assert_eq!(response.get_response_code(), Some(200));
}

#[test]
fn response_tolerates_short_input() {
    let response = Response::from_string("HTTP/1.1 204 No Content").unwrap();
    assert_eq!(response.status, "HTTP/1.1 204 No Content");
    assert!(response.headers.is_empty());
    assert_eq!(response.body.text(), "");
    let response = Response::from_string("\n").unwrap();
    assert_eq!(response.status, "");
    let response = Response::from_string("S\nno colon\n\nbody:1\nmore").unwrap();
    assert!(response.headers.is_empty());
    assert_eq!(response.body.text(), "body:1more");
}

#[test]
fn empty_response_is_rejected() {
    assert_eq!(Response::from_string("").unwrap_err(), ResponseParseError::EmptyResponse);
    assert_eq!(ResponseParseError::EmptyResponse.message(), "Empty response");
}

#[test]
fn status_code_is_the_second_token() {
    let code = |status: &str| answer(status, None).get_response_code();
    assert_eq!(code("HTTP/1.1 301 Moved Permanently"), Some(301));
    assert_eq!(code("HTTP/1.1 200"), Some(200));
    assert_eq!(code("HTTP/1.1"), None);
    assert_eq!(code("HTTP/1.1  200 OK"), None);
    assert_eq!(code("HTTP/1.1\t301\tx"), Some(301));
    assert_eq!(code("HTTP/1.1\t301 Moved"), Some(301));
    assert_eq!(code("HTTP/1.1 302\r"), Some(302));
    assert_eq!(code("HTTP/1.1\u{a0}404\u{3000}Not Found"), Some(404));
    assert_eq!(code("HTTP/1.1 \t200"), None);
    assert_eq!(code(" HTTP/1.1 200"), None);
    assert_eq!(code("HTTP/1.1 +200 OK"), Some(200));
    assert_eq!(code("HTTP/1.1 "), None);
    assert_eq!(code("HTTP/1.1 abc OK"), None);
    assert_eq!(code("HTTP/1.1 70000 OK"), None);
    assert_eq!(code("200 OK"), None);
}

#[test]
fn redirect_is_followed_where_tabs_part_the_status_line() {
    let mut loader = load("http://example.com/a").unwrap();
    assert_eq!(loader.advance(&answer("HTTP/1.1\t301\tx", Some("/b"))), Ok(Step::Follow));
    assert_eq!(loader.url.path, "/b");
    assert_eq!(loader.hops, 9);
}

#[test]
fn transport_and_redirect_errors_have_messages() {
    assert_eq!(TransportError::MalformedDataUrl.message(), "Invalid data URL format");
    assert_eq!(
        TransportError::UnsupportedOperation.message(),
        "Unsupported URL scheme for request"
    );
    assert_eq!(TransportError::DnsResolutionFailed.message(), "Failed to resolve host");
    assert_eq!(TransportError::ConnectFailed.message(), "Failed to connect");
    assert_eq!(TransportError::SendFailed.message(), "Failed to send request");
    assert_eq!(TransportError::ReceiveFailed.message(), "Failed to read response");
    assert_eq!(TransportError::TlsHandshakeFailed.message(), "TLS handshake failed");
    assert_eq!(TransportError::FileReadFailed.message(), "Failed to read file");
    assert_eq!(
        RedirectError::MissingLocationHeader.message(),
        "No Location header found for redirect"
    );
    assert_eq!(
        RedirectError::UnresolvableRedirectTarget.message(),
        "Failed to parse redirect URL"
    );
}
