use docfetch::url::{Method, Scheme, UrlParseError, URL};

fn parsed(text: &str) -> URL {
    URL::from_string(text).unwrap()
}

fn query(url: &URL, key: &str) -> Option<String> {
    url.queries.get(key).cloned()
}

#[test]
fn http_defaults_to_port_80_and_root_path() {
    let url = parsed("http://example.com");
    assert!(matches!(url.scheme, Scheme::Http));
    assert_eq!(url.host, "example.com");
    assert_eq!(url.port, 80);
    assert_eq!(url.path, "/");
    assert_eq!(url.method, Method::Get);
    assert!(!url.show_source);
    assert!(url.queries.is_empty());
    assert!(url.headers.is_empty());
}

#[test]
fn https_defaults_to_port_443() {
    let url = parsed("https://example.com");
    assert!(matches!(url.scheme, Scheme::Https));
    assert_eq!(url.port, 443);
    assert_eq!(url.path, "/");
}

#[test]
fn file_has_port_zero_and_may_have_no_host() {
    let url = parsed("file:///etc/hosts");
    assert!(matches!(url.scheme, Scheme::File));
    assert_eq!(url.host, "");
    assert_eq!(url.port, 0);
    assert_eq!(url.path, "/etc/hosts");
}

#[test]
fn empty_input_is_rejected() {
    assert_eq!(URL::from_string("").unwrap_err(), UrlParseError::EmptyUrl);
}

#[test]
fn bare_view_source_prefix_is_empty() {
    assert_eq!(URL::from_string("view-source:").unwrap_err(), UrlParseError::EmptyUrl);
}

#[test]
fn unknown_scheme_is_rejected() {
    assert_eq!(URL::from_string("ftp://x").unwrap_err(), UrlParseError::UnsupportedScheme);
    assert_eq!(URL::from_string("example.com").unwrap_err(), UrlParseError::UnsupportedScheme);
    assert_eq!(
        URL::from_string("about:blank://x").unwrap_err(),
        UrlParseError::UnsupportedScheme
    );
}

#[test]
fn missing_separator_or_host_is_malformed() {
    assert_eq!(URL::from_string("http").unwrap_err(), UrlParseError::MalformedHost);
    assert_eq!(URL::from_string("http:///index.html").unwrap_err(), UrlParseError::MalformedHost);
    assert_eq!(URL::from_string("https://").unwrap_err(), UrlParseError::MalformedHost);
}

#[test]
fn bad_port_is_rejected() {
    assert_eq!(URL::from_string("http://h:abc/").unwrap_err(), UrlParseError::InvalidPort);
    assert_eq!(URL::from_string("http://h:/").unwrap_err(), UrlParseError::InvalidPort);
    assert_eq!(URL::from_string("http://h:65536/").unwrap_err(), UrlParseError::InvalidPort);
    assert_eq!(URL::from_string("http://h:-1/").unwrap_err(), UrlParseError::InvalidPort);
    assert_eq!(URL::from_string("http://h:0/").unwrap_err(), UrlParseError::InvalidPort);
    assert_eq!(URL::from_string("http://h:80x/").unwrap_err(), UrlParseError::InvalidPort);
}

#[test]
fn port_is_read_from_the_host() {
    let url = parsed("http://example.com:8080/a/b");
    assert_eq!(url.host, "example.com:8080");
    assert_eq!(url.port, 8080);
    assert_eq!(url.path, "/a/b");
    assert_eq!(parsed("https://h:65535").port, 65535);
    assert_eq!(parsed("http://h:+81/").port, 81);
    assert_eq!(parsed("http://h:0080/").port, 80);
    assert_eq!(parsed("http://h:12:34/").port, 12);
    assert_eq!(parsed("file://h:0/x").port, 0);
}

#[test]
fn path_stops_at_the_query_and_is_rooted() {
    assert_eq!(parsed("http://h/a/b?x=1").path, "/a/b");
    assert_eq!(parsed("http://h/").path, "/");
    assert_eq!(parsed("http://h/?x=1").path, "/");
    assert_eq!(parsed("http://h?x=1").path, "/");
    assert_eq!(parsed("http://h//a").path, "/a");
    assert_eq!(parsed("http://h/a://b").path, "/a://b");
}

#[test]
fn query_pairs_are_split_on_ampersand_and_first_equals() {
    let url = parsed("http://h/p?k1=v1&k2=v2");
    assert_eq!(url.queries.len(), 2);
    assert_eq!(query(&url, "k1"), Some("v1".to_string()));
    assert_eq!(query(&url, "k2"), Some("v2".to_string()));
    assert_eq!(query(&url, "k3"), None);
    let url = parsed("http://h/p?a=b=c&&novalue&e=");
    assert_eq!(url.queries.len(), 2);
    assert_eq!(query(&url, "a"), Some("b=c".to_string()));
    assert_eq!(query(&url, "e"), Some("".to_string()));
    assert!(!url.queries.contains_key("novalue"));
}

#[test]
fn later_value_replaces_earlier_one() {
    let url = parsed("http://h/p?a=1&b=2&a=3");
    assert_eq!(url.queries.len(), 2);
    assert_eq!(query(&url, "a"), Some("3".to_string()));
    assert_eq!(url.queries.key_at(0), "a");
    assert_eq!(url.queries.value_at(0), "3");
    assert_eq!(url.queries.key_at(1), "b");
}

#[test]
fn query_ends_at_second_question_mark() {
    let url = parsed("http://h/p?a=1?b=2");
    assert_eq!(url.queries.len(), 1);
    assert_eq!(query(&url, "a"), Some("1".to_string()));
}

#[test]
fn view_source_prefix_is_recorded_and_stripped() {
    let url = parsed("view-source:http://example.com/x");
    assert!(url.show_source);
    assert!(matches!(url.scheme, Scheme::Http));
    assert_eq!(url.host, "example.com");
    assert_eq!(url.path, "/x");
    let url = parsed("view-source:about:blank");
    assert!(url.show_source);
    assert!(matches!(url.scheme, Scheme::AboutBlank));
    let url = parsed("view-source:data:text/html,hi");
    assert!(url.show_source);
}

#[test]
fn about_blank_is_its_own_scheme() {
    let url = parsed("about:blank");
    assert!(matches!(url.scheme, Scheme::AboutBlank));
    assert_eq!(url.host, "");
    assert_eq!(url.path, "");
    assert_eq!(url.port, 0);
}

#[test]
fn data_url_keeps_content_type_and_payload() {
    let url = parsed("data:text/html,<p>x</p>");
    match &url.scheme {
        Scheme::Data(kind) => assert_eq!(kind, "text/html"),
        other => panic!("unexpected scheme {:?}", other),
    }
    assert_eq!(url.data, "text/html,<p>x</p>");
    assert_eq!(url.host, "");
    assert_eq!(url.path, "");
    assert_eq!(url.port, 0);
    let url = parsed("data:,plain");
    match &url.scheme {
        Scheme::Data(kind) => assert_eq!(kind, ""),
        other => panic!("unexpected scheme {:?}", other),
    }
    let url = parsed("data:nocomma");
    match &url.scheme {
        Scheme::Data(kind) => assert_eq!(kind, "nocomma"),
        other => panic!("unexpected scheme {:?}", other),
    }
}

#[test]
fn build_gives_scheme_host_path_and_query() {
    assert_eq!(parsed("http://example.com").build(), "http://example.com/");
    assert_eq!(parsed("https://h:8443/a/b").build(), "https://h:8443/a/b");
    assert_eq!(parsed("http://h/p?k1=v1&k2=v2").build(), "http://h/p?k1=v1&k2=v2");
    assert_eq!(parsed("http://h/p?a=1&b=2&a=3").build(), "http://h/p?a=3&b=2");
    assert_eq!(parsed("view-source:file:///x").build(), "file:///x");
}

#[test]
fn parse_then_build_keeps_the_query_pairs() {
    let first = parsed("https://example.com:8443/search/all?k1=v1&k2=v2&q=a=b");
    let second = parsed(&first.build());
    assert_eq!(second.queries.len(), 3);
    assert_eq!(query(&second, "k1"), Some("v1".to_string()));
    assert_eq!(query(&second, "k2"), Some("v2".to_string()));
    assert_eq!(query(&second, "q"), Some("a=b".to_string()));
    assert_eq!(second.host, first.host);
    assert_eq!(second.path, first.path);
    assert_eq!(second.port, first.port);
}

#[test]
fn scheme_and_method_names() {
    assert_eq!(Scheme::Http.as_str(), "http");
    assert_eq!(Scheme::Https.as_str(), "https");
    assert_eq!(Scheme::File.as_str(), "file");
    assert_eq!(Scheme::Data(String::new()).as_str(), "data");
    assert_eq!(Scheme::AboutBlank.as_str(), "about:blank");
    assert_eq!(Method::Get.as_str(), "GET");
    assert_eq!(Method::Post.as_str(), "POST");
    assert_eq!(Method::Put.as_str(), "PUT");
    assert_eq!(Method::Delete.as_str(), "DELETE");
    assert!(matches!(Scheme::from_str("http"), Some(Scheme::Http)));
    assert!(matches!(Scheme::from_str("https"), Some(Scheme::Https)));
    assert!(matches!(Scheme::from_str("file"), Some(Scheme::File)));
    assert!(Scheme::from_str("HTTP").is_none());
    assert!(Scheme::from_str("data").is_none());
}

#[test]
fn errors_have_messages() {
    assert_eq!(UrlParseError::EmptyUrl.message(), "URL cannot be empty");
    assert_eq!(UrlParseError::UnsupportedScheme.message(), "Unsupported URL scheme");
    assert_eq!(UrlParseError::InvalidPort.message(), "Invalid port number");
    assert_eq!(UrlParseError::MalformedHost.message(), "Invalid URL format");
}
