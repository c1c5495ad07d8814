//! URLs: the typed descriptor, the resolver that reads one from text, and
//! the way back to text.

use vstd::prelude::*;
use crate::chars::{
    after, before, decimal, decimal_of, extend, find, find_char, find_char_from, find_seq,
    from_chars, has_char, has_prefix, has_seq, lemma_find, lines, lines_of, parse_u16, read_u16,
    same, second_token, second_word, slice, split, split_on, starts_with, texts, to_chars, trim,
    trimmed,
};
use crate::dict::{distinct_keys, lookup, put, StringMap};
use crate::layout::text::Body;

verus! {

/// The request method of a URL.
#[derive(Clone, Copy, Debug, PartialEq, Eq, Structural)]
pub enum Method {
    Post,
    Put,
    Delete,
    Get,
}

/// The scheme of a URL. `Data` carries the declared content type.
#[derive(Debug)]
pub enum Scheme {
    Http,
    Https,
    File,
    Data(String),
    AboutBlank,
}

/// What a `Scheme` stands for.
pub enum SchemeView {
    Http,
    Https,
    File,
    Data(Seq<char>),
    AboutBlank,
}

/// Why a text is no URL.
#[derive(Clone, Copy, Debug, PartialEq, Eq, Structural)]
pub enum UrlParseError {
    /// Nothing is left once a `view-source:` prefix is taken off.
    EmptyUrl,
    /// The text in front of `://` names none of `http`, `https` and `file`.
    UnsupportedScheme,
    /// The text behind the host's colon is no 16-bit number, or it is zero
    /// where the scheme needs a port.
    InvalidPort,
    /// There is no `://`, or no host behind it where the scheme needs one.
    MalformedHost,
}

/// What a `URL` stands for.
pub struct UrlView {
    pub scheme: SchemeView,
    pub host: Seq<char>,
    pub path: Seq<char>,
    pub queries: Seq<(Seq<char>, Seq<char>)>,
    pub headers: Seq<(Seq<char>, Seq<char>)>,
    pub port: u16,
    pub method: Method,
    pub show_source: bool,
    pub data: Seq<char>,
}

/// A resolved URL.
#[derive(Debug)]
pub struct URL {
    pub scheme: Scheme,
    pub host: String,
    pub path: String,
    pub queries: StringMap,
    pub headers: StringMap,
    pub port: u16,
    pub method: Method,
    pub show_source: bool,
    /// What followed `data:` in the text of an inline document's URL.
    pub data: String,
}

/// The prefix that asks for a page's source.
pub open spec fn source_prefix() -> Seq<char> {
    "view-source:"@
}

/// The prefix of an inline document.
pub open spec fn data_prefix() -> Seq<char> {
    "data:"@
}

/// What stands between a scheme and a host.
pub open spec fn separator() -> Seq<char> {
    "://"@
}

/// The scheme that a token in front of `://` names.
pub open spec fn scheme_of(token: Seq<char>) -> Option<SchemeView> {
    if token == "http"@ {
        Some(SchemeView::Http)
    } else if token == "https"@ {
        Some(SchemeView::Https)
    } else if token == "file"@ {
        Some(SchemeView::File)
    } else {
        None
    }
}

/// The name of a scheme, as it stands in front of `://`.
pub open spec fn scheme_name(scheme: SchemeView) -> Seq<char> {
    match scheme {
        SchemeView::Http => "http"@,
        SchemeView::Https => "https"@,
        SchemeView::File => "file"@,
        SchemeView::Data(_) => "data"@,
        SchemeView::AboutBlank => "about:blank"@,
    }
}

/// The name of a method, as it stands in a request line.
pub open spec fn method_name(method: Method) -> Seq<char> {
    match method {
        Method::Post => "POST"@,
        Method::Put => "PUT"@,
        Method::Delete => "DELETE"@,
        Method::Get => "GET"@,
    }
}

/// Whether a scheme is served over the network.
pub open spec fn is_network(scheme: SchemeView) -> bool {
    scheme is Http || scheme is Https
}

/// The port of a scheme where the host names none.
pub open spec fn default_port(scheme: SchemeView) -> u16 {
    match scheme {
        SchemeView::Http => 80,
        SchemeView::Https => 443,
        _ => 0,
    }
}

/// `p` with a slash in front, unless it begins with one.
pub open spec fn rooted(p: Seq<char>) -> Seq<char> {
    if p.len() > 0 && p[0] == '/' {
        p
    } else {
        seq!['/'] + p
    }
}

/// The host of what follows `://`: everything up to the first slash.
pub open spec fn host_of(rest: Seq<char>) -> Seq<char> {
    before(rest, '/')
}

/// The path of what follows `://`: everything behind the first slash up to
/// the first question mark, rooted.
pub open spec fn path_of(rest: Seq<char>) -> Seq<char> {
    rooted(before(after(rest, '/'), '?'))
}

/// The query text of what follows `://`: everything between the first
/// question mark and the second.
pub open spec fn query_of(rest: Seq<char>) -> Seq<char> {
    before(after(rest, '?'), '?')
}

/// The pairs that the pieces of a query text give, in order. A piece without
/// `=` gives none; a key that comes again keeps its place and takes the later
/// value.
pub open spec fn collect(pieces: Seq<Seq<char>>) -> Seq<(Seq<char>, Seq<char>)>
    decreases pieces.len(),
{
    if pieces.len() == 0 {
        Seq::empty()
    } else {
        let piece = pieces.last();
        let earlier = collect(pieces.drop_last());
        if has_char(piece, '=') {
            put(earlier, before(piece, '='), after(piece, '='))
        } else {
            earlier
        }
    }
}

/// The pairs of a query text.
pub open spec fn pairs_of(query: Seq<char>) -> Seq<(Seq<char>, Seq<char>)> {
    collect(split(query, '&'))
}

/// The port of a host: the number between its first colon and its second,
/// or the scheme's own where the host has no colon. `None` where the text
/// there is no 16-bit number.
pub open spec fn port_of(host: Seq<char>, scheme: SchemeView) -> Option<u16> {
    if has_char(host, ':') {
        parse_u16(before(after(host, ':'), ':'))
    } else {
        Some(default_port(scheme))
    }
}

/// The URL of an inline document: `rest` is what follows `data:`.
pub open spec fn data_url(rest: Seq<char>, show_source: bool) -> UrlView {
    UrlView {
        scheme: SchemeView::Data(before(rest, ',')),
        host: Seq::empty(),
        path: Seq::empty(),
        queries: Seq::empty(),
        headers: Seq::empty(),
        port: 0,
        method: Method::Get,
        show_source,
        data: rest,
    }
}

/// The URL of the blank page.
pub open spec fn blank_url(show_source: bool) -> UrlView {
    UrlView {
        scheme: SchemeView::AboutBlank,
        host: Seq::empty(),
        path: Seq::empty(),
        queries: Seq::empty(),
        headers: Seq::empty(),
        port: 0,
        method: Method::Get,
        show_source,
        data: Seq::empty(),
    }
}

/// The URL that `scheme://host[:port][/path][?query]` stands for.
pub open spec fn parse_located(s: Seq<char>, show_source: bool) -> Result<UrlView, UrlParseError> {
    let at = find(s, separator());
    match scheme_of(s.take(at as int)) {
        None => Err(UrlParseError::UnsupportedScheme),
        Some(scheme) => {
            let rest = s.skip((at + separator().len()) as int);
            let host = host_of(rest);
            if !has_seq(s, separator()) {
                Err(UrlParseError::MalformedHost)
            } else if is_network(scheme) && host.len() == 0 {
                Err(UrlParseError::MalformedHost)
            } else {
                match port_of(host, scheme) {
                    None => Err(UrlParseError::InvalidPort),
                    Some(port) => {
                        if is_network(scheme) && port == 0 {
                            Err(UrlParseError::InvalidPort)
                        } else {
                            Ok(
                                UrlView {
                                    scheme,
                                    host,
                                    path: path_of(rest),
                                    queries: pairs_of(query_of(rest)),
                                    headers: Seq::empty(),
                                    port,
                                    method: Method::Get,
                                    show_source,
                                    data: Seq::empty(),
                                },
                            )
                        }
                    },
                }
            }
        },
    }
}

/// `input` without the `view-source:` at its front.
pub open spec fn without_source_prefix(input: Seq<char>) -> Seq<char> {
    if has_prefix(input, source_prefix()) {
        input.skip(source_prefix().len() as int)
    } else {
        input
    }
}

/// The URL that `input` stands for, or why it stands for none.
pub open spec fn parse_url(input: Seq<char>) -> Result<UrlView, UrlParseError> {
    let show_source = has_prefix(input, source_prefix());
    let s = without_source_prefix(input);
    if s.len() == 0 {
        Err(UrlParseError::EmptyUrl)
    } else if has_prefix(s, data_prefix()) {
        Ok(data_url(s.skip(data_prefix().len() as int), show_source))
    } else if s == "about:blank"@ {
        Ok(blank_url(show_source))
    } else {
        parse_located(s, show_source)
    }
}

/// The text of one query pair.
pub open spec fn pair_text(pair: (Seq<char>, Seq<char>)) -> Seq<char> {
    pair.0 + seq!['='] + pair.1
}

/// The texts of the pairs of `q`, with `&` between them.
pub open spec fn join_pairs(q: Seq<(Seq<char>, Seq<char>)>) -> Seq<char>
    decreases q.len(),
{
    if q.len() == 0 {
        Seq::empty()
    } else if q.len() == 1 {
        pair_text(q[0])
    } else {
        join_pairs(q.drop_last()) + seq!['&'] + pair_text(q.last())
    }
}

/// The text of a URL: scheme, `://`, host and path, and then, where there
/// are query pairs, `?` and the pairs.
pub open spec fn build_url(u: UrlView) -> Seq<char> {
    let base = scheme_name(u.scheme) + separator() + u.host + u.path;
    if u.queries.len() == 0 {
        base
    } else {
        base + seq!['?'] + join_pairs(u.queries)
    }
}

/// The invariant of a URL. With a network scheme it has a host and a port
/// above zero. An inline document has no host and no path, and its scheme
/// carries the content type: what stands in front of the first comma of its
/// data.
pub open spec fn url_invariant(u: UrlView) -> bool {
    match u.scheme {
        SchemeView::Http | SchemeView::Https => u.host.len() > 0 && u.port > 0,
        SchemeView::Data(kind) => {
            u.host.len() == 0 && u.path.len() == 0 && kind == before(u.data, ',')
        },
        _ => true,
    }
}

/// What the resolver promises of a URL: the invariant; no query key twice;
/// a path that begins with a slash for the schemes that stand in front of
/// `://`; neither host, path nor port for the others.
pub open spec fn well_formed(u: UrlView) -> bool {
    &&& url_invariant(u)
    &&& distinct_keys(u.queries)
    &&& match u.scheme {
        SchemeView::Http | SchemeView::Https | SchemeView::File => {
            u.path.len() > 0 && u.path[0] == '/'
        },
        _ => u.host.len() == 0 && u.path.len() == 0 && u.port == 0,
    }
}

impl View for Scheme {
    type V = SchemeView;

    open spec fn view(&self) -> SchemeView {
        match self {
            Scheme::Http => SchemeView::Http,
            Scheme::Https => SchemeView::Https,
            Scheme::File => SchemeView::File,
            Scheme::Data(kind) => SchemeView::Data(kind@),
            Scheme::AboutBlank => SchemeView::AboutBlank,
        }
    }
}

impl Clone for Scheme {
    fn clone(&self) -> (r: Self)
        ensures
            r@ == self@,
    {
        match self {
            Scheme::Http => Scheme::Http,
            Scheme::Https => Scheme::Https,
            Scheme::File => Scheme::File,
            Scheme::Data(kind) => Scheme::Data(kind.clone()),
            Scheme::AboutBlank => Scheme::AboutBlank,
        }
    }
}

impl Method {
    /// The name of the method, as it stands in a request line.
    pub fn as_str(&self) -> (r: &'static str)
        ensures
            r@ == method_name(*self),
    {
        match self {
            Method::Post => "POST",
            Method::Put => "PUT",
            Method::Delete => "DELETE",
            Method::Get => "GET",
        }
    }
}

impl Scheme {
    /// The name of the scheme, as it stands in front of `://`.
    pub fn as_str(&self) -> (r: &'static str)
        ensures
            r@ == scheme_name(self@),
    {
        match self {
            Scheme::Http => "http",
            Scheme::Https => "https",
            Scheme::File => "file",
            Scheme::Data(_) => "data",
            Scheme::AboutBlank => "about:blank",
        }
    }

    /// The scheme that `s` names in front of `://`: one of `http`, `https`
    /// and `file`.
    pub fn from_str(s: &str) -> (r: Option<Scheme>)
        ensures
            match r {
                Some(scheme) => scheme_of(s@) == Some(scheme@),
                None => scheme_of(s@) is None,
            },
    {
        let token = to_chars(s);
        if same(&token, &to_chars("http")) {
            Some(Scheme::Http)
        } else if same(&token, &to_chars("https")) {
            Some(Scheme::Https)
        } else if same(&token, &to_chars("file")) {
            Some(Scheme::File)
        } else {
            None
        }
    }

    /// Whether the scheme is served over the network.
    pub fn is_network(&self) -> (r: bool)
        ensures
            r == is_network(self@),
    {
        match self {
            Scheme::Http => true,
            Scheme::Https => true,
            _ => false,
        }
    }

    /// The port of the scheme where the host names none.
    pub fn default_port(&self) -> (r: u16)
        ensures
            r == default_port(self@),
    {
        match self {
            Scheme::Http => 80,
            Scheme::Https => 443,
            _ => 0,
        }
    }
}

impl UrlParseError {
    /// The error in words.
    pub fn message(&self) -> (r: String)
        ensures
            r@ == match *self {
                UrlParseError::EmptyUrl => "URL cannot be empty"@,
                UrlParseError::UnsupportedScheme => "Unsupported URL scheme"@,
                UrlParseError::InvalidPort => "Invalid port number"@,
                UrlParseError::MalformedHost => "Invalid URL format"@,
            },
    {
        match self {
            UrlParseError::EmptyUrl => String::from_str("URL cannot be empty"),
            UrlParseError::UnsupportedScheme => String::from_str("Unsupported URL scheme"),
            UrlParseError::InvalidPort => String::from_str("Invalid port number"),
            UrlParseError::MalformedHost => String::from_str("Invalid URL format"),
        }
    }
}

/// The text of `v` between its first `c` and the next `d` behind that.
fn between(v: &Vec<char>, c: char, d: char) -> (r: Vec<char>)
    ensures
        r@ == before(after(v@, c), d),
{
    let i = find_char(v, c);
    if i == v.len() {
        assert(before(Seq::<char>::empty(), d) =~= Seq::<char>::empty());
        Vec::new()
    } else {
        let j = find_char_from(v, d, i + 1);
        assert(v@.skip(i + 1).take(j - (i + 1)) =~= v@.subrange(i + 1, j as int));
        slice(v, i + 1, j)
    }
}

/// The pairs of a query text.
fn read_pairs(query: &Vec<char>) -> (r: StringMap)
    ensures
        r.entries() == pairs_of(query@),
        r.wf(),
{
    let pieces = split_on(query, '&');
    let mut r = StringMap::new();
    let mut k: usize = 0;
    assert(texts(pieces@).take(0) =~= Seq::<Seq<char>>::empty());
    while k < pieces.len()
        invariant
            k <= pieces.len(),
            r.entries() == collect(texts(pieces@).take(k as int)),
            r.wf(),
        decreases pieces.len() - k,
    {
        let piece = &pieces[k];
        let ghost next = texts(pieces@).take(k + 1);
        assert(next.drop_last() =~= texts(pieces@).take(k as int));
        assert(next.last() == piece@);
        let i = find_char(piece, '=');
        if i < piece.len() {
            let key = from_chars(&slice(piece, 0, i));
            let value = from_chars(&slice(piece, i + 1, piece.len()));
            assert(key@ =~= before(piece@, '='));
            assert(value@ =~= after(piece@, '='));
            r.insert(key, value);
        }
        k += 1;
    }
    assert(texts(pieces@).take(pieces.len() as int) =~= texts(pieces@));
    r
}

/// The port of a host.
fn read_port(host: &Vec<char>, scheme: &Scheme) -> (r: Option<u16>)
    ensures
        r == port_of(host@, scheme@),
{
    if find_char(host, ':') < host.len() {
        read_u16(&between(host, ':', ':'))
    } else {
        Some(scheme.default_port())
    }
}

/// `p` with a slash in front, unless it begins with one.
fn root(p: Vec<char>) -> (r: Vec<char>)
    ensures
        r@ == rooted(p@),
{
    if p.len() > 0 && p[0] == '/' {
        p
    } else {
        let mut r: Vec<char> = Vec::new();
        r.push('/');
        extend(&mut r, &p);
        assert(r@ =~= seq!['/'] + p@);
        r
    }
}

impl View for URL {
    type V = UrlView;

    open spec fn view(&self) -> UrlView {
        UrlView {
            scheme: self.scheme@,
            host: self.host@,
            path: self.path@,
            queries: self.queries.entries(),
            headers: self.headers.entries(),
            port: self.port,
            method: self.method,
            show_source: self.show_source,
            data: self.data@,
        }
    }
}

impl Clone for URL {
    fn clone(&self) -> (r: Self)
        ensures
            r@ == self@,
    {
        URL {
            scheme: self.scheme.clone(),
            host: self.host.clone(),
            path: self.path.clone(),
            queries: self.queries.clone(),
            headers: self.headers.clone(),
            port: self.port,
            method: self.method,
            show_source: self.show_source,
            data: self.data.clone(),
        }
    }
}

impl URL {
    fn new(
        scheme: Scheme,
        host: String,
        path: String,
        port: u16,
        method: Method,
        queries: StringMap,
        headers: StringMap,
        show_source: bool,
        data: String,
    ) -> (r: Self)
        ensures
            r@ == (UrlView {
                scheme: scheme@,
                host: host@,
                path: path@,
                queries: queries.entries(),
                headers: headers.entries(),
                port,
                method,
                show_source,
                data: data@,
            }),
    {
        URL { scheme, host, path, queries, headers, port, method, show_source, data }
    }

    /// Resolves `url`. A `view-source:` prefix is taken off and remembered;
    /// nothing left behind it is `EmptyUrl`. What is left is an inline
    /// document where it begins with `data:`, the blank page where it is
    /// `about:blank`, and otherwise `scheme://host[:port][/path][?query]`.
    ///
    /// There the text in front of the first `://` has to be `http`, `https`
    /// or `file` (`UnsupportedScheme`), and the `://` has to be there
    /// (`MalformedHost`). The host is everything up to the next slash, and
    /// not empty for `http` and `https` (`MalformedHost`). The port is the
    /// number behind the host's first colon (`InvalidPort` where it is none,
    /// or zero for `http` and `https`), or else 80, 443 or 0 by the scheme.
    /// The path is what follows the host up to the first question mark, and
    /// `/` where nothing does. The query pairs are the `key=value` pieces
    /// between `&` behind that question mark.
    pub fn from_string(url: &str) -> (r: Result<URL, UrlParseError>)
        ensures
            match r {
                Ok(u) => parse_url(url@) == Ok::<UrlView, UrlParseError>(u@) && well_formed(u@),
                Err(e) => parse_url(url@) == Err::<UrlView, UrlParseError>(e),
            },
    {
        let input = to_chars(url);
        let marker = to_chars("view-source:");
        let show_source = starts_with(&input, &marker);
        let s = if show_source {
            slice(&input, marker.len(), input.len())
        } else {
            input
        };
        assert(s@ =~= without_source_prefix(url@));
        if s.len() == 0 {
            return Err(UrlParseError::EmptyUrl);
        }
        let data_marker = to_chars("data:");
        if starts_with(&s, &data_marker) {
            let rest = slice(&s, data_marker.len(), s.len());
            let kind = slice(&rest, 0, find_char(&rest, ','));
            return Ok(
                URL::new(
                    Scheme::Data(from_chars(&kind)),
                    String::new(),
                    String::new(),
                    0,
                    Method::Get,
                    StringMap::new(),
                    StringMap::new(),
                    show_source,
                    from_chars(&rest),
                ),
            );
        }
        if same(&s, &to_chars("about:blank")) {
            return Ok(
                URL::new(
                    Scheme::AboutBlank,
                    String::new(),
                    String::new(),
                    0,
                    Method::Get,
                    StringMap::new(),
                    StringMap::new(),
                    show_source,
                    String::new(),
                ),
            );
        }
        let sep = to_chars("://");
        proof {
            reveal_strlit("://");
            lemma_find(s@, sep@);
        }
        let at = find_seq(&s, &sep);
        let token = from_chars(&slice(&s, 0, at));
        let scheme = match Scheme::from_str(token.as_str()) {
            Some(scheme) => scheme,
            None => {
                return Err(UrlParseError::UnsupportedScheme);
            },
        };
        if at == s.len() {
            return Err(UrlParseError::MalformedHost);
        }
        let rest = slice(&s, at + sep.len(), s.len());
        let slash = find_char(&rest, '/');
        let host = slice(&rest, 0, slash);
        if scheme.is_network() && host.len() == 0 {
            return Err(UrlParseError::MalformedHost);
        }
        let port = match read_port(&host, &scheme) {
            Some(port) => port,
            None => {
                return Err(UrlParseError::InvalidPort);
            },
        };
        if scheme.is_network() && port == 0 {
            return Err(UrlParseError::InvalidPort);
        }
        let path = root(between(&rest, '/', '?'));
        let queries = read_pairs(&between(&rest, '?', '?'));
        Ok(
            URL::new(
                scheme,
                from_chars(&host),
                from_chars(&path),
                port,
                Method::Get,
                queries,
                StringMap::new(),
                show_source,
                String::new(),
            ),
        )
    }

    /// The text of the URL: scheme, `://`, host and path, and then, where
    /// there are query pairs, `?` and the pairs as `key=value` with `&`
    /// between them, in the order in which their keys first came.
    pub fn build(&self) -> (r: String)
        ensures
            r@ == build_url(self@),
    {
        let mut out = to_chars(self.scheme.as_str());
        extend(&mut out, &to_chars("://"));
        extend(&mut out, &to_chars(self.host.as_str()));
        extend(&mut out, &to_chars(self.path.as_str()));
        let n = self.queries.len();
        if n > 0 {
            let ghost base = out@;
            let ghost q = self.queries.entries();
            out.push('?');
            let mut i: usize = 0;
            assert(q.take(0) =~= Seq::<(Seq<char>, Seq<char>)>::empty());
            while i < n
                invariant
                    i <= n,
                    n == q.len(),
                    q == self.queries.entries(),
                    out@ == base + seq!['?'] + join_pairs(q.take(i as int)),
                decreases n - i,
            {
                let ghost done = q.take(i as int);
                let ghost next = q.take(i + 1);
                assert(next.drop_last() =~= done);
                assert(next.last() == q[i as int]);
                let ghost so_far = out@;
                if i > 0 {
                    out.push('&');
                }
                extend(&mut out, &to_chars(self.queries.key_at(i).as_str()));
                out.push('=');
                extend(&mut out, &to_chars(self.queries.value_at(i).as_str()));
                assert(out@ =~= base + seq!['?'] + join_pairs(next)) by {
                    if i == 0 {
                        assert(join_pairs(done) =~= Seq::<char>::empty());
                        assert(next[0] == q[0]);
                    }
                }
                i += 1;
            }
            assert(q.take(n as int) =~= q);
        }
        from_chars(&out)
    }
}

/// Why a text is no response.
#[derive(Clone, Copy, Debug, PartialEq, Eq, Structural)]
pub enum ResponseParseError {
    /// The text is empty.
    EmptyResponse,
}

/// Why a transport gave no response.
#[derive(Clone, Copy, Debug, PartialEq, Eq, Structural)]
pub enum TransportError {
    DnsResolutionFailed,
    ConnectFailed,
    SendFailed,
    ReceiveFailed,
    TlsHandshakeFailed,
    FileReadFailed,
    /// The text behind `data:` holds no comma.
    MalformedDataUrl,
    /// The scheme has no transport of the kind that was asked for.
    UnsupportedOperation,
}

/// Why a redirect could not be followed.
#[derive(Clone, Copy, Debug, PartialEq, Eq, Structural)]
pub enum RedirectError {
    /// A redirecting response carries no `Location` header.
    MissingLocationHeader,
    /// The `Location` header holds `://` and is no URL.
    UnresolvableRedirectTarget,
}

/// What a `Response` stands for.
pub struct ResponseView {
    pub status: Seq<char>,
    pub headers: Seq<(Seq<char>, Seq<char>)>,
    pub body: Seq<char>,
}

/// What a server, a file or the URL itself answered.
#[derive(Debug)]
pub struct Response {
    pub status: String,
    pub headers: StringMap,
    pub body: Body,
}

/// Where the reading of a response's lines stands: the headers and the body
/// so far, and whether the blank line behind the headers has come.
pub struct HeadState {
    pub headers: Seq<(Seq<char>, Seq<char>)>,
    pub body: Seq<char>,
    pub done: bool,
}

/// The reading after one more line. An empty line ends the headers. Behind
/// it every line joins the body. In front of it a line with a colon is a
/// header, key and value trimmed, and a line without one is passed over.
pub open spec fn head_step(st: HeadState, line: Seq<char>) -> HeadState {
    if line.len() == 0 {
        HeadState { done: true, ..st }
    } else if st.done {
        HeadState { body: st.body + line, ..st }
    } else if has_char(line, ':') {
        HeadState {
            headers: put(st.headers, trim(before(line, ':')), trim(after(line, ':'))),
            ..st
        }
    } else {
        st
    }
}

/// The reading after the lines of `ls`.
pub open spec fn head_run(ls: Seq<Seq<char>>) -> HeadState
    decreases ls.len(),
{
    if ls.len() == 0 {
        HeadState { headers: Seq::empty(), body: Seq::empty(), done: false }
    } else {
        head_step(head_run(ls.drop_last()), ls.last())
    }
}

/// The response that `text` spells: the first line is the status, the
/// lines behind it are read as headers and body.
pub open spec fn parse_response(text: Seq<char>) -> Result<ResponseView, ResponseParseError> {
    let ls = lines(text);
    if ls.len() == 0 {
        Err(ResponseParseError::EmptyResponse)
    } else {
        let st = head_run(ls.skip(1));
        Ok(ResponseView { status: ls[0], headers: st.headers, body: st.body })
    }
}

/// The status code of a status line: the number that its second token
/// spells. Tokens are parted by white space, and each white-space character
/// parts two of them; so where two white-space characters stand side by side
/// behind the first token, the second token is empty and there is no code.
pub open spec fn status_code(status: Seq<char>) -> Option<u16> {
    match second_token(status) {
        Some(token) => parse_u16(token),
        None => None,
    }
}

/// The response that a transport makes up itself.
pub open spec fn ok_response(body: Seq<char>) -> ResponseView {
    ResponseView { status: "200 OK"@, headers: Seq::empty(), body }
}

/// The page of `about:blank`.
pub open spec fn blank_page() -> Seq<char> {
    "<html><body></body></html>"@
}

/// The response to an inline document: `data` is what followed `data:`, and
/// the body is everything behind its first comma.
pub open spec fn data_response(data: Seq<char>) -> Result<ResponseView, TransportError> {
    if has_char(data, ',') {
        Ok(ok_response(after(data, ',')))
    } else {
        Err(TransportError::MalformedDataUrl)
    }
}

/// The request that goes over the wire for a URL.
pub open spec fn request_text(u: UrlView) -> Seq<char> {
    method_name(u.method) + " "@ + u.path + " HTTP/1.1\r\nHost: "@ + u.host
        + "\r\nConnection: close\r\nAccept-Encoding: identity\r\n\r\n"@
}

/// Where a URL's server is reached: host, colon, port.
pub open spec fn address_text(u: UrlView) -> Seq<char> {
    u.host + ":"@ + decimal(u.port as nat)
}

/// What a `Transfer` stands for.
pub enum TransferView {
    Ready { response: ResponseView },
    Network { secure: bool, host: Seq<char>, address: Seq<char>, message: Seq<char> },
    File { path: Seq<char> },
}

/// What has to happen for a URL to be answered.
#[derive(Debug)]
pub enum Transfer {
    /// Nothing: the URL answers itself.
    Ready { response: Response },
    /// `message` goes to `address`, over TLS as `host` where `secure`, and
    /// what comes back until the peer closes is the text of the response.
    Network { secure: bool, host: String, address: String, message: String },
    /// The file at `path` is read, and what it holds is the body.
    File { path: String },
}

/// What has to happen for `u` to be answered, or why nothing can.
pub open spec fn transfer_of(u: UrlView) -> Result<TransferView, TransportError> {
    match u.scheme {
        SchemeView::Http => Ok(
            TransferView::Network {
                secure: false,
                host: u.host,
                address: address_text(u),
                message: request_text(u),
            },
        ),
        SchemeView::Https => Ok(
            TransferView::Network {
                secure: true,
                host: u.host,
                address: address_text(u),
                message: request_text(u),
            },
        ),
        SchemeView::File => Ok(TransferView::File { path: u.path }),
        SchemeView::Data(_) => match data_response(u.data) {
            Ok(response) => Ok(TransferView::Ready { response }),
            Err(e) => Err(e),
        },
        SchemeView::AboutBlank => Ok(TransferView::Ready { response: ok_response(blank_page()) }),
    }
}

impl View for Response {
    type V = ResponseView;

    open spec fn view(&self) -> ResponseView {
        ResponseView {
            status: self.status@,
            headers: self.headers.entries(),
            body: self.body@,
        }
    }
}

impl View for Transfer {
    type V = TransferView;

    open spec fn view(&self) -> TransferView {
        match self {
            Transfer::Ready { response } => TransferView::Ready { response: response@ },
            Transfer::Network { secure, host, address, message } => TransferView::Network {
                secure: *secure,
                host: host@,
                address: address@,
                message: message@,
            },
            Transfer::File { path } => TransferView::File { path: path@ },
        }
    }
}

impl Clone for Response {
    fn clone(&self) -> (r: Self)
        ensures
            r@ == self@,
    {
        Response {
            status: self.status.clone(),
            headers: self.headers.clone(),
            body: self.body.clone(),
        }
    }
}

impl ResponseParseError {
    /// The error in words.
    pub fn message(&self) -> (r: String)
        ensures
            r@ == "Empty response"@,
    {
        String::from_str("Empty response")
    }
}

impl TransportError {
    /// The error in words.
    pub fn message(&self) -> (r: String)
        ensures
            r@ == match *self {
                TransportError::DnsResolutionFailed => "Failed to resolve host"@,
                TransportError::ConnectFailed => "Failed to connect"@,
                TransportError::SendFailed => "Failed to send request"@,
                TransportError::ReceiveFailed => "Failed to read response"@,
                TransportError::TlsHandshakeFailed => "TLS handshake failed"@,
                TransportError::FileReadFailed => "Failed to read file"@,
                TransportError::MalformedDataUrl => "Invalid data URL format"@,
                TransportError::UnsupportedOperation => "Unsupported URL scheme for request"@,
            },
    {
        match self {
            TransportError::DnsResolutionFailed => String::from_str("Failed to resolve host"),
            TransportError::ConnectFailed => String::from_str("Failed to connect"),
            TransportError::SendFailed => String::from_str("Failed to send request"),
            TransportError::ReceiveFailed => String::from_str("Failed to read response"),
            TransportError::TlsHandshakeFailed => String::from_str("TLS handshake failed"),
            TransportError::FileReadFailed => String::from_str("Failed to read file"),
            TransportError::MalformedDataUrl => String::from_str("Invalid data URL format"),
            TransportError::UnsupportedOperation => String::from_str(
                "Unsupported URL scheme for request",
            ),
        }
    }
}

impl RedirectError {
    /// The error in words.
    pub fn message(&self) -> (r: String)
        ensures
            r@ == match *self {
                RedirectError::MissingLocationHeader => "No Location header found for redirect"@,
                RedirectError::UnresolvableRedirectTarget => "Failed to parse redirect URL"@,
            },
    {
        match self {
            RedirectError::MissingLocationHeader => String::from_str(
                "No Location header found for redirect",
            ),
            RedirectError::UnresolvableRedirectTarget => String::from_str(
                "Failed to parse redirect URL",
            ),
        }
    }
}

impl Response {
    /// The response with these parts.
    pub fn new(status: String, headers: StringMap, body: Body) -> (r: Self)
        ensures
            r@ == (ResponseView { status: status@, headers: headers.entries(), body: body@ }),
    {
        Response { status, headers, body }
    }

    /// The response that a transport makes up itself: `200 OK`, no
    /// headers, and `body`.
    pub fn ok(body: String) -> (r: Self)
        ensures
            r@ == ok_response(body@),
    {
        Response::new(String::from_str("200 OK"), StringMap::new(), Body::new(body))
    }

    /// Reads a response from the text that came over the wire. The first
    /// line is the status line. The lines behind it are headers, `key:
    /// value`, up to the first empty line; a line without a colon is passed
    /// over. The lines behind that, without the empty ones, make the body,
    /// one directly behind the other.
    pub fn from_string(response: &str) -> (r: Result<Response, ResponseParseError>)
        ensures
            match r {
                Ok(res) => parse_response(response@) == Ok::<ResponseView, ResponseParseError>(
                    res@,
                ) && distinct_keys(res@.headers),
                Err(e) => parse_response(response@) == Err::<ResponseView, ResponseParseError>(e),
            },
    {
        let ls = lines_of(&to_chars(response));
        if ls.len() == 0 {
            return Err(ResponseParseError::EmptyResponse);
        }
        let status = from_chars(&ls[0]);
        let mut headers = StringMap::new();
        let mut body: Vec<char> = Vec::new();
        let mut done = false;
        let mut k: usize = 1;
        let ghost rest = texts(ls@).skip(1);
        assert(rest.take(0) =~= Seq::<Seq<char>>::empty());
        while k < ls.len()
            invariant
                1 <= k <= ls.len(),
                rest == texts(ls@).skip(1),
                head_run(rest.take(k - 1)) == (HeadState {
                    headers: headers.entries(),
                    body: body@,
                    done,
                }),
                headers.wf(),
            decreases ls.len() - k,
        {
            let line = &ls[k];
            let ghost next = rest.take(k as int);
            assert(next.drop_last() =~= rest.take(k - 1));
            assert(next.last() == line@);
            if line.len() == 0 {
                done = true;
            } else if done {
                extend(&mut body, line);
            } else {
                let colon = find_char(line, ':');
                if colon < line.len() {
                    let key = trimmed(&slice(line, 0, colon));
                    let value = trimmed(&slice(line, colon + 1, line.len()));
                    assert(line@.subrange(0, colon as int) =~= before(line@, ':'));
                    assert(line@.subrange(colon + 1, line.len() as int) =~= after(line@, ':'));
                    headers.insert(from_chars(&key), from_chars(&value));
                }
            }
            k += 1;
        }
        assert(rest.take(ls.len() - 1) =~= rest);
        Ok(Response::new(status, headers, Body::new(from_chars(&body))))
    }

    /// The status code: the 16-bit number that the second token of the
    /// status line spells, if it spells one. Tokens are parted by white
    /// space of any kind, a tab as well as a space, and each white-space
    /// character parts two of them: `HTTP/1.1 301 Moved` has the code 301,
    /// and a line with two spaces behind the version has none.
    pub fn get_response_code(&self) -> (r: Option<u16>)
        ensures
            r == status_code(self@.status),
    {
        let status = to_chars(self.status.as_str());
        match second_word(&status) {
            Some(token) => read_u16(&token),
            None => None,
        }
    }
}

impl URL {
    /// The request that goes over the wire for this URL: the request line
    /// with the method and the path, the `Host` header, and the two headers
    /// that ask for the connection to be closed and the body to come as it
    /// is.
    pub fn request_text(&self) -> (r: String)
        ensures
            r@ == request_text(self@),
    {
        let mut r = String::from_str(self.method.as_str());
        r.append(" ");
        r.append(self.path.as_str());
        r.append(" HTTP/1.1\r\nHost: ");
        r.append(self.host.as_str());
        r.append("\r\nConnection: close\r\nAccept-Encoding: identity\r\n\r\n");
        r
    }

    /// Where the server of this URL is reached: host, colon, port.
    pub fn address(&self) -> (r: String)
        ensures
            r@ == address_text(self@),
    {
        let mut r = self.host.clone();
        r.append(":");
        r.append(from_chars(&decimal_of(self.port)).as_str());
        r
    }

    /// The response to an inline document, where `data` is what followed
    /// `data:` in its URL: the body is everything behind the first comma.
    pub fn request_data(data: String) -> (r: Result<Response, TransportError>)
        ensures
            match r {
                Ok(res) => data_response(data@) == Ok::<ResponseView, TransportError>(res@),
                Err(e) => data_response(data@) == Err::<ResponseView, TransportError>(e),
            },
    {
        let text = to_chars(data.as_str());
        let comma = find_char(&text, ',');
        if comma < text.len() {
            let body = slice(&text, comma + 1, text.len());
            assert(body@ =~= after(text@, ','));
            Ok(Response::ok(from_chars(&body)))
        } else {
            Err(TransportError::MalformedDataUrl)
        }
    }

    /// The response to `about:blank`: an empty page. Any other URL has no
    /// response of this kind.
    pub fn request_blank(&self) -> (r: Result<Response, TransportError>)
        ensures
            match r {
                Ok(res) => self@.scheme is AboutBlank && res@ == ok_response(blank_page()),
                Err(e) => !(self@.scheme is AboutBlank) && e
                    == TransportError::UnsupportedOperation,
            },
    {
        match self.scheme {
            Scheme::AboutBlank => Ok(
                Response::ok(String::from_str("<html><body></body></html>")),
            ),
            _ => Err(TransportError::UnsupportedOperation),
        }
    }

    /// The response to a `file` URL whose file holds `contents`.
    pub fn request_file(contents: String) -> (r: Response)
        ensures
            r@ == ok_response(contents@),
    {
        Response::ok(contents)
    }

    /// What has to happen for this URL to be answered. An inline document
    /// and the blank page answer themselves; the other schemes say what is
    /// to be sent where, or which file is to be read.
    pub fn request(&self) -> (r: Result<Transfer, TransportError>)
        ensures
            match r {
                Ok(t) => transfer_of(self@) == Ok::<TransferView, TransportError>(t@),
                Err(e) => transfer_of(self@) == Err::<TransferView, TransportError>(e),
            },
    {
        match &self.scheme {
            Scheme::Http => Ok(
                Transfer::Network {
                    secure: false,
                    host: self.host.clone(),
                    address: self.address(),
                    message: self.request_text(),
                },
            ),
            Scheme::Https => Ok(
                Transfer::Network {
                    secure: true,
                    host: self.host.clone(),
                    address: self.address(),
                    message: self.request_text(),
                },
            ),
            Scheme::File => Ok(Transfer::File { path: self.path.clone() }),
            Scheme::Data(_) => match URL::request_data(self.data.clone()) {
                Ok(response) => Ok(Transfer::Ready { response }),
                Err(e) => Err(e),
            },
            _ => match self.request_blank() {
                Ok(response) => Ok(Transfer::Ready { response }),
                Err(e) => Err(e),
            },
        }
    }
}

/// How many redirects a load follows at most.
pub const HOP_BUDGET: u8 = 10;

/// Whether a status code asks for a redirect.
pub open spec fn is_redirect(code: Option<u16>) -> bool {
    code matches Some(c) && 300 <= c < 400
}

/// Where a redirect from `u` to `location` leads: to `u` with `location`
/// for its path where `location` holds no `://`, and else to the URL that
/// `location` spells.
pub open spec fn redirect_target(u: UrlView, location: Seq<char>) -> Result<
    UrlView,
    RedirectError,
> {
    if !has_seq(location, separator()) {
        Ok(UrlView { path: location, ..u })
    } else {
        match parse_url(location) {
            Ok(target) => Ok(target),
            Err(_) => Err(RedirectError::UnresolvableRedirectTarget),
        }
    }
}

/// What follows `response`, the answer to `u`, with `hops` redirects still
/// allowed: `None` where the load ends with this response, the URL to ask
/// next where it goes on.
pub open spec fn next_url(u: UrlView, hops: u8, response: ResponseView) -> Result<
    Option<UrlView>,
    RedirectError,
> {
    if hops == 0 || !is_redirect(status_code(response.status)) {
        Ok(None)
    } else {
        match lookup(response.headers, "Location"@) {
            None => Err(RedirectError::MissingLocationHeader),
            Some(location) => match redirect_target(u, location) {
                Ok(target) => Ok(Some(target)),
                Err(e) => Err(e),
            },
        }
    }
}

/// What a load does next.
#[derive(Clone, Copy, Debug, PartialEq, Eq, Structural)]
pub enum Step {
    /// The loader's URL is to be requested, and the response handed back.
    Follow,
    /// The response that was handed in is the result.
    Finish,
}

/// A load in progress: the URL that is being asked, and how many redirects
/// may still be followed.
#[derive(Debug)]
pub struct Loader {
    pub url: URL,
    pub hops: u8,
}

impl Loader {
    /// Takes the response to the loader's URL and decides how the load goes
    /// on. With no redirect left, or a status code outside 300 to 399, the
    /// load is finished: a status line without a code, a client error and a
    /// server error end it like a success, and nothing is asked again on
    /// their account. Otherwise the `Location` header names the next
    /// URL, and one redirect less is left. A `Location` without `://` is
    /// taken as the new path, as it stands; any other is resolved as a URL.
    /// Where the load does not go on, the loader stays as it was.
    pub fn advance(&mut self, response: &Response) -> (r: Result<Step, RedirectError>)
        ensures
            match r {
                Ok(Step::Follow) => {
                    &&& next_url(old(self).url@, old(self).hops, response@) == Ok::<
                        Option<UrlView>,
                        RedirectError,
                    >(Some(final(self).url@))
                    &&& final(self).hops == old(self).hops - 1
                    &&& url_invariant(old(self).url@) && !(old(self).url@.scheme is Data)
                        ==> url_invariant(final(self).url@)
                },
                Ok(Step::Finish) => {
                    &&& next_url(old(self).url@, old(self).hops, response@) == Ok::<
                        Option<UrlView>,
                        RedirectError,
                    >(None)
                    &&& final(self).url@ == old(self).url@
                    &&& final(self).hops == old(self).hops
                },
                Err(e) => {
                    &&& next_url(old(self).url@, old(self).hops, response@) == Err::<
                        Option<UrlView>,
                        RedirectError,
                    >(e)
                    &&& final(self).url@ == old(self).url@
                    &&& final(self).hops == old(self).hops
                },
            },
    {
        if self.hops == 0 {
            return Ok(Step::Finish);
        }
        match response.get_response_code() {
            Some(code) => {
                if !(code >= 300 && code < 400) {
                    return Ok(Step::Finish);
                }
            },
            None => {
                return Ok(Step::Finish);
            },
        }
        let location = match response.headers.get("Location") {
            Some(location) => location,
            None => {
                return Err(RedirectError::MissingLocationHeader);
            },
        };
        let text = to_chars(location.as_str());
        let sep = to_chars("://");
        proof {
            reveal_strlit("://");
            lemma_find(text@, sep@);
        }
        if find_seq(&text, &sep) == text.len() {
            self.url.path = location.clone();
        } else {
            match URL::from_string(location.as_str()) {
                Ok(target) => {
                    self.url = target;
                },
                Err(_) => {
                    return Err(RedirectError::UnresolvableRedirectTarget);
                },
            }
        }
        self.hops = self.hops - 1;
        Ok(Step::Follow)
    }
}

/// Begins the load of `url`: resolves it, and allows ten redirects. The
/// loader's URL is the first to be requested.
pub fn load(url: &str) -> (r: Result<Loader, UrlParseError>)
    ensures
        match r {
            Ok(loader) => {
                &&& parse_url(url@) == Ok::<UrlView, UrlParseError>(loader.url@)
                &&& well_formed(loader.url@)
                &&& loader.hops == HOP_BUDGET
            },
            Err(e) => parse_url(url@) == Err::<UrlView, UrlParseError>(e),
        },
{
    match URL::from_string(url) {
        Ok(url) => Ok(Loader { url, hops: HOP_BUDGET }),
        Err(e) => Err(e),
    }
}

/// How a load ends where the transport answers the URL `v` with
/// `serve(v)`: `response` is the answer to `u`, and `hops` redirects may
/// still be followed.
pub open spec fn load_result(
    u: UrlView,
    hops: u8,
    response: ResponseView,
    serve: spec_fn(UrlView) -> ResponseView,
) -> Result<ResponseView, RedirectError>
    decreases hops,
{
    match next_url(u, hops, response) {
        Err(e) => Err(e),
        Ok(None) => Ok(response),
        Ok(Some(target)) => if hops > 0 {
            load_result(target, (hops - 1) as u8, serve(target), serve)
        } else {
            Ok(response)
        },
    }
}

/// How many requests such a load makes behind the one that `response`
/// answered.
pub open spec fn load_requests(
    u: UrlView,
    hops: u8,
    response: ResponseView,
    serve: spec_fn(UrlView) -> ResponseView,
) -> nat
    decreases hops,
{
    match next_url(u, hops, response) {
        Ok(Some(target)) => if hops > 0 {
            1 + load_requests(target, (hops - 1) as u8, serve(target), serve)
        } else {
            0
        },
        _ => 0,
    }
}

/// Whatever the transport answers, a load makes no more requests behind
/// the first than it has redirects left: ten at most from the start. A
/// load that ends with a response has either spent all of them or ends
/// with a response that asks for no redirect.
pub proof fn law_redirects_are_bounded(
    u: UrlView,
    hops: u8,
    response: ResponseView,
    serve: spec_fn(UrlView) -> ResponseView,
)
    ensures
        load_requests(u, hops, response, serve) <= hops,
        load_result(u, hops, response, serve) matches Ok(last) ==> load_requests(
            u,
            hops,
            response,
            serve,
        ) == hops || !is_redirect(status_code(last.status)),
    decreases hops,
{
    if let Ok(Some(target)) = next_url(u, hops, response) {
        law_redirects_are_bounded(target, (hops - 1) as u8, serve(target), serve);
    }
}

} // verus!
