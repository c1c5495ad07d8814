//! What holds of a URL that is read, written and read again.

use vstd::prelude::*;
use crate::chars::{
    after, before, find, has_char, has_prefix, has_seq, index_of, lacks, lemma_cut,
    lemma_find_is, lemma_index_of_concat, lemma_parts_lack, lemma_split_concat,
    lemma_split_pieces, lemma_whole, split,
};
use crate::dict::{
    as_map, distinct_keys, key_index, lemma_key_index, lemma_key_index_is, lemma_put, put,
};
use crate::url::{
    build_url, collect, host_of, is_network, join_pairs, pair_text, pairs_of, parse_located,
    parse_url, path_of, port_of, query_of, rooted, scheme_name, scheme_of, separator,
    without_source_prefix, SchemeView, UrlParseError, UrlView,
};

verus! {

/// Whether a pair can stand in a query text and be read back: its key holds
/// none of `=`, `&` and `?`, its value none of `&` and `?`.
pub open spec fn clean_pair(p: (Seq<char>, Seq<char>)) -> bool {
    &&& lacks(p.0, '=')
    &&& lacks(p.0, '&')
    &&& lacks(p.0, '?')
    &&& lacks(p.1, '&')
    &&& lacks(p.1, '?')
}

/// Whether each pair of `q` is clean.
pub open spec fn clean_pairs(q: Seq<(Seq<char>, Seq<char>)>) -> bool {
    forall|i: int| 0 <= i < q.len() ==> clean_pair(#[trigger] q[i])
}

/// The texts of the pairs of `q`, in order.
pub open spec fn pair_texts(q: Seq<(Seq<char>, Seq<char>)>) -> Seq<Seq<char>> {
    Seq::new(q.len(), |i: int| pair_text(q[i]))
}

/// Whether a scheme is one that stands in front of `://`.
pub open spec fn is_located(scheme: SchemeView) -> bool {
    scheme is Http || scheme is Https || scheme is File
}

/// What the resolver gives for a text in which the query, if there is one,
/// comes behind the path.
pub open spec fn canonical(u: UrlView) -> bool {
    &&& is_located(u.scheme)
    &&& lacks(u.host, '/')
    &&& lacks(u.host, '?')
    &&& u.path.len() > 0
    &&& u.path[0] == '/'
    &&& lacks(u.path, '?')
    &&& port_of(u.host, u.scheme) == Some(u.port)
    &&& is_network(u.scheme) ==> u.host.len() > 0 && u.port != 0
    &&& clean_pairs(u.queries)
    &&& distinct_keys(u.queries)
}

/// Two texts that lack a character lack it together.
proof fn lemma_concat_lacks(a: Seq<char>, b: Seq<char>, d: char)
    requires
        lacks(a, d),
        lacks(b, d),
    ensures
        lacks(a + b, d),
{
    assert forall|j: int| 0 <= j < (a + b).len() implies (a + b)[j] != d by {
        if j < a.len() {
            assert((a + b)[j] == a[j]);
        } else {
            assert((a + b)[j] == b[j - a.len()]);
        }
    }
}

/// The text of a pair lacks what key and value lack, but for `=`.
proof fn lemma_pair_text_lacks(p: (Seq<char>, Seq<char>), d: char)
    requires
        lacks(p.0, d),
        lacks(p.1, d),
        d != '=',
    ensures
        lacks(pair_text(p), d),
{
    lemma_concat_lacks(p.0, seq!['='], d);
    lemma_concat_lacks(p.0 + seq!['='], p.1, d);
}

/// Joined pairs lack what every key and value lacks, but for `=` and `&`.
proof fn lemma_join_lacks(q: Seq<(Seq<char>, Seq<char>)>, d: char)
    requires
        forall|i: int| 0 <= i < q.len() ==> lacks((#[trigger] q[i]).0, d) && lacks(q[i].1, d),
        d != '=',
        d != '&',
    ensures
        lacks(join_pairs(q), d),
    decreases q.len(),
{
    if q.len() == 1 {
        lemma_pair_text_lacks(q[0], d);
    } else if q.len() > 1 {
        let front = q.drop_last();
        assert forall|i: int| 0 <= i < front.len() implies lacks((#[trigger] front[i]).0, d)
            && lacks(front[i].1, d) by {
            assert(front[i] == q[i]);
        }
        lemma_join_lacks(front, d);
        lemma_pair_text_lacks(q.last(), d);
        lemma_concat_lacks(join_pairs(front), seq!['&'], d);
        lemma_concat_lacks(join_pairs(front) + seq!['&'], pair_text(q.last()), d);
    }
}

/// A clean pair put among clean pairs leaves clean pairs.
proof fn lemma_put_clean(e: Seq<(Seq<char>, Seq<char>)>, k: Seq<char>, v: Seq<char>)
    requires
        clean_pairs(e),
        clean_pair((k, v)),
    ensures
        clean_pairs(put(e, k, v)),
{
    lemma_key_index(e, k);
    let f = put(e, k, v);
    let at = key_index(e, k) as int;
    assert forall|i: int| 0 <= i < f.len() implies clean_pair(#[trigger] f[i]) by {
        if i != at {
            assert(f[i] == e[i]);
        }
    }
}

/// The pairs that pieces without `&` and `?` give are clean, and no key
/// comes twice.
proof fn lemma_collect_clean(pieces: Seq<Seq<char>>)
    requires
        forall|k: int|
            0 <= k < pieces.len() ==> lacks(#[trigger] pieces[k], '&') && lacks(pieces[k], '?'),
    ensures
        clean_pairs(collect(pieces)),
        distinct_keys(collect(pieces)),
    decreases pieces.len(),
{
    if pieces.len() > 0 {
        let front = pieces.drop_last();
        let piece = pieces.last();
        assert forall|k: int| 0 <= k < front.len() implies lacks(#[trigger] front[k], '&')
            && lacks(front[k], '?') by {
            assert(front[k] == pieces[k]);
        }
        lemma_collect_clean(front);
        if has_char(piece, '=') {
            lemma_parts_lack(piece, '=', '&');
            lemma_parts_lack(piece, '=', '?');
            lemma_put_clean(collect(front), before(piece, '='), after(piece, '='));
            lemma_put(collect(front), before(piece, '='), after(piece, '='));
        }
    }
}

/// Pairs joined by `&` split into their texts again.
proof fn lemma_split_join(q: Seq<(Seq<char>, Seq<char>)>)
    requires
        q.len() >= 1,
        clean_pairs(q),
    ensures
        split(join_pairs(q), '&') == pair_texts(q),
    decreases q.len(),
{
    lemma_pair_text_lacks(q.last(), '&');
    lemma_whole(pair_text(q.last()), '&');
    if q.len() == 1 {
        assert(split(join_pairs(q), '&') =~= pair_texts(q));
    } else {
        let front = q.drop_last();
        assert forall|i: int| 0 <= i < front.len() implies clean_pair(#[trigger] front[i]) by {
            assert(front[i] == q[i]);
        }
        lemma_split_join(front);
        lemma_split_concat(join_pairs(front), pair_text(q.last()), '&');
        assert(pair_texts(front) + seq![pair_text(q.last())] =~= pair_texts(q));
    }
}

/// The texts of clean pairs with distinct keys give the pairs again.
proof fn lemma_collect_texts(q: Seq<(Seq<char>, Seq<char>)>)
    requires
        clean_pairs(q),
        distinct_keys(q),
    ensures
        collect(pair_texts(q)) == q,
    decreases q.len(),
{
    if q.len() == 0 {
        assert(collect(pair_texts(q)) =~= q);
    } else {
        let front = q.drop_last();
        let (k, v) = q.last();
        assert forall|i: int| 0 <= i < front.len() implies clean_pair(#[trigger] front[i]) by {
            assert(front[i] == q[i]);
        }
        assert(distinct_keys(front)) by {
            assert forall|i: int, j: int| 0 <= i < j < front.len() implies front[i].0
                != front[j].0 by {
                assert(front[i] == q[i] && front[j] == q[j]);
            }
        }
        lemma_collect_texts(front);
        assert(pair_texts(q).drop_last() =~= pair_texts(front));
        assert(pair_texts(q).last() == pair_text(q.last()));
        lemma_cut(k, v, '=');
        assert forall|j: int| 0 <= j < front.len() implies front[j].0 != k by {
            assert(front[j] == q[j]);
        }
        lemma_key_index_is(front, k, front.len() as int);
        assert(front.push((k, v)) =~= q);
    }
}

/// Reading the text of clean pairs with distinct keys gives the pairs.
pub proof fn lemma_pairs_of_join(q: Seq<(Seq<char>, Seq<char>)>)
    requires
        clean_pairs(q),
        distinct_keys(q),
    ensures
        pairs_of(join_pairs(q)) == q,
{
    if q.len() == 0 {
        let none = Seq::<char>::empty();
        lemma_whole(none, '&');
        lemma_whole(none, '=');
        let pieces = seq![none];
        assert(pieces.drop_last() =~= Seq::<Seq<char>>::empty());
        assert(collect(pieces.drop_last()) =~= q);
        assert(!has_char(pieces.last(), '='));
    } else {
        lemma_split_join(q);
        lemma_collect_texts(q);
    }
}

/// What the resolver gives is canonical, where the scheme is one that
/// stands in front of `://` and no question mark stands in the host.
pub proof fn lemma_parse_canonical(input: Seq<char>)
    requires
        parse_url(input) matches Ok(u) && is_located(u.scheme) && lacks(u.host, '?'),
    ensures
        parse_url(input) matches Ok(u) && canonical(u),
{
    let u = parse_url(input)->Ok_0;
    let s = without_source_prefix(input);
    assert(parse_located(s, u.show_source) == Ok::<UrlView, UrlParseError>(u));
    let at = find(s, separator());
    let rest = s.skip((at + separator().len()) as int);
    assert(u.host == host_of(rest));
    assert(u.path == path_of(rest));
    assert(u.queries == pairs_of(query_of(rest)));
    lemma_parts_lack(rest, '/', '/');
    let inner = before(after(rest, '/'), '?');
    lemma_parts_lack(after(rest, '/'), '?', '?');
    assert(lacks(rooted(inner), '?')) by {
        if !(inner.len() > 0 && inner[0] == '/') {
            lemma_concat_lacks(seq!['/'], inner, '?');
        }
    }
    let query = query_of(rest);
    lemma_parts_lack(after(rest, '?'), '?', '?');
    lemma_split_pieces(query, '&', '?');
    lemma_collect_clean(split(query, '&'));
}

/// What stands behind the path in the text of a URL with the pairs `q`.
pub open spec fn query_tail(q: Seq<(Seq<char>, Seq<char>)>) -> Seq<char> {
    if q.len() == 0 {
        Seq::empty()
    } else {
        seq!['?'] + join_pairs(q)
    }
}

/// A text that begins with the name of a located scheme and `://` is read
/// as a URL of that scheme, and what follows `://` as host, path and query.
proof fn lemma_head(scheme: SchemeView, rest: Seq<char>)
    requires
        is_located(scheme),
    ensures
        ({
            let text = scheme_name(scheme) + separator() + rest;
            &&& parse_url(text) == parse_located(text, false)
            &&& scheme_of(text.take(find(text, separator()) as int)) == Some(scheme)
            &&& has_seq(text, separator())
            &&& text.skip((find(text, separator()) + separator().len()) as int) == rest
        }),
{
    reveal_strlit("http");
    reveal_strlit("https");
    reveal_strlit("file");
    reveal_strlit("://");
    reveal_strlit("view-source:");
    reveal_strlit("data:");
    reveal_strlit("about:blank");
    let name = scheme_name(scheme);
    let sep = separator();
    let text = name + sep + rest;
    let n = name.len() as int;
    assert(text[0] == name[0]);
    assert(!has_prefix(text, "view-source:"@)) by {
        if has_prefix(text, "view-source:"@) {
            assert(text.take(12)[0] == text[0]);
        }
    }
    assert(!has_prefix(text, "data:"@)) by {
        if has_prefix(text, "data:"@) {
            assert(text.take(5)[0] == text[0]);
        }
    }
    assert(text != "about:blank"@);
    assert forall|j: int| 0 <= j < n implies !has_prefix(text.skip(j), sep) by {
        assert(text[j] == name[j]);
        if has_prefix(text.skip(j), sep) {
            assert(text.skip(j).take(3)[0] == text[j]);
        }
    }
    assert(text.skip(n).take(3) =~= sep);
    lemma_find_is(text, sep, n);
    assert(text.take(n) =~= name);
    assert(text.skip(n + 3) =~= rest);
}

/// Host, path and query pairs are read back from the text that joins them.
proof fn lemma_rest(host: Seq<char>, path: Seq<char>, q: Seq<(Seq<char>, Seq<char>)>)
    requires
        lacks(host, '/'),
        lacks(host, '?'),
        path.len() > 0,
        path[0] == '/',
        lacks(path, '?'),
        clean_pairs(q),
        distinct_keys(q),
    ensures
        host_of(host + path + query_tail(q)) == host,
        path_of(host + path + query_tail(q)) == rooted(path.skip(1)),
        pairs_of(query_of(host + path + query_tail(q))) == q,
{
    let tail = query_tail(q);
    let rest = host + path + tail;
    let behind = path + tail;
    assert(rest =~= host + behind);
    assert(behind[0] == '/');
    lemma_index_of_concat(host, behind, '/');
    assert(index_of(behind, '/') == 0);
    assert(rest.take(host.len() as int) =~= host);
    let inner = path.skip(1);
    assert(lacks(inner, '?')) by {
        assert forall|j: int| 0 <= j < inner.len() implies inner[j] != '?' by {
            assert(inner[j] == path[j + 1]);
        }
    }
    assert(rest =~= host + seq!['/'] + (inner + tail));
    lemma_cut(host, inner + tail, '/');
    lemma_concat_lacks(host, path, '?');
    lemma_pairs_of_join(q);
    if q.len() == 0 {
        assert(inner + tail =~= inner);
        lemma_whole(inner, '?');
        assert(rest =~= host + path);
        lemma_whole(rest, '?');
        lemma_whole(Seq::<char>::empty(), '?');
        assert(join_pairs(q) =~= Seq::<char>::empty());
    } else {
        assert(inner + tail =~= inner + seq!['?'] + join_pairs(q));
        lemma_cut(inner, join_pairs(q), '?');
        assert(rest =~= (host + path) + seq!['?'] + join_pairs(q));
        lemma_cut(host + path, join_pairs(q), '?');
        assert forall|i: int| 0 <= i < q.len() implies lacks((#[trigger] q[i]).0, '?') && lacks(
            q[i].1,
            '?',
        ) by {
            assert(clean_pair(q[i]));
        }
        lemma_join_lacks(q, '?');
        lemma_whole(join_pairs(q), '?');
    }
}

/// For every canonical URL, that is for every scheme among `http`, `https`
/// and `file`, every host without slash and question mark that gives the
/// URL's port, every rooted path without question mark and every list of
/// clean pairs with distinct keys: the text `scheme://host/path?k1=v1&k2=v2`
/// that `build` gives is read as a URL with that scheme, host and port and
/// with exactly these pairs. The path is read back without its first slash
/// and rooted again, so it is the same unless it began with two slashes.
pub proof fn law_canonical_text_reads_back(u: UrlView)
    requires
        canonical(u),
    ensures
        parse_url(build_url(u)) matches Ok(v) && v.scheme == u.scheme && v.host == u.host
            && v.port == u.port && v.queries == u.queries && v.path == rooted(u.path.skip(1))
            && !v.show_source,
{
    let rest = u.host + u.path + query_tail(u.queries);
    let text = scheme_name(u.scheme) + separator() + rest;
    assert(build_url(u) =~= text);
    lemma_head(u.scheme, rest);
    lemma_rest(u.host, u.path, u.queries);
}

/// For every text that the resolver reads as a URL with one of the schemes
/// `http`, `https` and `file`, and in which no question mark stands in the
/// host: the text that `build` gives for that URL is read as a URL again,
/// with the same scheme, host and port, and with the same query pairs; so
/// the two hold the same mapping from keys to values.
pub proof fn law_build_keeps_queries(input: Seq<char>)
    requires
        parse_url(input) matches Ok(u) && is_located(u.scheme) && lacks(u.host, '?'),
    ensures
        ({
            let u = parse_url(input)->Ok_0;
            &&& parse_url(build_url(u)) matches Ok(v) && v.scheme == u.scheme && v.host
                == u.host && v.port == u.port && v.queries == u.queries && as_map(v.queries)
                == as_map(u.queries)
        }),
{
    lemma_parse_canonical(input);
    law_canonical_text_reads_back(parse_url(input)->Ok_0);
}

} // verus!
