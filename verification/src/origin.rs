//! Origin validation for WebSocket upgrades.
//!
//! A browser attaches an `Origin` header to a WebSocket handshake. A page on any
//! site can open a WebSocket to an endpoint with the credentials of its visitor,
//! unless the server checks that header. [`origin_allowed_in_parts`] holds it
//! against an allow-list before the upgrade.
//!
//! Scheme, host and port have to match exactly after normalization
//! ([`normalize_origin`]): scheme and host in lower case, default ports omitted.
//! There is no suffix, prefix or wildcard matching.
use crate::headers::{header, header_text, header_texts};
use crate::text::{
    all_in, all_lowered, all_to_lower, cut, find, found, law_cutting, law_no_cut, law_trimming,
    lemma_found, lemma_no_mark_before, lowered, occurs_not_before, opt_str, same, split_once,
    to_chars, to_text, trim, trimmed, trimmed_end, trimmed_start, CharSet,
};
use http::request::Parts;
use vstd::prelude::*;
use vstd::slice::slice_subrange;

verus! {

/// The number that decimal digits stand for.
pub open spec fn number(digits: Seq<char>) -> int
    decreases digits.len(),
{
    if digits.len() == 0 {
        0
    } else {
        number(digits.drop_last()) * 10 + (digits.last() as int - '0' as int)
    }
}

/// Whether `s` holds decimal digits alone.
pub open spec fn all_digits(s: Seq<char>) -> bool {
    forall|i: int| 0 <= i < s.len() ==> '0' <= #[trigger] s[i] <= '9'
}

/// The digits of a port: all of it, but for a plus sign in front.
pub open spec fn port_digits(port: Seq<char>) -> Seq<char> {
    if port.len() > 0 && port[0] == '+' {
        port.skip(1)
    } else {
        port
    }
}

/// The number of a port, where it is one.
pub open spec fn port_number(port: Seq<char>) -> Option<int> {
    let digits = port_digits(port);
    if digits.len() > 0 && all_digits(digits) && number(digits) <= u16::MAX {
        Some(number(digits))
    } else {
        None
    }
}

/// Whether `port` is the default port of `scheme`.
pub open spec fn default_port(scheme: Seq<char>, port: Seq<char>) -> bool {
    match port_number(port) {
        Some(p) => {
            ||| p == 80 && (scheme == "http"@ || scheme == "ws"@)
            ||| p == 443 && (scheme == "https"@ || scheme == "wss"@)
        },
        None => false,
    }
}

/// The host and the port of an authority. A host in brackets keeps them; its
/// port follows the closing one.
pub open spec fn authority_parts(authority: Seq<char>) -> (Seq<char>, Option<Seq<char>>) {
    if authority.len() > 0 && authority[0] == '[' {
        match found(authority, seq![']'], 0) {
            Some(close) => {
                let rest = authority.skip(close + 1);
                if rest.len() > 0 && rest[0] == ':' {
                    (authority.take(close + 1), Some(rest.skip(1)))
                } else {
                    (authority, None)
                }
            },
            None => (authority, None),
        }
    } else {
        match cut(authority, seq![':']) {
            Some((host, port)) => (host, Some(port)),
            None => (authority, None),
        }
    }
}

/// How a normalized origin shows a port: not at all where it is empty or the
/// default port of the scheme.
pub open spec fn shown_port(scheme: Seq<char>, port: Option<Seq<char>>) -> Seq<char> {
    match port {
        Some(p) => if p.len() > 0 && !default_port(scheme, p) {
            seq![':'] + p
        } else {
            Seq::empty()
        },
        None => Seq::empty(),
    }
}

/// What stands between scheme and host.
pub open spec fn mark() -> Seq<char> {
    seq![':', '/', '/']
}

/// The normalized form of an origin.
pub open spec fn normalized(origin: Seq<char>) -> Seq<char> {
    let text = trimmed(origin, CharSet::WhiteSpace);
    match cut(text, mark()) {
        Some((scheme, authority)) => {
            let (host, port) = authority_parts(authority);
            all_lowered(scheme) + mark() + all_lowered(host) + shown_port(all_lowered(scheme), port)
        },
        None => all_lowered(text),
    }
}

/// Whether an origin may open a connection under an allow-list.
pub open spec fn allowed(origin: Option<Seq<char>>, list: Seq<Seq<char>>) -> bool {
    list.len() == 0 || match origin {
        Some(text) => exists|i: int|
            0 <= i < list.len() && normalized(#[trigger] list[i]) == normalized(text),
        None => false,
    }
}

/// The texts of a list of strings.
pub open spec fn texts(list: Seq<String>) -> Seq<Seq<char>> {
    Seq::new(list.len(), |i: int| list[i]@)
}

proof fn lemma_number_grows(digits: Seq<char>, i: int)
    requires
        all_digits(digits),
        0 <= i <= digits.len(),
    ensures
        0 <= number(digits.take(i)) <= number(digits),
    decreases digits.len(),
{
    if digits.len() > 0 {
        let fewer = digits.drop_last();
        assert forall|j: int| 0 <= j < fewer.len() implies '0' <= #[trigger] fewer[j] <= '9' by {
            assert(fewer[j] == digits[j]);
        }
        assert('0' <= digits[digits.len() - 1] <= '9');
        if i < digits.len() {
            lemma_number_grows(fewer, i);
            assert(fewer.take(i) == digits.take(i));
        } else {
            lemma_number_grows(fewer, fewer.len() as int);
            assert(fewer.take(fewer.len() as int) == fewer);
            assert(digits.take(i) == digits);
        }
    } else {
        assert(digits.take(i) == digits);
    }
}

/// The number of a port, where it is one.
pub fn parse_port(port: &[char]) -> (r: Option<u16>)
    ensures
        match r {
            Some(p) => port_number(port@) == Some(p as int),
            None => port_number(port@) is None,
        },
{
    let n: usize = port.len();
    let digits: &[char] = if n > 0 && port[0] == '+' {
        slice_subrange(port, 1, n)
    } else {
        port
    };
    assert(digits@ == port_digits(port@));
    let k: usize = digits.len();
    if k == 0 {
        return None;
    }
    let mut value: u32 = 0;
    for i in 0..k
        invariant
            k == digits@.len(),
            k > 0,
            digits@ == port_digits(port@),
            value <= 65535,
            value == number(digits@.take(i as int)),
            forall|j: int| 0 <= j < i ==> '0' <= #[trigger] digits@[j] <= '9',
    {
        let c = digits[i];
        if c < '0' || c > '9' {
            return None;
        }
        assert(digits@.take(i + 1).drop_last() == digits@.take(i as int));
        value = value * 10 + (c as u32 - 48);
        if value > 65535 {
            proof {
                if all_digits(digits@) {
                    lemma_number_grows(digits@, i + 1);
                }
            }
            return None;
        }
    }
    assert(digits@.take(k as int) == digits@);
    Some(value as u16)
}

/// True when `port` is the scheme's default (omitted during normalization).
pub fn is_default_port(scheme: &[char], port: &[char]) -> (r: bool)
    ensures
        r == default_port(scheme@, port@),
{
    match parse_port(port) {
        Some(p) => {
            (p == 80 && (same(scheme, &to_chars("http")) || same(scheme, &to_chars("ws")))) || (p
                == 443 && (same(scheme, &to_chars("https")) || same(scheme, &to_chars("wss"))))
        },
        None => false,
    }
}

/// The text of an optional slice.
pub open spec fn opt_chars(o: Option<&[char]>) -> Option<Seq<char>> {
    match o {
        Some(s) => Some(s@),
        None => None,
    }
}

/// Splits `host[:port]`, handling bracketed IPv6 hosts (`[::1]:8080`).
pub fn split_authority<'a>(authority: &'a [char]) -> (r: (&'a [char], Option<&'a [char]>))
    ensures
        (r.0@, opt_chars(r.1)) == authority_parts(authority@),
{
    let n: usize = authority.len();
    if n > 0 && authority[0] == '[' {
        let closing: [char; 1] = [']'];
        assert(closing@ == seq![']']);
        match find(authority, &closing) {
            Some(close) => {
                proof {
                    lemma_found(authority@, seq![']'], 0);
                }
                let ghost rest = authority@.skip(close + 1);
                if close + 1 < n && authority[close + 1] == ':' {
                    assert(rest[0] == ':');
                    let host = slice_subrange(authority, 0, close + 1);
                    let port = slice_subrange(authority, close + 2, n);
                    assert(port@ == rest.skip(1));
                    (host, Some(port))
                } else {
                    (authority, None)
                }
            },
            None => (authority, None),
        }
    } else {
        let colon: [char; 1] = [':'];
        assert(colon@ == seq![':']);
        match split_once(authority, &colon) {
            Some((host, port)) => (host, Some(port)),
            None => (authority, None),
        }
    }
}

/// Normalizes an `Origin` header value for comparison.
///
/// Scheme and host are lowercased and the default port of the scheme is omitted.
/// Values without a `scheme://` prefix are only lowercased.
pub fn normalize_origin(origin: &str) -> (r: String)
    ensures
        r@ == normalized(origin@),
{
    let chars = to_chars(origin);
    let text = trim(&chars, CharSet::WhiteSpace);
    let between: [char; 3] = [':', '/', '/'];
    assert(between@ == mark());
    match split_once(text, &between) {
        Some((scheme, authority)) => {
            let scheme = all_to_lower(scheme);
            let (host, port) = split_authority(authority);
            let mut out: Vec<char> = Vec::new();
            out.extend_from_slice(&scheme);
            out.extend_from_slice(&between);
            out.extend_from_slice(&all_to_lower(host));
            if let Some(port) = port {
                if port.len() > 0 && !is_default_port(&scheme, port) {
                    out.push(':');
                    out.extend_from_slice(port);
                }
            }
            assert(out@ == normalized(origin@));
            to_text(&out)
        },
        None => to_text(&all_to_lower(text)),
    }
}

/// Decides whether a WebSocket upgrade request may proceed, based on its
/// `Origin`.
///
/// An empty allow-list allows everything, even a missing origin. Otherwise the
/// origin must be present and match an entry exactly after normalization.
pub fn origin_allowed(origin: Option<&str>, allowed_origins: &[String]) -> (r: bool)
    ensures
        r == allowed(opt_str(origin), texts(allowed_origins@)),
{
    let n: usize = allowed_origins.len();
    if n == 0 {
        return true;
    }
    match origin {
        Some(text) => {
            let wanted = to_chars(&normalize_origin(text));
            for i in 0..n
                invariant
                    n == allowed_origins@.len(),
                    n > 0,
                    origin == Some(text),
                    wanted@ == normalized(text@),
                    forall|j: int|
                        0 <= j < i ==> normalized(#[trigger] texts(allowed_origins@)[j]) != wanted@,
            {
                assert(texts(allowed_origins@)[i as int] == allowed_origins@[i as int]@);
                if same(&to_chars(&normalize_origin(allowed_origins[i].as_str())), &wanted) {
                    return true;
                }
            }
            false
        },
        None => false,
    }
}

/// [`origin_allowed`] over the `Origin` header of an upgrade request. Call this
/// before the upgrade; a `false` result should map to `403 Forbidden`.
pub fn origin_allowed_in_parts(parts: &Parts, allowed_origins: &[String]) -> (r: bool)
    ensures
        r == allowed(header_text(*parts, "origin"@), texts(allowed_origins@)),
{
    origin_allowed(header(parts, "origin"), allowed_origins)
}

/// An origin in its parts.
pub ghost struct Origin {
    pub scheme: Seq<char>,
    pub host: Seq<char>,
    pub port: Option<Seq<char>>,
}

/// Whether `host` is in brackets, with no closing bracket inside.
pub open spec fn bracketed(host: Seq<char>) -> bool {
    &&& host.len() >= 2
    &&& host[0] == '['
    &&& host.last() == ']'
    &&& forall|i: int| 0 <= i < host.len() - 1 ==> #[trigger] host[i] != ']'
}

/// Whether `host` is a name or an address without colons and brackets.
pub open spec fn unbracketed(host: Seq<char>) -> bool {
    &&& host.len() > 0
    &&& host[0] != '['
    &&& !host.contains(':')
}

/// A port as it is written behind a host.
pub open spec fn written_port(port: Option<Seq<char>>) -> Seq<char> {
    match port {
        Some(p) => seq![':'] + p,
        None => Seq::empty(),
    }
}

impl Origin {
    /// The origin as it is written.
    pub open spec fn text(self) -> Seq<char> {
        self.scheme + mark() + self.host + written_port(self.port)
    }

    /// Whether scheme and host are of the form that an origin has.
    pub open spec fn plain(self) -> bool {
        &&& self.scheme.len() > 0
        &&& !self.scheme.contains(':')
        &&& !CharSet::WhiteSpace.has(self.scheme[0])
        &&& bracketed(self.host) || unbracketed(self.host)
        &&& !CharSet::WhiteSpace.has(self.text().last())
    }

    /// The scheme in lower case.
    pub open spec fn shown_scheme(self) -> Seq<char> {
        all_lowered(self.scheme)
    }

    /// The host in lower case.
    pub open spec fn shown_host(self) -> Seq<char> {
        all_lowered(self.host)
    }

    /// The port as far as it counts.
    pub open spec fn shown_port(self) -> Seq<char> {
        shown_port(self.shown_scheme(), self.port)
    }
}

proof fn lemma_authority(host: Seq<char>, port: Option<Seq<char>>)
    requires
        bracketed(host) || unbracketed(host),
    ensures
        authority_parts(host + written_port(port)) == (host, port),
{
    let tail = written_port(port);
    let authority = host + tail;
    let h = host.len() as int;
    assert(authority[0] == host[0]);
    let sep = if bracketed(host) {
        seq![']']
    } else {
        seq![':']
    };
    lemma_found(authority, sep, 0);
    if let Some(i) = found(authority, sep, 0) {
        assert(authority.subrange(i, i + sep.len())[0] == sep[0]);
        assert(authority[i] == sep[0]);
    }
    if bracketed(host) {
        assert(authority[h - 1] == ']');
        assert(authority.subrange(h - 1, h - 1 + sep.len()) == sep);
        let i = found(authority, sep, 0)->0;
        if i < h - 1 {
            assert(host[i] != ']');
        }
        assert(i == h - 1);
        assert(authority.skip(h) == tail);
        assert(authority.take(h) == host);
    } else {
        if found(authority, sep, 0) is Some {
            let i = found(authority, sep, 0)->0;
            if i < h {
                assert(host.contains(host[i]));
            }
        }
        if port is Some {
            assert(authority[h] == ':');
            assert(authority.subrange(h, h + sep.len()) == sep);
            assert(authority.take(h) == host);
            assert(authority.skip(h + 1) == tail.skip(1));
        }
    }
    match port {
        Some(p) => {
            assert(tail.skip(1) == p);
        },
        None => {
            assert(authority == host);
        },
    }
}

proof fn lemma_scheme(scheme: Seq<char>, rest: Seq<char>)
    requires
        !scheme.contains(':'),
    ensures
        cut(scheme + mark() + rest, mark()) == Some((scheme, rest)),
{
    let text = scheme + mark() + rest;
    let n = scheme.len() as int;
    lemma_found(text, mark(), 0);
    assert(text.subrange(n, n + mark().len()) == mark());
    let i = found(text, mark(), 0)->0;
    assert(text.subrange(i, i + mark().len())[0] == ':');
    assert(text[i] == ':');
    if i < n {
        assert(text[i] == scheme[i]);
        assert(scheme.contains(scheme[i]));
    }
    assert(i == n);
    assert(text.take(n) == scheme);
    assert(text.skip(n + 3) == rest);
}

proof fn lemma_nothing_to_trim(text: Seq<char>, set: CharSet)
    requires
        text.len() > 0,
        !set.has(text[0]),
        !set.has(text.last()),
    ensures
        trimmed(text, set) == text,
{
    assert(trimmed_start(text, set) == text);
    assert(trimmed_end(text, set) == text);
}

proof fn lemma_plain_form(o: Origin)
    requires
        o.plain(),
    ensures
        normalized(o.text()) == o.shown_scheme() + mark() + o.shown_host() + o.shown_port(),
{
    let authority = o.host + written_port(o.port);
    assert(o.text()[0] == o.scheme[0]);
    lemma_nothing_to_trim(o.text(), CharSet::WhiteSpace);
    assert(o.text() == o.scheme + mark() + authority);
    lemma_scheme(o.scheme, authority);
    lemma_authority(o.host, o.port);
}

proof fn lemma_lowering_keeps_marks(s: Seq<char>)
    ensures
        all_lowered(s).contains(':') == s.contains(':'),
        forall|i: int| #![trigger all_lowered(s)[i]]
            0 <= i < s.len() ==> {
                &&& all_lowered(s)[i] == ':' <==> s[i] == ':'
                &&& all_lowered(s)[i] == '/' <==> s[i] == '/'
                &&& all_lowered(s)[i] == '[' <==> s[i] == '['
                &&& all_lowered(s)[i] == ']' <==> s[i] == ']'
            },
{
    let t = all_lowered(s);
    assert forall|i: int| #![trigger all_lowered(s)[i]] 0 <= i < s.len() implies {
        &&& all_lowered(s)[i] == ':' <==> s[i] == ':'
        &&& all_lowered(s)[i] == '/' <==> s[i] == '/'
        &&& all_lowered(s)[i] == '[' <==> s[i] == '['
        &&& all_lowered(s)[i] == ']' <==> s[i] == ']'
    } by {
        assert(t[i] == lowered(s[i]));
        lemma_lowering_one(s[i]);
    }
    if t.contains(':') {
        let i = choose|i: int| 0 <= i < t.len() && t[i] == ':';
        assert(s[i] == ':');
    }
    if s.contains(':') {
        let i = choose|i: int| 0 <= i < s.len() && s[i] == ':';
        assert(t[i] == ':');
    }
}

proof fn lemma_lowering_one(c: char)
    ensures
        lowered(c) == ':' <==> c == ':',
        lowered(c) == '/' <==> c == '/',
        lowered(c) == '[' <==> c == '[',
        lowered(c) == ']' <==> c == ']',
{
}

/// The host of a normalized origin ends where its own form says, so equal
/// normalized authorities have equal hosts.
proof fn lemma_host_ends(a: Seq<char>, x: Seq<char>, b: Seq<char>, y: Seq<char>)
    requires
        bracketed(a) || unbracketed(a),
        bracketed(b) || unbracketed(b),
        x.len() == 0 || x[0] == ':',
        y.len() == 0 || y[0] == ':',
        a + x == b + y,
    ensures
        a == b,
        x == y,
{
    assert((a + x)[0] == a[0]);
    assert((b + y)[0] == b[0]);
    lemma_host_is_no_longer(b, y, a, x);
    lemma_host_is_no_longer(a, x, b, y);
    assert((a + x).take(a.len() as int) == a);
    assert((b + y).take(b.len() as int) == b);
    assert((a + x).skip(a.len() as int) == x);
    assert((b + y).skip(b.len() as int) == y);
}

proof fn lemma_host_is_no_longer(a: Seq<char>, x: Seq<char>, b: Seq<char>, y: Seq<char>)
    requires
        bracketed(a) || unbracketed(a),
        bracketed(b) || unbracketed(b),
        x.len() == 0 || x[0] == ':',
        a + x == b + y,
    ensures
        a.len() >= b.len(),
{
    assert((a + x)[0] == a[0]);
    assert((b + y)[0] == b[0]);
    let k = a.len() as int;
    if k < b.len() {
        if bracketed(a) {
            assert((a + x)[k - 1] == ']');
            assert((b + y)[k - 1] == b[k - 1]);
            assert(b[k - 1] != ']');
        } else {
            assert((a + x).len() > k);
            assert((a + x)[k] == ':');
            assert((b + y)[k] == b[k]);
            assert(b.contains(b[k]));
        }
    }
}

/// Two origins match exactly where scheme and host are the same but for the case
/// of letters, and the ports are the same, default ports aside.
pub proof fn law_match_is_exact(a: Origin, b: Origin)
    requires
        a.plain(),
        b.plain(),
    ensures
        normalized(a.text()) == normalized(b.text()) <==> {
            &&& a.shown_scheme() == b.shown_scheme()
            &&& a.shown_host() == b.shown_host()
            &&& a.shown_port() == b.shown_port()
        },
{
    lemma_plain_form(a);
    lemma_plain_form(b);
    let na = normalized(a.text());
    let nb = normalized(b.text());
    if na == nb {
        let sa = a.shown_scheme();
        let sb = b.shown_scheme();
        lemma_lowering_keeps_marks(a.scheme);
        lemma_lowering_keeps_marks(b.scheme);
        lemma_lowering_keeps_marks(a.host);
        lemma_lowering_keeps_marks(b.host);
        assert(na[sa.len() as int] == ':');
        assert(nb[sb.len() as int] == ':');
        if sa.len() < sb.len() {
            assert(nb[sa.len() as int] == sb[sa.len() as int]);
            assert(sb.contains(sb[sa.len() as int]));
        }
        if sb.len() < sa.len() {
            assert(na[sb.len() as int] == sa[sb.len() as int]);
            assert(sa.contains(sa[sb.len() as int]));
        }
        let n = sa.len() as int;
        assert(na.take(n) == sa);
        assert(nb.take(n) == sb);
        assert(na.skip(n + 3) == a.shown_host() + a.shown_port());
        assert(nb.skip(n + 3) == b.shown_host() + b.shown_port());
        lemma_host_form(a.host);
        lemma_host_form(b.host);
        lemma_host_ends(a.shown_host(), a.shown_port(), b.shown_host(), b.shown_port());
    }
}

proof fn lemma_host_form(host: Seq<char>)
    requires
        bracketed(host) || unbracketed(host),
    ensures
        bracketed(all_lowered(host)) || unbracketed(all_lowered(host)),
{
    lemma_lowering_keeps_marks(host);
    let low = all_lowered(host);
    assert(low[0] == '[' <==> host[0] == '[');
    if bracketed(host) {
        assert(low[host.len() - 1] == ']');
        assert forall|i: int| 0 <= i < low.len() - 1 implies #[trigger] low[i] != ']' by {
            assert(host[i] != ']');
        }
    }
}

/// The default port of a scheme may be written or left out.
pub proof fn law_default_port_is_omitted(o: Origin, port: Seq<char>)
    requires
        o.port is None,
        o.plain(),
        (Origin { port: Some(port), ..o }).plain(),
        default_port(o.shown_scheme(), port),
    ensures
        normalized((Origin { port: Some(port), ..o }).text()) == normalized(o.text()),
{
    lemma_plain_form(o);
    lemma_plain_form(Origin { port: Some(port), ..o });
}

/// A port that is not the default one makes another origin.
pub proof fn law_custom_port_is_significant(o: Origin, port: Seq<char>)
    requires
        o.port is None,
        o.plain(),
        (Origin { port: Some(port), ..o }).plain(),
        port.len() > 0,
        !default_port(o.shown_scheme(), port),
    ensures
        normalized((Origin { port: Some(port), ..o }).text()) != normalized(o.text()),
{
    law_match_is_exact(Origin { port: Some(port), ..o }, o);
}

/// A value without a scheme matches no value that has one.
pub proof fn law_no_scheme_fails_closed(a: Seq<char>, b: Seq<char>)
    requires
        cut(trimmed(a, CharSet::WhiteSpace), mark()) is None,
        cut(trimmed(b, CharSet::WhiteSpace), mark()) is Some,
    ensures
        normalized(a) != normalized(b),
{
    let t = trimmed(a, CharSet::WhiteSpace);
    let u = trimmed(b, CharSet::WhiteSpace);
    lemma_found(t, mark(), 0);
    lemma_found(u, mark(), 0);
    if normalized(a) == normalized(b) {
        let (head, _) = cut(u, mark())->0;
        let scheme = all_lowered(head);
        let low = all_lowered(t);
        let i = scheme.len() as int;
        lemma_lowering_keeps_marks(t);
        assert(normalized(b)[i] == ':' && normalized(b)[i + 1] == '/' && normalized(b)[i + 2]
            == '/');
        assert(low[i] == ':' && low[i + 1] == '/' && low[i + 2] == '/');
        assert(t[i] == ':' && t[i + 1] == '/' && t[i + 2] == '/');
        assert(t.subrange(i, i + mark().len()) == mark());
    }
}

/// With an allow-list, a request without an origin is refused; without one,
/// every request is let in.
pub proof fn law_missing_origin(list: Seq<Seq<char>>)
    ensures
        allowed(None, list) <==> list.len() == 0,
{
}

/// Without an allow-list every origin is let in.
pub proof fn law_empty_list_allows_all(origin: Option<Seq<char>>)
    ensures
        allowed(origin, Seq::empty()),
{
}

/// With an allow-list, an origin is let in exactly where its normal form is that of
/// an entry, whichever it is; without one every request is let in, and with one a
/// request without an origin is refused.
pub proof fn law_every_entry_counts(origin: Option<&str>, list: &[String], r: bool)
    requires
        call_ensures(origin_allowed, (origin, list), r),
    ensures
        list@.len() == 0 ==> r,
        list@.len() > 0 && origin is None ==> !r,
        forall|i: int|
            0 <= i < list@.len() && origin is Some && normalized((#[trigger] list@[i])@)
                == normalized(origin->0@) ==> r,
        list@.len() > 0 && origin is Some && (forall|i: int|
            0 <= i < list@.len() ==> normalized((#[trigger] list@[i])@) != normalized(origin->0@))
            ==> !r,
{
    let all = texts(list@);
    assert forall|i: int| 0 <= i < list@.len() implies all[i] == (#[trigger] list@[i])@ by {}
    if origin is Some && list@.len() > 0 {
        assert forall|i: int|
            0 <= i < list@.len() && normalized((#[trigger] list@[i])@) == normalized(
                origin->0@,
            ) implies r by {
            assert(normalized(all[i]) == normalized(origin->0@));
        }
        if r {
            let i = choose|i: int|
                0 <= i < all.len() && normalized(#[trigger] all[i]) == normalized(origin->0@);
            assert(normalized(list@[i]@) == normalized(origin->0@));
        }
    }
}

/// Every entry of an allow-list is itself let in, and a longer list refuses nothing
/// that a shorter one lets in, unless the shorter one is empty.
pub proof fn law_longer_list_allows_more(
    origin: Option<&str>,
    list: &[String],
    longer: &[String],
    r: bool,
    s: bool,
    i: int,
)
    requires
        call_ensures(origin_allowed, (origin, list), r),
        call_ensures(origin_allowed, (origin, longer), s),
        list@.is_prefix_of(longer@),
    ensures
        r && list@.len() > 0 ==> s,
        0 <= i < longer@.len() && origin is Some && origin->0@ == longer@[i]@ ==> s,
{
    law_every_entry_counts(origin, list, r);
    law_every_entry_counts(origin, longer, s);
    if r && list@.len() > 0 {
        let k = choose|k: int|
            0 <= k < list@.len() && normalized((#[trigger] list@[k])@) == normalized(origin->0@);
        assert(longer@[k] == list@[k]);
    }
}

/// A request is decided by its header `origin`.
pub proof fn law_origin_header_decides(
    parts: Parts,
    origin: Option<&str>,
    list: &[String],
    r: bool,
    s: bool,
)
    requires
        call_ensures(origin_allowed_in_parts, (&parts, list), r),
        call_ensures(origin_allowed, (origin, list), s),
        origin is Some <==> header_texts(parts).contains_key("origin"@),
        origin is Some ==> origin->0@ == header_texts(parts)["origin"@],
    ensures
        r == s,
{
}

/// Decimal digits stand for a number, from the left.
pub proof fn law_decimal_numbers(digits: Seq<char>, d: char, v: int)
    requires
        0 <= v < 10,
        d == "0123456789"@[v],
    ensures
        number(Seq::empty()) == 0,
        number(digits.push(d)) == number(digits) * 10 + v,
{
    reveal_strlit("0123456789");
    assert(digits.push(d).drop_last() == digits);
}

/// Whether `s` is nothing or a plus sign.
pub open spec fn maybe_plus(s: Seq<char>) -> bool {
    s.len() == 0 || s == seq!['+']
}

/// A port is a number under 65536 in decimal digits, with or without a plus sign in
/// front, and nothing else.
pub proof fn law_port_numbers(port: &[char], r: Option<u16>, plus: Seq<char>, digits: Seq<char>)
    requires
        call_ensures(parse_port, (port,), r),
        maybe_plus(plus),
        port@ == plus + digits,
        plus.len() == 0 && digits.len() > 0 ==> digits[0] != '+',
    ensures
        digits.len() > 0 && (forall|i: int|
            0 <= i < digits.len() ==> "0123456789"@.contains(#[trigger] digits[i])) && number(
            digits,
        ) < 65536 ==> r is Some && r->0 == number(digits),
        digits.len() == 0 || (exists|i: int|
            0 <= i < digits.len() && !"0123456789"@.contains(#[trigger] digits[i])) || number(
            digits,
        ) >= 65536 ==> r is None,
{
    reveal_strlit("0123456789");
    let ten = "0123456789"@;
    assert forall|c: char| #[trigger] ten.contains(c) <==> '0' <= c <= '9' by {
        if '0' <= c <= '9' {
            assert(ten[c as int - '0' as int] == c);
        }
    }
    if plus.len() > 0 {
        assert(port@.skip(1) == digits);
        assert(port@[0] == '+');
    } else {
        assert(port@ == digits);
    }
}

/// Whether `s` holds zeros alone.
pub open spec fn all_zeros(s: Seq<char>) -> bool {
    forall|i: int| 0 <= i < s.len() ==> #[trigger] s[i] == '0'
}

/// Whether `port` is written for the number that `figures` stand for.
pub open spec fn written_for(port: Seq<char>, figures: Seq<char>) -> bool {
    exists|plus: Seq<char>, zeros: Seq<char>|
        maybe_plus(plus) && all_zeros(zeros) && port == #[trigger] (plus + zeros + figures)
}

/// Whether `port` is written for the port that goes without saying under `scheme`.
pub open spec fn goes_without_saying(scheme: Seq<char>, port: Seq<char>) -> bool {
    ||| written_for(port, "80"@) && (scheme == "http"@ || scheme == "ws"@)
    ||| written_for(port, "443"@) && (scheme == "https"@ || scheme == "wss"@)
}

proof fn lemma_zeros(digits: Seq<char>)
    requires
        all_digits(digits),
    ensures
        number(digits) >= 0,
        number(digits) == 0 <==> all_zeros(digits),
    decreases digits.len(),
{
    if digits.len() > 0 {
        let fewer = digits.drop_last();
        let n = digits.len() - 1;
        assert('0' <= digits[n] <= '9');
        assert forall|i: int| 0 <= i < fewer.len() implies '0' <= #[trigger] fewer[i] <= '9' by {
            assert(fewer[i] == digits[i]);
        }
        lemma_zeros(fewer);
        if all_zeros(fewer) && digits[n] == '0' {
            assert forall|i: int| 0 <= i < digits.len() implies #[trigger] digits[i] == '0' by {
                if i < n {
                    assert(fewer[i] == '0');
                }
            }
        }
        if all_zeros(digits) {
            assert forall|i: int| 0 <= i < fewer.len() implies #[trigger] fewer[i] == '0' by {
                assert(digits[i] == '0');
            }
        }
    }
}

proof fn lemma_zeros_and_one(digits: Seq<char>, v: int)
    requires
        all_digits(digits),
        0 < v < 10,
    ensures
        number(digits) == v <==> digits.len() > 0 && digits.last() as int == '0' as int + v
            && all_zeros(digits.drop_last()),
{
    if digits.len() > 0 {
        let fewer = digits.drop_last();
        let n = digits.len() - 1;
        assert('0' <= digits[n] <= '9');
        assert forall|i: int| 0 <= i < fewer.len() implies '0' <= #[trigger] fewer[i] <= '9' by {
            assert(fewer[i] == digits[i]);
        }
        lemma_zeros(fewer);
    }
}

proof fn lemma_digits_kept(digits: Seq<char>)
    requires
        digits.len() > 0,
        all_digits(digits),
    ensures
        all_digits(digits.drop_last()),
        '0' <= digits.last() <= '9',
{
    let fewer = digits.drop_last();
    assert('0' <= digits[digits.len() - 1] <= '9');
    assert forall|i: int| 0 <= i < fewer.len() implies '0' <= #[trigger] fewer[i] <= '9' by {
        assert(fewer[i] == digits[i]);
    }
}

proof fn lemma_eighty(digits: Seq<char>)
    requires
        all_digits(digits),
    ensures
        number(digits) == 80 <==> exists|zeros: Seq<char>|
            all_zeros(zeros) && digits == #[trigger] (zeros + "80"@),
{
    reveal_strlit("80");
    if number(digits) == 80 {
        lemma_digits_kept(digits);
        let tens = digits.drop_last();
        lemma_zeros(tens);
        assert(number(tens) == 8);
        lemma_zeros_and_one(tens, 8);
        let zeros = tens.drop_last();
        assert(digits == zeros + "80"@);
    }
    if exists|zeros: Seq<char>| all_zeros(zeros) && digits == #[trigger] (zeros + "80"@) {
        let zeros = choose|zeros: Seq<char>|
            all_zeros(zeros) && digits == #[trigger] (zeros + "80"@);
        lemma_digits_kept(digits);
        let tens = digits.drop_last();
        assert(tens == zeros.push('8'));
        assert(tens.drop_last() == zeros);
        lemma_zeros_and_one(tens, 8);
        assert(digits.last() == '0');
    }
}

proof fn lemma_four_four_three(digits: Seq<char>)
    requires
        all_digits(digits),
    ensures
        number(digits) == 443 <==> exists|zeros: Seq<char>|
            all_zeros(zeros) && digits == #[trigger] (zeros + "443"@),
{
    reveal_strlit("443");
    if number(digits) == 443 {
        lemma_digits_kept(digits);
        let tens = digits.drop_last();
        lemma_zeros(tens);
        assert(number(tens) == 44);
        lemma_digits_kept(tens);
        let hundreds = tens.drop_last();
        lemma_zeros(hundreds);
        assert(number(hundreds) == 4);
        lemma_zeros_and_one(hundreds, 4);
        let zeros = hundreds.drop_last();
        assert(digits == zeros + "443"@);
    }
    if exists|zeros: Seq<char>| all_zeros(zeros) && digits == #[trigger] (zeros + "443"@) {
        let zeros = choose|zeros: Seq<char>|
            all_zeros(zeros) && digits == #[trigger] (zeros + "443"@);
        lemma_digits_kept(digits);
        let tens = digits.drop_last();
        lemma_digits_kept(tens);
        let hundreds = tens.drop_last();
        assert(hundreds == zeros.push('4'));
        assert(hundreds.drop_last() == zeros);
        lemma_zeros_and_one(hundreds, 4);
        assert(tens.last() == '4' && digits.last() == '3');
        assert(number(hundreds) == 4);
        assert(number(tens) == 44);
        assert(number(digits) == 443);
    }
}

proof fn lemma_all_digits_of(zeros: Seq<char>, figures: Seq<char>)
    requires
        all_zeros(zeros),
        all_digits(figures),
    ensures
        all_digits(zeros + figures),
{
    let s = zeros + figures;
    assert forall|i: int| 0 <= i < s.len() implies '0' <= #[trigger] s[i] <= '9' by {
        if i < zeros.len() {
            assert(s[i] == zeros[i]);
        } else {
            assert(s[i] == figures[i - zeros.len()]);
        }
    }
}

proof fn lemma_written_for(port: Seq<char>, figures: Seq<char>, n: int)
    requires
        all_digits(figures),
        figures.len() > 0,
        n <= u16::MAX,
        forall|digits: Seq<char>| #[trigger]
            all_digits(digits) ==> (number(digits) == n <==> exists|zeros: Seq<char>|
                all_zeros(zeros) && digits == #[trigger] (zeros + figures)),
    ensures
        port_number(port) == Some(n) <==> written_for(port, figures),
{
    let digits = port_digits(port);
    if port_number(port) == Some(n) {
        let zeros = choose|zeros: Seq<char>|
            all_zeros(zeros) && digits == #[trigger] (zeros + figures);
        if port[0] == '+' {
            assert(port == seq!['+'] + digits);
            assert(seq!['+'] + digits == seq!['+'] + zeros + figures);
        } else {
            assert(port == Seq::<char>::empty() + zeros + figures);
        }
    }
    if written_for(port, figures) {
        let (plus, zeros) = choose|plus: Seq<char>, zeros: Seq<char>|
            maybe_plus(plus) && all_zeros(zeros) && port == #[trigger] (plus + zeros + figures);
        lemma_all_digits_of(zeros, figures);
        let all = zeros + figures;
        assert('0' <= all[0] <= '9');
        if plus.len() > 0 {
            assert(port.skip(1) == all);
        } else {
            assert(port == all);
        }
        assert(digits == all);
    }
}

/// The port 80 goes without saying under `http` and `ws`, and 443 under `https` and
/// `wss`, with or without zeros or a plus sign in front, and no other port does.
pub proof fn law_default_ports(scheme: &[char], port: &[char], r: bool)
    requires
        call_ensures(is_default_port, (scheme, port), r),
    ensures
        r <==> goes_without_saying(scheme@, port@),
        default_port(scheme@, port@) <==> goes_without_saying(scheme@, port@),
{
    lemma_default_ports(scheme@, port@);
}

proof fn lemma_default_ports(scheme: Seq<char>, port: Seq<char>)
    ensures
        default_port(scheme, port) <==> goes_without_saying(scheme, port),
{
    reveal_strlit("80");
    reveal_strlit("443");
    assert forall|digits: Seq<char>| #[trigger] all_digits(digits) implies (number(digits) == 80
        <==> exists|zeros: Seq<char>|
        all_zeros(zeros) && digits == #[trigger] (zeros + "80"@)) by {
        lemma_eighty(digits);
    }
    assert forall|digits: Seq<char>| #[trigger] all_digits(digits) implies (number(digits) == 443
        <==> exists|zeros: Seq<char>|
        all_zeros(zeros) && digits == #[trigger] (zeros + "443"@)) by {
        lemma_four_four_three(digits);
    }
    lemma_written_for(port, "80"@, 80);
    lemma_written_for(port, "443"@, 443);
}

/// Whether `host` and `port` are those of the authority that they are written as: a
/// host without colons; one in brackets; or one that starts with a bracket which is
/// not closed right before a port.
pub open spec fn parted(host: Seq<char>, port: Option<Seq<char>>) -> bool {
    ||| bracketed(host)
    ||| (host.len() > 0 ==> host[0] != '[') && !host.contains(':')
    ||| port is None && host.len() > 0 && host[0] == '[' && (forall|i: int|
        0 <= i < host.len() && #[trigger] host[i] == ']' && !host.take(i).contains(']') ==> i + 1
            < host.len() && host[i + 1] != ':')
}

proof fn lemma_parted(host: Seq<char>, port: Option<Seq<char>>)
    requires
        parted(host, port),
    ensures
        authority_parts(host + written_port(port)) == (host, port),
{
    let tail = written_port(port);
    let authority = host + tail;
    if bracketed(host) {
        lemma_authority(host, port);
    } else if (host.len() > 0 ==> host[0] != '[') && !host.contains(':') {
        if host.len() > 0 {
            lemma_authority(host, port);
        } else {
            assert(authority == tail);
            match port {
                Some(p) => {
                    lemma_no_mark_before(authority, ':', 0);
                    assert(host + seq![':'] + p == authority);
                    law_cutting(host, seq![':'], p);
                },
                None => {
                    law_no_cut(authority, seq![':']);
                    assert(host == authority);
                },
            }
        }
    } else {
        assert(authority == host);
        let sep = seq![']'];
        lemma_found(authority, sep, 0);
        if found(authority, sep, 0) is Some {
            let i = found(authority, sep, 0)->0;
            assert(authority.subrange(i, i + 1)[0] == ']');
            assert(host[i] == ']');
            assert(!host.take(i).contains(']')) by {
                if host.take(i).contains(']') {
                    let j = choose|j: int| 0 <= j < i && host.take(i)[j] == ']';
                    assert(authority.subrange(j, j + 1) == sep);
                }
            }
            let rest = authority.skip(i + 1);
            assert(rest[0] == host[i + 1]);
        }
    }
}

/// An authority is taken apart into the host and the port that it was written with.
pub proof fn law_authority(
    authority: &[char],
    r: (&[char], Option<&[char]>),
    host: Seq<char>,
    port: Option<Seq<char>>,
)
    requires
        call_ensures(split_authority, (authority,), r),
        parted(host, port),
        authority@ == host + written_port(port),
    ensures
        r.0@ == host,
        r.1 is Some <==> port is Some,
        port is Some ==> r.1->0@ == port->0,
{
    lemma_parted(host, port);
}

/// The normal form of an origin is its scheme and its host in lower case with `://`
/// between them, and behind them its port, unless that is empty or goes without
/// saying; white space around the origin does not count.
pub proof fn law_normal_form(
    origin: &str,
    r: String,
    front: Seq<char>,
    o: Origin,
    back: Seq<char>,
)
    requires
        call_ensures(normalize_origin, (origin,), r),
        all_in(front, CharSet::WhiteSpace),
        all_in(back, CharSet::WhiteSpace),
        origin@ == front + o.text() + back,
        !CharSet::WhiteSpace.has(o.text()[0]),
        !CharSet::WhiteSpace.has(o.text().last()),
        occurs_not_before(o.text(), seq![':', '/', '/'], o.scheme.len() as int),
        parted(o.host, o.port),
    ensures
        ({
            let scheme = all_lowered(o.scheme);
            let main = scheme + seq![':', '/', '/'] + all_lowered(o.host);
            &&& o.port is None ==> r@ == main
            &&& o.port matches Some(p) ==> r@ == if p.len() == 0 || goes_without_saying(scheme, p) {
                main
            } else {
                main + seq![':'] + p
            }
        }),
        r@ == normalized(origin@),
{
    let authority = o.host + written_port(o.port);
    let scheme = all_lowered(o.scheme);
    law_trimming(front, o.text(), back, CharSet::WhiteSpace);
    assert(o.text() == o.scheme + mark() + authority);
    law_cutting(o.scheme, mark(), authority);
    lemma_parted(o.host, o.port);
    let main = scheme + seq![':', '/', '/'] + all_lowered(o.host);
    match o.port {
        Some(p) => {
            lemma_default_ports(scheme, p);
            assert(main + (seq![':'] + p) == main + seq![':'] + p);
            assert(main + Seq::<char>::empty() == main);
        },
        None => {
            assert(main + Seq::<char>::empty() == main);
        },
    }
}

/// The normal form of a text without a scheme is the text in lower case, without
/// the white space around it.
pub proof fn law_normal_form_without_scheme(
    origin: &str,
    r: String,
    front: Seq<char>,
    text: Seq<char>,
    back: Seq<char>,
)
    requires
        call_ensures(normalize_origin, (origin,), r),
        all_in(front, CharSet::WhiteSpace),
        all_in(back, CharSet::WhiteSpace),
        origin@ == front + text + back,
        text.len() > 0 ==> !CharSet::WhiteSpace.has(text[0]) && !CharSet::WhiteSpace.has(
            text.last(),
        ),
        occurs_not_before(text, seq![':', '/', '/'], text.len() - 2),
    ensures
        r@ == all_lowered(text),
        r@ == normalized(origin@),
{
    law_trimming(front, text, back, CharSet::WhiteSpace);
    law_no_cut(text, mark());
}

} // verus!
