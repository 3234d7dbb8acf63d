//! Token extraction for WebSocket authentication.
//!
//! Finds the token of an HTTP upgrade request in an ordered list of
//! [`TokenSourceKind`]s: the `Authorization: Bearer <token>` header, query
//! parameters (`?token=`, `?access_token=`) and cookies.
use crate::headers::{header, header_text, header_texts};
use crate::text;
use crate::text::{
    all_in, all_lowered, all_to_lower, cut, joined, law_cutting, law_join_undoes_split,
    law_no_cut, law_split_undoes_join, law_trimming, law_trimming_parts, lemma_no_mark_before,
    opt_str, opt_string, pieces, same, same_text, split, split_once, to_chars, to_text, trim,
    trim_start, trimmed, trimmed_start, CharSet,
};
use http::request::Parts;
use vstd::prelude::*;
use vstd::slice::slice_subrange;

verus! {

/// The value of a hexadecimal digit.
pub open spec fn hex_value(c: char) -> Option<int> {
    if '0' <= c <= '9' {
        Some(c as int - '0' as int)
    } else if 'a' <= c <= 'f' {
        Some(c as int - 'a' as int + 10)
    } else if 'A' <= c <= 'F' {
        Some(c as int - 'A' as int + 10)
    } else {
        None
    }
}

/// What URL-encoded text stands for. A `+` stands for a space and `%XX` for the
/// character with that code. A `%` that two hexadecimal digits do not follow is
/// kept, and so are the two characters after it.
pub open spec fn decoded(s: Seq<char>) -> Seq<char>
    decreases s.len(),
{
    if s.len() == 0 {
        s
    } else if s[0] == '+' {
        seq![' '] + decoded(s.skip(1))
    } else if s[0] != '%' {
        seq![s[0]] + decoded(s.skip(1))
    } else if s.len() < 3 {
        s
    } else {
        match (hex_value(s[1]), hex_value(s[2])) {
            (Some(high), Some(low)) => seq![(high * 16 + low) as char] + decoded(s.skip(3)),
            _ => s.take(3) + decoded(s.skip(3)),
        }
    }
}

/// The value of a hexadecimal digit.
pub fn hex_val(c: char) -> (r: Option<u8>)
    ensures
        match r {
            Some(v) => hex_value(c) == Some(v as int) && v < 16,
            None => hex_value(c) is None,
        },
{
    if '0' <= c && c <= '9' {
        Some(c as u8 - 48)
    } else if 'a' <= c && c <= 'f' {
        Some(c as u8 - 97 + 10)
    } else if 'A' <= c && c <= 'F' {
        Some(c as u8 - 65 + 10)
    } else {
        None
    }
}

/// Decodes `+` and `%XX`.
pub fn url_decode(s: &str) -> (r: String)
    ensures
        r@ == decoded(s@),
{
    decode(&to_chars(s))
}

fn decode(s: &[char]) -> (out: String)
    ensures
        out@ == decoded(s@),
{
    let mut out = String::new();
    let mut i: usize = 0;
    let n: usize = s.len();
    assert(s@.skip(0) == s@);
    while i < n
        invariant
            n == s@.len(),
            i <= n,
            out@ + decoded(s@.skip(i as int)) == decoded(s@),
        decreases n - i,
    {
        let ghost rest = s@.skip(i as int);
        let ghost before = out@;
        let c = s[i];
        assert(rest[0] == c);
        if c == '+' {
            out.push(' ');
            i = i + 1;
            assert(rest.skip(1) == s@.skip(i as int));
            assert(out@ + decoded(rest.skip(1)) == before + decoded(rest));
        } else if c != '%' {
            out.push(c);
            i = i + 1;
            assert(rest.skip(1) == s@.skip(i as int));
            assert(out@ + decoded(rest.skip(1)) == before + decoded(rest));
        } else if n - i < 3 {
            while i < n
                invariant
                    n == s@.len(),
                    i <= n,
                    out@ + s@.skip(i as int) == before + rest,
                decreases n - i,
            {
                out.push(s[i]);
                i = i + 1;
            }
            assert(before + decoded(rest) == before + rest);
            assert(s@.skip(i as int) == Seq::<char>::empty());
            assert(out@ == before + rest);
        } else {
            assert(rest[1] == s@[i + 1] && rest[2] == s@[i + 2]);
            match (hex_val(s[i + 1]), hex_val(s[i + 2])) {
                (Some(high), Some(low)) => {
                    out.push((high * 16 + low) as char);
                },
                _ => {
                    out.push(c);
                    out.push(s[i + 1]);
                    out.push(s[i + 2]);
                },
            }
            i = i + 3;
            assert(rest.skip(3) == s@.skip(i as int));
            assert(out@ + decoded(rest.skip(3)) == before + decoded(rest));
        }
    }
    assert(s@.skip(n as int).len() == 0);
    out
}

/// Where to look for a token.
#[derive(Debug, PartialEq, Eq)]
pub enum TokenSourceKind {
    /// `Authorization: Bearer <token>` header.
    AuthorizationHeader,
    /// Query parameter with the given name (e.g. `token`, `access_token`).
    QueryParam(String),
    /// Cookie with the given name.
    Cookie(String),
}

impl Clone for TokenSourceKind {
    fn clone(&self) -> (r: Self)
        ensures
            r == *self,
    {
        match self {
            TokenSourceKind::AuthorizationHeader => TokenSourceKind::AuthorizationHeader,
            TokenSourceKind::QueryParam(name) => TokenSourceKind::QueryParam(name.clone()),
            TokenSourceKind::Cookie(name) => TokenSourceKind::Cookie(name.clone()),
        }
    }
}

/// A token source with its name as text.
pub ghost enum Source {
    AuthorizationHeader,
    QueryParam(Seq<char>),
    Cookie(Seq<char>),
}

impl View for TokenSourceKind {
    type V = Source;

    open spec fn view(&self) -> Source {
        match self {
            TokenSourceKind::AuthorizationHeader => Source::AuthorizationHeader,
            TokenSourceKind::QueryParam(name) => Source::QueryParam(name@),
            TokenSourceKind::Cookie(name) => Source::Cookie(name@),
        }
    }
}

/// Error during authentication extraction/validation.
#[derive(Debug, PartialEq, Eq, Structural)]
pub enum WsAuthError {
    /// No token found in any configured source.
    Missing,
    /// Token was found but is invalid.
    Invalid,
    /// Token is expired (if expiry is checked downstream).
    Expired,
}

impl Clone for WsAuthError {
    fn clone(&self) -> (r: Self)
        ensures
            r == *self,
    {
        match self {
            WsAuthError::Missing => WsAuthError::Missing,
            WsAuthError::Invalid => WsAuthError::Invalid,
            WsAuthError::Expired => WsAuthError::Expired,
        }
    }
}

impl WsAuthError {
    /// The message that describes the error.
    pub open spec fn message(self) -> Seq<char> {
        match self {
            WsAuthError::Missing => "authentication token missing"@,
            WsAuthError::Invalid => "authentication token invalid"@,
            WsAuthError::Expired => "authentication token expired"@,
        }
    }

    /// The message that describes the error.
    pub fn to_string(&self) -> (r: String)
        ensures
            r@ == self.message(),
    {
        match self {
            WsAuthError::Missing => String::from("authentication token missing"),
            WsAuthError::Invalid => String::from("authentication token invalid"),
            WsAuthError::Expired => String::from("authentication token expired"),
        }
    }
}

/// The token of an `Authorization` header: what follows the scheme `Bearer` and
/// a space, in any case of letters, without the white space around it.
pub open spec fn bearer_token(header: Seq<char>) -> Option<Seq<char>> {
    if header.len() >= 7 && all_lowered(header.take(7)) == "bearer "@ {
        let token = trimmed(header.skip(7), CharSet::WhiteSpace);
        if token.len() > 0 {
            Some(token)
        } else {
            None
        }
    } else {
        None
    }
}

/// The two sides of the first `=` of `pair`; all of it is the key where there
/// is none.
pub open spec fn key_value(pair: Seq<char>) -> (Seq<char>, Seq<char>) {
    match cut(pair, seq!['=']) {
        Some(sides) => sides,
        None => (pair, Seq::empty()),
    }
}

/// The decoded value of the first pair whose decoded key is `name` and whose
/// value is not empty.
pub open spec fn first_value(pairs: Seq<Seq<char>>, name: Seq<char>) -> Option<Seq<char>>
    decreases pairs.len(),
{
    if pairs.len() == 0 {
        None
    } else {
        let (k, v) = key_value(pairs[0]);
        if decoded(k) == name && decoded(v).len() > 0 {
            Some(decoded(v))
        } else {
            first_value(pairs.skip(1), name)
        }
    }
}

/// The value of the query parameter `name`, with or without a leading `?`.
pub open spec fn query_value(query: Seq<char>, name: Seq<char>) -> Option<Seq<char>> {
    first_value(pieces(trimmed_start(query, CharSet::Just('?')), '&'), name)
}

/// The name and the value of one part of a `Cookie` header: no white space
/// around either, and no quotes around the value.
pub open spec fn cookie_parts(part: Seq<char>) -> (Seq<char>, Seq<char>) {
    let (k, v) = key_value(trimmed(part, CharSet::WhiteSpace));
    (
        trimmed(k, CharSet::WhiteSpace),
        trimmed(trimmed(v, CharSet::WhiteSpace), CharSet::Just('"')),
    )
}

/// The decoded value of the first cookie with the name `name` and a value that
/// is not empty.
pub open spec fn first_cookie(parts: Seq<Seq<char>>, name: Seq<char>) -> Option<Seq<char>>
    decreases parts.len(),
{
    if parts.len() == 0 {
        None
    } else {
        let (k, v) = cookie_parts(parts[0]);
        if k == name && v.len() > 0 {
            Some(decoded(v))
        } else {
            first_cookie(parts.skip(1), name)
        }
    }
}

/// The value of the cookie `name` in a `Cookie` header.
pub open spec fn cookie_value(header: Seq<char>, name: Seq<char>) -> Option<Seq<char>> {
    first_cookie(pieces(header, ';'), name)
}

/// The token that one source gives.
pub open spec fn token_at(
    source: Source,
    auth: Option<Seq<char>>,
    cookie: Option<Seq<char>>,
    query: Seq<char>,
) -> Option<Seq<char>> {
    match source {
        Source::AuthorizationHeader => match auth {
            Some(header) => bearer_token(header),
            None => None,
        },
        Source::QueryParam(name) => query_value(query, name),
        Source::Cookie(name) => match cookie {
            Some(header) => cookie_value(header, name),
            None => None,
        },
    }
}

/// The token of the first source that gives one.
pub open spec fn first_token(
    sources: Seq<Source>,
    auth: Option<Seq<char>>,
    cookie: Option<Seq<char>>,
    query: Seq<char>,
) -> Option<Seq<char>>
    decreases sources.len(),
{
    if sources.len() == 0 {
        None
    } else {
        match token_at(sources[0], auth, cookie, query) {
            Some(token) => Some(token),
            None => first_token(sources.skip(1), auth, cookie, query),
        }
    }
}

fn split_pair<'a>(pair: &'a [char]) -> (r: (&'a [char], &'a [char]))
    ensures
        (r.0@, r.1@) == key_value(pair@),
{
    let sep: [char; 1] = ['='];
    assert(sep@ == seq!['=']);
    match split_once(pair, &sep) {
        Some(sides) => sides,
        None => {
            let none: &'a [char] = slice_subrange(pair, 0, 0);
            assert(none@ == Seq::<char>::empty());
            (pair, none)
        },
    }
}

/// Extracts tokens from HTTP request parts according to configured sources.
#[derive(Debug)]
pub struct TokenExtractor {
    sources: Vec<TokenSourceKind>,
}

impl Clone for TokenExtractor {
    fn clone(&self) -> (r: Self)
        ensures
            r@ == self@,
    {
        let r = TokenExtractor { sources: self.sources.clone() };
        assert(r@ == self@);
        r
    }
}

impl View for TokenExtractor {
    type V = Seq<Source>;

    closed spec fn view(&self) -> Seq<Source> {
        views(self.sources@)
    }
}

/// The sources of a list.
pub open spec fn views(sources: Seq<TokenSourceKind>) -> Seq<Source> {
    Seq::new(sources.len(), |i: int| sources[i]@)
}

impl Default for TokenExtractor {
    /// The `Authorization` header, then `?token=`, then `?access_token=`.
    fn default() -> (r: Self)
        ensures
            r@ == seq![
                Source::AuthorizationHeader,
                Source::QueryParam("token"@),
                Source::QueryParam("access_token"@),
            ],
    {
        let r = TokenExtractor {
            sources: vec![
                TokenSourceKind::AuthorizationHeader,
                TokenSourceKind::QueryParam(String::from("token")),
                TokenSourceKind::QueryParam(String::from("access_token")),
            ],
        };
        assert(r@ == seq![
            Source::AuthorizationHeader,
            Source::QueryParam("token"@),
            Source::QueryParam("access_token"@),
        ]);
        r
    }
}

impl TokenExtractor {
    /// Create a new extractor with the given ordered sources.
    pub fn new(sources: Vec<TokenSourceKind>) -> (r: Self)
        ensures
            r@ == views(sources@),
    {
        TokenExtractor { sources }
    }

    /// Bearer-only extractor.
    pub fn bearer_only() -> (r: Self)
        ensures
            r@ == seq![Source::AuthorizationHeader],
    {
        let r = TokenExtractor { sources: vec![TokenSourceKind::AuthorizationHeader] };
        assert(r@ == seq![Source::AuthorizationHeader]);
        r
    }

    /// Add a source.
    pub fn with_source(self, src: TokenSourceKind) -> (r: Self)
        ensures
            r@ == self@.push(src@),
    {
        let mut r = self;
        r.sources.push(src);
        assert(r@ == self@.push(src@));
        r
    }

    /// Ordered sources.
    pub fn sources(&self) -> (r: &[TokenSourceKind])
        ensures
            views(r@) == self@,
    {
        self.sources.as_slice()
    }

    /// Extract the first token found according to source order.
    ///
    /// `query` is the raw query string (e.g. `"token=abc&foo=bar"`). Returns
    /// `None` if no token was found in any source.
    pub fn extract_token(&self, parts: &Parts, query: &str) -> (r: Option<String>)
        ensures
            opt_string(r) == first_token(
                self@,
                header_text(*parts, "authorization"@),
                header_text(*parts, "cookie"@),
                query@,
            ),
    {
        self.extract_from_parts(header(parts, "authorization"), header(parts, "cookie"), query)
    }

    /// Extract the first token found according to source order, from the texts
    /// of the two headers and the query.
    pub fn extract_from_parts(
        &self,
        auth_header: Option<&str>,
        cookie_header: Option<&str>,
        query: &str,
    ) -> (r: Option<String>)
        ensures
            opt_string(r) == first_token(
                self@,
                opt_str(auth_header),
                opt_str(cookie_header),
                query@,
            ),
    {
        let n: usize = self.sources.len();
        assert(self@.skip(0) == self@);
        for i in 0..n
            invariant
                n == self.sources@.len(),
                first_token(
                    self@.skip(i as int),
                    opt_str(auth_header),
                    opt_str(cookie_header),
                    query@,
                ) == first_token(self@, opt_str(auth_header), opt_str(cookie_header), query@),
        {
            assert(self@.skip(i as int)[0] == self.sources@[i as int]@);
            assert(self@.skip(i as int).skip(1) == self@.skip(i + 1));
            let found = match &self.sources[i] {
                TokenSourceKind::AuthorizationHeader => match auth_header {
                    Some(text) => Self::parse_bearer(text),
                    None => None,
                },
                TokenSourceKind::QueryParam(name) => Self::extract_query_param(query, name),
                TokenSourceKind::Cookie(name) => match cookie_header {
                    Some(text) => Self::parse_cookie(text, name),
                    None => None,
                },
            };
            if found.is_some() {
                return found;
            }
        }
        None
    }

    /// Validate presence of token, returning a typed error.
    pub fn require_token(&self, parts: &Parts, query: &str) -> (r: Result<String, WsAuthError>)
        ensures
            ({
                let token = first_token(
                    self@,
                    header_text(*parts, "authorization"@),
                    header_text(*parts, "cookie"@),
                    query@,
                );
                match r {
                    Ok(text) => token == Some(text@),
                    Err(e) => token is None && e == WsAuthError::Missing,
                }
            }),
    {
        match self.extract_token(parts, query) {
            Some(token) => Ok(token),
            None => Err(WsAuthError::Missing),
        }
    }

    /// The token of an `Authorization` header.
    pub fn parse_bearer(s: &str) -> (r: Option<String>)
        ensures
            opt_string(r) == bearer_token(s@),
    {
        let chars = to_chars(s);
        let scheme = to_chars("bearer ");
        let n: usize = chars.len();
        proof {
            reveal_strlit("bearer ");
        }
        if n < 7 {
            return None;
        }
        let prefix = all_to_lower(slice_subrange(chars.as_slice(), 0, 7));
        assert(chars@.subrange(0, 7) == s@.take(7));
        if !same(&prefix, &scheme) {
            return None;
        }
        assert(chars@.subrange(7, n as int) == s@.skip(7));
        let token = trim(slice_subrange(chars.as_slice(), 7, n), CharSet::WhiteSpace);
        if token.len() == 0 {
            None
        } else {
            Some(to_text(token))
        }
    }

    /// The value of the query parameter `name`.
    pub fn extract_query_param(query: &str, name: &str) -> (r: Option<String>)
        ensures
            opt_string(r) == query_value(query@, name@),
    {
        let chars = to_chars(query);
        let pairs = split(trim_start(&chars, CharSet::Just('?')), '&');
        let ghost all = text::views(pairs@);
        let n: usize = pairs.len();
        assert(all.skip(0) == all);
        for i in 0..n
            invariant
                n == pairs@.len(),
                all == text::views(pairs@),
                all == pieces(trimmed_start(query@, CharSet::Just('?')), '&'),
                first_value(all.skip(i as int), name@) == first_value(all, name@),
        {
            assert(all.skip(i as int)[0] == pairs@[i as int]@);
            assert(all.skip(i as int).skip(1) == all.skip(i + 1));
            let (k, v) = split_pair(pairs[i]);
            if same_text(&decode(k), name) {
                let value = decode(v);
                if value.as_str().unicode_len() > 0 {
                    return Some(value);
                }
            }
        }
        None
    }

    /// The value of the cookie `name`.
    pub fn parse_cookie(header: &str, name: &str) -> (r: Option<String>)
        ensures
            opt_string(r) == cookie_value(header@, name@),
    {
        let chars = to_chars(header);
        let wanted = to_chars(name);
        let parts = split(&chars, ';');
        let ghost all = text::views(parts@);
        let n: usize = parts.len();
        assert(all.skip(0) == all);
        for i in 0..n
            invariant
                n == parts@.len(),
                wanted@ == name@,
                all == text::views(parts@),
                all == pieces(header@, ';'),
                first_cookie(all.skip(i as int), name@) == first_cookie(all, name@),
        {
            assert(all.skip(i as int)[0] == parts@[i as int]@);
            assert(all.skip(i as int).skip(1) == all.skip(i + 1));
            let (k, v) = split_pair(trim(parts[i], CharSet::WhiteSpace));
            let k = trim(k, CharSet::WhiteSpace);
            let v = trim(trim(v, CharSet::WhiteSpace), CharSet::Just('"'));
            if same(k, &wanted) && v.len() > 0 {
                return Some(decode(v));
            }
        }
        None
    }
}

/// Text that holds neither `+` nor `%` stands for itself.
pub proof fn law_plain_text_decodes_to_itself(s: Seq<char>)
    requires
        !s.contains('+'),
        !s.contains('%'),
    ensures
        decoded(s) == s,
    decreases s.len(),
{
    if s.len() > 0 {
        assert(s.contains(s[0]));
        assert forall|c: char| s.skip(1).contains(c) implies s.contains(c) by {
            let i = choose|i: int| 0 <= i < s.skip(1).len() && s.skip(1)[i] == c;
            assert(s[i + 1] == c);
        }
        law_plain_text_decodes_to_itself(s.skip(1));
        assert(decoded(s) == s);
    }
}

/// Decoding neither empties a text nor lengthens it.
pub proof fn law_decoding_neither_empties_nor_lengthens(s: Seq<char>)
    ensures
        decoded(s).len() <= s.len(),
        decoded(s).len() == 0 <==> s.len() == 0,
    decreases s.len(),
{
    if s.len() > 0 && (s[0] != '%' || s.len() >= 3) {
        if s[0] == '%' {
            law_decoding_neither_empties_nor_lengthens(s.skip(3));
        } else {
            law_decoding_neither_empties_nor_lengthens(s.skip(1));
        }
    }
}

/// The hexadecimal digit with the value `v`.
pub open spec fn hex_digit(v: int) -> char {
    if v < 10 {
        ('0' as int + v) as char
    } else {
        ('A' as int + v - 10) as char
    }
}

/// The escapes `%XX` of characters with codes under 256.
pub open spec fn escaped(s: Seq<char>) -> Seq<char>
    decreases s.len(),
{
    if s.len() == 0 {
        s
    } else {
        seq!['%', hex_digit(s[0] as int / 16), hex_digit(s[0] as int % 16)] + escaped(s.skip(1))
    }
}

proof fn lemma_digits(c: char)
    requires
        (c as int) < 256,
    ensures
        hex_value(hex_digit(c as int / 16)) == Some(c as int / 16),
        hex_value(hex_digit(c as int % 16)) == Some(c as int % 16),
        ((c as int / 16) * 16 + c as int % 16) as char == c,
{
}

/// Every text of characters with codes under 256 is given back from its escapes.
pub proof fn law_escapes_decode(s: Seq<char>)
    requires
        forall|i: int| #![trigger s[i]] 0 <= i < s.len() ==> (s[i] as int) < 256,
    ensures
        decoded(escaped(s)) == s,
    decreases s.len(),
{
    if s.len() > 0 {
        assert forall|i: int| #![trigger s.skip(1)[i]] 0 <= i < s.skip(1).len() implies (s.skip(
            1,
        )[i] as int) < 256 by {
            assert(s.skip(1)[i] == s[i + 1]);
        }
        law_escapes_decode(s.skip(1));
        let e = escaped(s);
        lemma_digits(s[0]);
        assert(e[1] == hex_digit(s[0] as int / 16) && e[2] == hex_digit(s[0] as int % 16));
        assert(e.skip(3) == escaped(s.skip(1)));
        assert(decoded(e) == seq![s[0]] + decoded(e.skip(3)));
        assert(decoded(e) == s);
    }
}

/// The leading question marks of a query are of no account.
pub proof fn law_question_mark_is_ignored(query: Seq<char>, name: Seq<char>)
    ensures
        query_value(seq!['?'] + query, name) == query_value(query, name),
{
    assert((seq!['?'] + query).skip(1) == query);
}

/// An extracted token is never empty.
pub proof fn law_token_is_never_empty(
    sources: Seq<Source>,
    auth: Option<Seq<char>>,
    cookie: Option<Seq<char>>,
    query: Seq<char>,
)
    ensures
        first_token(sources, auth, cookie, query) matches Some(token) ==> token.len() > 0,
    decreases sources.len(),
{
    if sources.len() > 0 {
        match sources[0] {
            Source::AuthorizationHeader => {},
            Source::QueryParam(name) => {
                lemma_value_is_not_empty(
                    pieces(trimmed_start(query, CharSet::Just('?')), '&'),
                    name,
                );
            },
            Source::Cookie(name) => {
                if cookie is Some {
                    lemma_cookie_is_not_empty(pieces(cookie->0, ';'), name);
                }
            },
        }
        law_token_is_never_empty(sources.skip(1), auth, cookie, query);
    }
}

proof fn lemma_value_is_not_empty(pairs: Seq<Seq<char>>, name: Seq<char>)
    ensures
        first_value(pairs, name) matches Some(value) ==> value.len() > 0,
    decreases pairs.len(),
{
    if pairs.len() > 0 {
        lemma_value_is_not_empty(pairs.skip(1), name);
    }
}

proof fn lemma_cookie_is_not_empty(parts: Seq<Seq<char>>, name: Seq<char>)
    ensures
        first_cookie(parts, name) matches Some(value) ==> value.len() > 0,
    decreases parts.len(),
{
    if parts.len() > 0 {
        law_decoding_neither_empties_nor_lengthens(cookie_parts(parts[0]).1);
        lemma_cookie_is_not_empty(parts.skip(1), name);
    }
}

/// Sources are asked in order: the later ones count only where the earlier ones
/// give no token.
pub proof fn law_sources_are_asked_in_order(
    earlier: Seq<Source>,
    later: Seq<Source>,
    auth: Option<Seq<char>>,
    cookie: Option<Seq<char>>,
    query: Seq<char>,
)
    ensures
        first_token(earlier + later, auth, cookie, query) == match first_token(
            earlier,
            auth,
            cookie,
            query,
        ) {
            Some(token) => Some(token),
            None => first_token(later, auth, cookie, query),
        },
    decreases earlier.len(),
{
    if earlier.len() == 0 {
        assert(earlier + later == later);
    } else {
        assert((earlier + later).skip(1) == earlier.skip(1) + later);
        law_sources_are_asked_in_order(earlier.skip(1), later, auth, cookie, query);
    }
}

/// There is no token exactly where none of the sources gives one.
pub proof fn law_missing_means_no_source_has_a_token(
    sources: Seq<Source>,
    auth: Option<Seq<char>>,
    cookie: Option<Seq<char>>,
    query: Seq<char>,
)
    ensures
        first_token(sources, auth, cookie, query) is None <==> (forall|i: int|
            0 <= i < sources.len() ==> token_at(
                #[trigger] sources[i],
                auth,
                cookie,
                query,
            ) is None),
    decreases sources.len(),
{
    if sources.len() > 0 {
        let rest = sources.skip(1);
        law_missing_means_no_source_has_a_token(rest, auth, cookie, query);
        assert forall|i: int| 0 <= i < rest.len() implies #[trigger] rest[i] == sources[i + 1] by {}
        if first_token(rest, auth, cookie, query) is None && token_at(
            sources[0],
            auth,
            cookie,
            query,
        ) is None {
            assert forall|i: int| 0 <= i < sources.len() implies token_at(
                #[trigger] sources[i],
                auth,
                cookie,
                query,
            ) is None by {
                if i > 0 {
                    assert(rest[i - 1] == sources[i]);
                }
            }
        }
    }
}

/// An extractor for bearer tokens alone reads neither the query nor the cookies.
pub proof fn law_bearer_only_reads_the_header_alone(
    auth: Option<Seq<char>>,
    cookie: Option<Seq<char>>,
    query: Seq<char>,
)
    ensures
        first_token(seq![Source::AuthorizationHeader], auth, cookie, query) == match auth {
            Some(header) => bearer_token(header),
            None => None,
        },
{
    let sources = seq![Source::AuthorizationHeader];
    assert(sources.skip(1) == Seq::<Source>::empty());
    assert(first_token(sources.skip(1), auth, cookie, query) is None);
}

/// Whether `c` is written for the hexadecimal digit of value `v`.
pub open spec fn spells(c: char, v: int) -> bool {
    0 <= v < 16 && (c == "0123456789abcdef"@[v] || c == "0123456789ABCDEF"@[v])
}

/// Hexadecimal digits have their values, in either case of letters, and no other
/// character has one.
pub proof fn law_hexadecimal_digits(c: char, v: int, r: Option<u8>)
    requires
        call_ensures(hex_val, (c,), r),
    ensures
        spells(c, v) ==> r is Some && r->0 == v,
        spells(c, v) ==> hex_value(c) == Some(v),
        r matches Some(n) ==> spells(c, n as int),
        r is None ==> hex_value(c) is None,
{
    reveal_strlit("0123456789abcdef");
    reveal_strlit("0123456789ABCDEF");
}

/// Text is decoded from its start on: `+` to a space, `%` with two hexadecimal
/// digits to the character with that code, and every other character to itself. A
/// `%` without such digits stays, and so do the two characters behind it.
pub proof fn law_decoding(c: char, h: char, l: char, high: int, low: int, rest: Seq<char>)
    ensures
        decoded(Seq::empty()) == Seq::<char>::empty(),
        c != '+' && c != '%' ==> decoded(seq![c] + rest) == seq![c] + decoded(rest),
        decoded(seq!['+'] + rest) == seq![' '] + decoded(rest),
        spells(h, high) && spells(l, low) ==> exists|d: char|
            d as int == high * 16 + low && decoded(seq!['%', h, l] + rest) == #[trigger] (seq![d]
                + decoded(rest)),
        (forall|v: int| !#[trigger] spells(h, v)) || (forall|v: int| !#[trigger] spells(l, v))
            ==> decoded(seq!['%', h, l] + rest) == seq!['%', h, l] + decoded(rest),
        rest.len() < 2 ==> decoded(seq!['%'] + rest) == seq!['%'] + rest,
{
    reveal_strlit("0123456789abcdef");
    reveal_strlit("0123456789ABCDEF");
    assert((seq![c] + rest).skip(1) == rest);
    assert((seq!['+'] + rest).skip(1) == rest);
    let s = seq!['%', h, l] + rest;
    assert(s.skip(3) == rest);
    assert(s.take(3) == seq!['%', h, l]);
    assert(s[1] == h && s[2] == l);
    if spells(h, high) && spells(l, low) {
        let d = (high * 16 + low) as char;
        assert(hex_value(h) == Some(high) && hex_value(l) == Some(low));
        assert(decoded(s) == seq![d] + decoded(rest));
    }
    if hex_value(h) is Some {
        assert(spells(h, hex_value(h)->0));
    }
    if hex_value(l) is Some {
        assert(spells(l, hex_value(l)->0));
    }
}

/// `url_decode` decodes the text it is given.
pub proof fn law_url_decode(s: &str, r: String)
    requires
        call_ensures(url_decode, (s,), r),
    ensures
        r@ == decoded(s@),
{
}

/// Whether `s` is the word `bearer` and a space, in any case of letters.
pub open spec fn says_bearer(s: Seq<char>) -> bool {
    s.len() == 7 && forall|i: int|
        0 <= i < 7 ==> #[trigger] s[i] == "bearer "@[i] || s[i] == "BEARER "@[i]
}

proof fn lemma_says_bearer(s: Seq<char>)
    ensures
        says_bearer(s) <==> all_lowered(s) == "bearer "@,
{
    reveal_strlit("bearer ");
    reveal_strlit("BEARER ");
    let low = all_lowered(s);
    if low == "bearer "@ {
        assert(low.len() == "bearer "@.len());
        assert(s.len() == 7);
        assert(low[0] == 'b' && low[1] == 'e' && low[2] == 'a' && low[3] == 'r' && low[4] == 'e'
            && low[5] == 'r' && low[6] == ' ');
        assert(s[0] == 'b' || s[0] == 'B');
        assert(s[1] == 'e' || s[1] == 'E');
        assert(s[2] == 'a' || s[2] == 'A');
        assert(s[3] == 'r' || s[3] == 'R');
        assert(s[4] == 'e' || s[4] == 'E');
        assert(s[5] == 'r' || s[5] == 'R');
        assert(s[6] == ' ');
        assert forall|i: int| 0 <= i < 7 implies #[trigger] s[i] == "bearer "@[i] || s[i]
            == "BEARER "@[i] by {
            assert(i == 0 || i == 1 || i == 2 || i == 3 || i == 4 || i == 5 || i == 6);
        }
    }
    if says_bearer(s) {
        assert forall|i: int| 0 <= i < 7 implies #[trigger] low[i] == "bearer "@[i] by {
            assert(s[i] == "bearer "@[i] || s[i] == "BEARER "@[i]);
        }
        assert(low == "bearer "@);
    }
}

/// A bearer token is given back character for character, whatever the case of the
/// scheme, and without the white space around it.
pub proof fn law_bearer_token_is_unchanged(
    header: &str,
    r: Option<String>,
    scheme: Seq<char>,
    front: Seq<char>,
    token: Seq<char>,
    back: Seq<char>,
)
    requires
        call_ensures(TokenExtractor::parse_bearer, (header,), r),
        says_bearer(scheme),
        all_in(front, CharSet::WhiteSpace),
        all_in(back, CharSet::WhiteSpace),
        token.len() > 0,
        !CharSet::WhiteSpace.has(token[0]),
        !CharSet::WhiteSpace.has(token.last()),
        header@ == scheme + front + token + back,
    ensures
        r matches Some(text) && text@ == token,
        bearer_token(header@) == Some(token),
{
    lemma_says_bearer(scheme);
    assert(header@.take(7) == scheme);
    assert(header@.skip(7) == front + token + back);
    law_trimming(front, token, back, CharSet::WhiteSpace);
}

/// There is no bearer token without the scheme, or with nothing but white space
/// behind it.
pub proof fn law_no_bearer_token(header: &str, r: Option<String>)
    requires
        call_ensures(TokenExtractor::parse_bearer, (header,), r),
        header@.len() < 7 || !says_bearer(header@.take(7)) || all_in(
            header@.skip(7),
            CharSet::WhiteSpace,
        ),
    ensures
        r is None,
        bearer_token(header@) is None,
{
    lemma_says_bearer(header@.take(7));
    if header@.len() >= 7 && all_in(header@.skip(7), CharSet::WhiteSpace) {
        let rest = header@.skip(7);
        let none = Seq::<char>::empty();
        assert(rest + none + none == rest);
        law_trimming(rest, none, none, CharSet::WhiteSpace);
    }
}

/// Whether a pair of a query gives the parameter `name` the value `value`.
pub open spec fn gives(pair: Seq<char>, name: Seq<char>, value: Seq<char>) -> bool {
    value.len() > 0 && exists|k: Seq<char>, v: Seq<char>|
        {
            &&& pair == #[trigger] (k + seq!['='] + v)
            &&& !k.contains('=')
            &&& decoded(k) == name
            &&& decoded(v) == value
        }
}

proof fn lemma_key_value(k: Seq<char>, v: Seq<char>)
    requires
        !k.contains('='),
    ensures
        key_value(k + seq!['='] + v) == (k, v),
        key_value(k) == (k, Seq::<char>::empty()),
{
    let s = k + seq!['='] + v;
    assert(s.take(k.len() as int) == k);
    lemma_no_mark_before(s, '=', k.len() as int);
    law_cutting(k, seq!['='], v);
    assert(k.take(k.len() as int) == k);
    lemma_no_mark_before(k, '=', k.len() as int);
    law_no_cut(k, seq!['=']);
}

proof fn lemma_pair_apart(pair: Seq<char>)
    ensures
        ({
            let (k, v) = key_value(pair);
            &&& !k.contains('=')
            &&& pair == k + seq!['='] + v || (pair == k && v.len() == 0)
        }),
{
    let sep = seq!['='];
    crate::text::lemma_found(pair, sep, 0);
    let (k, v) = key_value(pair);
    match cut(pair, sep) {
        Some(_) => {
            let i = crate::text::found(pair, sep, 0)->0;
            assert(pair.subrange(i, i + 1)[0] == '=');
            assert(pair == k + sep + v);
            if k.contains('=') {
                let j = choose|j: int| 0 <= j < k.len() && k[j] == '=';
                assert(pair.subrange(j, j + 1) == sep);
            }
        },
        None => {
            if pair.contains('=') {
                let j = choose|j: int| 0 <= j < pair.len() && pair[j] == '=';
                assert(pair.subrange(j, j + 1) == sep);
            }
        },
    }
}

proof fn lemma_gives(pair: Seq<char>, name: Seq<char>, value: Seq<char>)
    ensures
        gives(pair, name, value) <==> ({
            let (k, v) = key_value(pair);
            decoded(k) == name && decoded(v) == value && value.len() > 0
        }),
{
    let (k, v) = key_value(pair);
    lemma_pair_apart(pair);
    law_decoding(' ', ' ', ' ', 0, 0, Seq::empty());
    if gives(pair, name, value) {
        let (a, b) = choose|a: Seq<char>, b: Seq<char>|
            {
                &&& pair == #[trigger] (a + seq!['='] + b)
                &&& !a.contains('=')
                &&& decoded(a) == name
                &&& decoded(b) == value
            };
        lemma_key_value(a, b);
    }
}

/// Of the pairs that give a parameter a value, the first one counts; where none
/// does, there is no value.
pub proof fn law_first_pair_counts(pairs: Seq<Seq<char>>, name: Seq<char>, i: int, value: Seq<char>)
    ensures
        0 <= i < pairs.len() && gives(pairs[i], name, value) && (forall|j: int, v: Seq<char>|
            0 <= j < i ==> !#[trigger] gives(pairs[j], name, v)) ==> first_value(pairs, name)
            == Some(value),
        (forall|j: int, v: Seq<char>|
            0 <= j < pairs.len() ==> !#[trigger] gives(pairs[j], name, v)) ==> first_value(
            pairs,
            name,
        ) is None,
    decreases pairs.len(),
{
    if pairs.len() > 0 {
        let rest = pairs.skip(1);
        let (k, v) = key_value(pairs[0]);
        lemma_gives(pairs[0], name, decoded(v));
        lemma_gives(pairs[0], name, value);
        law_first_pair_counts(rest, name, i - 1, value);
        assert forall|j: int, x: Seq<char>|
            0 <= j < rest.len() implies #[trigger] gives(rest[j], name, x) == gives(
            pairs[j + 1],
            name,
            x,
        ) by {
            assert(rest[j] == pairs[j + 1]);
        }
        if i > 0 && i < pairs.len() {
            assert(rest[i - 1] == pairs[i]);
        }
    }
}

/// The pairs of a query stand between `&`, behind any question marks; the first one
/// that gives the parameter a value counts.
pub proof fn law_query_parameter(
    query: &str,
    name: &str,
    r: Option<String>,
    marks: Seq<char>,
    pairs: Seq<Seq<char>>,
    i: int,
    value: Seq<char>,
)
    requires
        call_ensures(TokenExtractor::extract_query_param, (query, name), r),
        all_in(marks, CharSet::Just('?')),
        pairs.len() > 0,
        forall|j: int| 0 <= j < pairs.len() ==> !(#[trigger] pairs[j]).contains('&'),
        joined(pairs, '&').len() > 0 ==> joined(pairs, '&')[0] != '?',
        query@ == marks + joined(pairs, '&'),
    ensures
        0 <= i < pairs.len() && gives(pairs[i], name@, value) && (forall|j: int, v: Seq<char>|
            0 <= j < i ==> !#[trigger] gives(pairs[j], name@, v)) ==> r is Some
            && r->0@ == value,
        (forall|j: int, v: Seq<char>|
            0 <= j < pairs.len() ==> !#[trigger] gives(pairs[j], name@, v)) ==> r is None,
        r matches Some(text) ==> query_value(query@, name@) == Some(text@),
        r is None ==> query_value(query@, name@) is None,
{
    let s = joined(pairs, '&');
    crate::text::lemma_trimmed_start(marks, s, CharSet::Just('?'));
    law_split_undoes_join(pairs, '&');
    law_first_pair_counts(pairs, name@, i, value);
}

/// A cookie as it is written in a `Cookie` header: a name and a value with `=`
/// between them, white space around each, and quotes around the value.
pub ghost struct WrittenCookie {
    pub front: Seq<char>,
    pub name: Seq<char>,
    pub gap: Seq<char>,
    pub pause: Seq<char>,
    pub open: Seq<char>,
    pub value: Seq<char>,
    pub close: Seq<char>,
    pub back: Seq<char>,
}

impl WrittenCookie {
    /// The value in its quotes.
    pub open spec fn quoted(self) -> Seq<char> {
        self.open + self.value + self.close
    }

    /// The cookie as text.
    pub open spec fn text(self) -> Seq<char> {
        self.front + self.name + self.gap + seq!['='] + self.pause + self.quoted() + self.back
    }

    /// Whether white space, quotes, the name and the value are such.
    pub open spec fn is_written(self) -> bool {
        &&& all_in(self.front, CharSet::WhiteSpace)
        &&& all_in(self.gap, CharSet::WhiteSpace)
        &&& all_in(self.pause, CharSet::WhiteSpace)
        &&& all_in(self.back, CharSet::WhiteSpace)
        &&& all_in(self.open, CharSet::Just('"'))
        &&& all_in(self.close, CharSet::Just('"'))
        &&& !self.name.contains('=')
        &&& self.name.len() > 0 ==> !CharSet::WhiteSpace.has(self.name[0])
            && !CharSet::WhiteSpace.has(self.name.last())
        &&& self.value.len() > 0
        &&& self.value[0] != '"' && self.value.last() != '"'
        &&& !CharSet::WhiteSpace.has(self.quoted()[0])
        &&& !CharSet::WhiteSpace.has(self.quoted().last())
    }
}

proof fn lemma_all_in_joins(a: Seq<char>, b: Seq<char>, set: CharSet)
    requires
        all_in(a, set),
        all_in(b, set),
    ensures
        all_in(a + b, set),
{
    assert forall|i: int| 0 <= i < (a + b).len() implies set.has(#[trigger] (a + b)[i]) by {
        if i < a.len() {
            assert((a + b)[i] == a[i]);
        } else {
            assert((a + b)[i] == b[i - a.len()]);
        }
    }
}

/// A cookie is read with its name and its value as they are, whatever white space
/// and quotes stand around them.
pub proof fn law_written_cookie_is_read(c: WrittenCookie)
    requires
        c.is_written(),
    ensures
        cookie_parts(c.text()) == (c.name, c.value),
{
    let ws = CharSet::WhiteSpace;
    let none = Seq::<char>::empty();
    let v = c.pause + c.quoted();
    let key = if c.name.len() > 0 {
        c.name + c.gap
    } else {
        none
    };
    let front = if c.name.len() > 0 {
        c.front
    } else {
        c.front + c.gap
    };
    let core = key + seq!['='] + v;
    if c.name.len() == 0 {
        lemma_all_in_joins(c.front, c.gap, ws);
    }
    assert(c.text() == front + core + c.back);
    assert(core.last() == c.quoted().last());
    assert(core[0] == if c.name.len() > 0 {
        c.name[0]
    } else {
        '='
    });
    law_trimming(front, core, c.back, ws);
    assert(!key.contains('=')) by {
        if key.contains('=') {
            let i = choose|i: int| 0 <= i < key.len() && key[i] == '=';
            if i < c.name.len() {
                assert(c.name[i] == '=');
            } else {
                assert(c.gap[i - c.name.len()] == '=');
            }
        }
    }
    lemma_key_value(key, v);
    assert(trimmed(key, ws) == c.name) by {
        if c.name.len() > 0 {
            assert(none + c.name + c.gap == key);
            law_trimming(none, c.name, c.gap, ws);
        } else {
            assert(none + none + none == key);
            law_trimming(none, none, none, ws);
        }
    }
    assert(c.pause + c.quoted() + none == v);
    law_trimming(c.pause, c.quoted(), none, ws);
    law_trimming(c.open, c.value, c.close, CharSet::Just('"'));
}

proof fn lemma_cookie_apart(part: Seq<char>) -> (c: WrittenCookie)
    requires
        cookie_parts(part).1.len() > 0,
    ensures
        c.is_written(),
        c.text() == part,
        (c.name, c.value) == cookie_parts(part),
{
    let ws = CharSet::WhiteSpace;
    let quote = CharSet::Just('"');
    let core = trimmed(part, ws);
    law_trimming_parts(part, ws);
    let (front, back) = choose|front: Seq<char>, back: Seq<char>|
        {
            &&& part == #[trigger] (front + core + back)
            &&& all_in(front, ws)
            &&& all_in(back, ws)
        };
    let (k, v) = key_value(core);
    lemma_pair_apart(core);
    let none = Seq::<char>::empty();
    if v.len() == 0 {
        assert(none + none + none == v);
        law_trimming(none, none, none, ws);
        law_trimming(none, none, none, quote);
    }
    assert(core == k + seq!['='] + v);
    let name = trimmed(k, ws);
    law_trimming_parts(k, ws);
    let (lead, gap) = choose|a: Seq<char>, b: Seq<char>|
        {
            &&& k == #[trigger] (a + name + b)
            &&& all_in(a, ws)
            &&& all_in(b, ws)
        };
    let inner = trimmed(v, ws);
    law_trimming_parts(v, ws);
    let (pause, tail) = choose|a: Seq<char>, b: Seq<char>|
        {
            &&& v == #[trigger] (a + inner + b)
            &&& all_in(a, ws)
            &&& all_in(b, ws)
        };
    let value = trimmed(inner, quote);
    law_trimming_parts(inner, quote);
    let (open, close) = choose|a: Seq<char>, b: Seq<char>|
        {
            &&& inner == #[trigger] (a + value + b)
            &&& all_in(a, quote)
            &&& all_in(b, quote)
        };
    let c = WrittenCookie {
        front: front + lead,
        name,
        gap,
        pause,
        open,
        value,
        close,
        back: tail + back,
    };
    lemma_all_in_joins(front, lead, ws);
    lemma_all_in_joins(tail, back, ws);
    assert(c.quoted() == inner);
    assert(!name.contains('=')) by {
        if name.contains('=') {
            let i = choose|i: int| 0 <= i < name.len() && name[i] == '=';
            assert(k[lead.len() + i] == '=');
        }
    }
    assert(c.text() == part);
    c
}

/// Whether a part of a `Cookie` header gives the cookie `name` the value `value`.
pub open spec fn gives_cookie(part: Seq<char>, name: Seq<char>, value: Seq<char>) -> bool {
    exists|c: WrittenCookie| #[trigger]
        c.is_written() && c.text() == part && c.name == name && decoded(c.value) == value
}

proof fn lemma_gives_cookie(part: Seq<char>, name: Seq<char>, value: Seq<char>)
    ensures
        gives_cookie(part, name, value) <==> ({
            let (k, v) = cookie_parts(part);
            k == name && v.len() > 0 && decoded(v) == value
        }),
{
    let (k, v) = cookie_parts(part);
    if gives_cookie(part, name, value) {
        let c = choose|c: WrittenCookie| #[trigger]
            c.is_written() && c.text() == part && c.name == name && decoded(c.value) == value;
        law_written_cookie_is_read(c);
    }
    if k == name && v.len() > 0 && decoded(v) == value {
        let c = lemma_cookie_apart(part);
        assert(c.is_written() && c.text() == part && c.name == name);
    }
}

/// Of the parts that give a cookie a value, the first one counts; where none does,
/// there is no value.
pub proof fn law_first_cookie_counts(
    parts: Seq<Seq<char>>,
    name: Seq<char>,
    i: int,
    value: Seq<char>,
)
    ensures
        0 <= i < parts.len() && gives_cookie(parts[i], name, value) && (forall|
            j: int,
            v: Seq<char>,
        |
            0 <= j < i ==> !#[trigger] gives_cookie(parts[j], name, v)) ==> first_cookie(parts, name)
            == Some(value),
        (forall|j: int, v: Seq<char>|
            0 <= j < parts.len() ==> !#[trigger] gives_cookie(parts[j], name, v)) ==> first_cookie(
            parts,
            name,
        ) is None,
    decreases parts.len(),
{
    if parts.len() > 0 {
        let rest = parts.skip(1);
        let (k, v) = cookie_parts(parts[0]);
        lemma_gives_cookie(parts[0], name, decoded(v));
        lemma_gives_cookie(parts[0], name, value);
        law_first_cookie_counts(rest, name, i - 1, value);
        assert forall|j: int, x: Seq<char>|
            0 <= j < rest.len() implies #[trigger] gives_cookie(rest[j], name, x) == gives_cookie(
            parts[j + 1],
            name,
            x,
        ) by {
            assert(rest[j] == parts[j + 1]);
        }
        if i > 0 && i < parts.len() {
            assert(rest[i - 1] == parts[i]);
        }
    }
}

/// The cookies of a header stand between `;`; the first one with the name and a
/// value counts.
pub proof fn law_cookie(
    header: &str,
    name: &str,
    r: Option<String>,
    parts: Seq<Seq<char>>,
    i: int,
    value: Seq<char>,
)
    requires
        call_ensures(TokenExtractor::parse_cookie, (header, name), r),
        parts.len() > 0,
        forall|j: int| 0 <= j < parts.len() ==> !(#[trigger] parts[j]).contains(';'),
        header@ == joined(parts, ';'),
    ensures
        0 <= i < parts.len() && gives_cookie(parts[i], name@, value) && (forall|
            j: int,
            v: Seq<char>,
        |
            0 <= j < i ==> !#[trigger] gives_cookie(parts[j], name@, v)) ==> r is Some
            && r->0@ == value,
        (forall|j: int, v: Seq<char>|
            0 <= j < parts.len() ==> !#[trigger] gives_cookie(parts[j], name@, v)) ==> r is None,
        r matches Some(text) ==> cookie_value(header@, name@) == Some(text@),
        r is None ==> cookie_value(header@, name@) is None,
{
    law_split_undoes_join(parts, ';');
    law_first_cookie_counts(parts, name@, i, value);
}

/// The token of an extractor is that of its first source that has one: the
/// `Authorization` header asks the header, a query parameter the query and a cookie
/// the cookies, by their names.
pub proof fn law_first_source_counts(
    extractor: TokenExtractor,
    auth: Option<&str>,
    cookie: Option<&str>,
    query: &str,
    r: Option<String>,
    i: int,
)
    requires
        call_ensures(TokenExtractor::extract_from_parts, (&extractor, auth, cookie, query), r),
        0 <= i < extractor@.len(),
        forall|j: int|
            0 <= j < i ==> match #[trigger] extractor@[j] {
                Source::AuthorizationHeader => auth matches Some(h) ==> bearer_token(h@) is None,
                Source::QueryParam(name) => query_value(query@, name) is None,
                Source::Cookie(name) => cookie matches Some(h) ==> cookie_value(h@, name) is None,
            },
    ensures
        extractor@[i] is AuthorizationHeader && auth is Some && bearer_token(auth->0@) is Some ==> r
            is Some && r->0@ == bearer_token(auth->0@)->0,
        extractor@[i] matches Source::QueryParam(name) ==> (query_value(query@, name) matches Some(
            value,
        ) ==> r is Some && r->0@ == value),
        extractor@[i] matches Source::Cookie(name) ==> (cookie is Some && cookie_value(
            cookie->0@,
            name,
        ) is Some ==> r is Some && r->0@ == cookie_value(cookie->0@, name)->0),
{
    let sources = extractor@;
    let a = opt_str(auth);
    let c = opt_str(cookie);
    let earlier = sources.take(i);
    assert(earlier + sources.skip(i) == sources);
    law_sources_are_asked_in_order(earlier, sources.skip(i), a, c, query@);
    assert forall|j: int| 0 <= j < earlier.len() implies token_at(
        #[trigger] earlier[j],
        a,
        c,
        query@,
    ) is None by {
        assert(earlier[j] == sources[j]);
    }
    law_missing_means_no_source_has_a_token(earlier, a, c, query@);
    assert(sources.skip(i)[0] == sources[i]);
}

/// Where no source of an extractor has a token, there is none.
pub proof fn law_no_source_no_token(
    extractor: TokenExtractor,
    auth: Option<&str>,
    cookie: Option<&str>,
    query: &str,
    r: Option<String>,
)
    requires
        call_ensures(TokenExtractor::extract_from_parts, (&extractor, auth, cookie, query), r),
        forall|j: int|
            0 <= j < extractor@.len() ==> match #[trigger] extractor@[j] {
                Source::AuthorizationHeader => auth matches Some(h) ==> bearer_token(h@) is None,
                Source::QueryParam(name) => query_value(query@, name) is None,
                Source::Cookie(name) => cookie matches Some(h) ==> cookie_value(h@, name) is None,
            },
    ensures
        r is None,
{
    let a = opt_str(auth);
    let c = opt_str(cookie);
    assert forall|j: int| 0 <= j < extractor@.len() implies token_at(
        #[trigger] extractor@[j],
        a,
        c,
        query@,
    ) is None by {}
    law_missing_means_no_source_has_a_token(extractor@, a, c, query@);
}

/// An extractor asks the sources that it is given, in their order and by their
/// names.
pub proof fn law_sources_are_kept(
    sources: Vec<TokenSourceKind>,
    r: TokenExtractor,
    more: TokenSourceKind,
    longer: TokenExtractor,
    i: int,
)
    requires
        call_ensures(TokenExtractor::new, (sources,), r),
        call_ensures(TokenExtractor::with_source, (r, more), longer),
        0 <= i <= sources@.len(),
    ensures
        r@.len() == sources@.len(),
        longer@.len() == sources@.len() + 1,
        i < sources@.len() ==> longer@[i] == r@[i],
        ({
            let source = if i < sources@.len() {
                sources@[i]
            } else {
                more
            };
            match longer@[i] {
                Source::AuthorizationHeader => source is AuthorizationHeader,
                Source::QueryParam(name) => source matches TokenSourceKind::QueryParam(text)
                    && text@ == name,
                Source::Cookie(name) => source matches TokenSourceKind::Cookie(text) && text@
                    == name,
            }
        }),
{
}

/// By default the `Authorization` header is asked, then the parameter `token`, then
/// `access_token`; a bearer-only extractor asks the header.
pub proof fn law_default_sources(r: TokenExtractor, bearer: TokenExtractor)
    requires
        call_ensures(TokenExtractor::default, (), r),
        call_ensures(TokenExtractor::bearer_only, (), bearer),
    ensures
        r@.len() == 3,
        r@[0] is AuthorizationHeader,
        r@[1] matches Source::QueryParam(name) && name == "token"@,
        r@[2] matches Source::QueryParam(name) && name == "access_token"@,
        bearer@.len() == 1,
        bearer@[0] is AuthorizationHeader,
{
}

/// From a request, an extractor takes what it takes from the texts of the headers
/// `authorization` and `cookie` and the query; where that is nothing, a token is
/// missing.
pub proof fn law_request_headers(
    extractor: TokenExtractor,
    parts: Parts,
    auth: Option<&str>,
    cookie: Option<&str>,
    query: &str,
    taken: Option<String>,
    r: Option<String>,
    required: Result<String, WsAuthError>,
)
    requires
        call_ensures(TokenExtractor::extract_from_parts, (&extractor, auth, cookie, query), taken),
        call_ensures(TokenExtractor::extract_token, (&extractor, &parts, query), r),
        call_ensures(TokenExtractor::require_token, (&extractor, &parts, query), required),
        auth is Some <==> header_texts(parts).contains_key("authorization"@),
        auth is Some ==> auth->0@ == header_texts(parts)["authorization"@],
        cookie is Some <==> header_texts(parts).contains_key("cookie"@),
        cookie is Some ==> cookie->0@ == header_texts(parts)["cookie"@],
    ensures
        taken is Some <==> r is Some,
        taken is Some ==> r->0@ == taken->0@,
        taken is Some <==> required is Ok,
        taken is Some ==> required->Ok_0@ == taken->0@,
        taken is None ==> required->Err_0 == WsAuthError::Missing,
{
}

/// Each error has its message.
pub proof fn law_auth_error_messages(e: WsAuthError, r: String)
    requires
        call_ensures(WsAuthError::to_string, (&e,), r),
    ensures
        e is Missing ==> r@ == "authentication token missing"@,
        e is Invalid ==> r@ == "authentication token invalid"@,
        e is Expired ==> r@ == "authentication token expired"@,
{
}

/// The sources of an extractor are shown as they were given.
pub proof fn law_sources_are_shown(
    sources: Vec<TokenSourceKind>,
    r: TokenExtractor,
    shown: &[TokenSourceKind],
    i: int,
)
    requires
        call_ensures(TokenExtractor::new, (sources,), r),
        call_ensures(TokenExtractor::sources, (&r,), shown),
    ensures
        shown@.len() == sources@.len(),
        0 <= i < shown@.len() ==> match sources@[i] {
            TokenSourceKind::AuthorizationHeader => shown@[i] is AuthorizationHeader,
            TokenSourceKind::QueryParam(name) => shown@[i] matches TokenSourceKind::QueryParam(
                text,
            ) && text@ == name@,
            TokenSourceKind::Cookie(name) => shown@[i] matches TokenSourceKind::Cookie(text)
                && text@ == name@,
        },
{
    assert(views(shown@) == views(sources@));
    assert(views(shown@).len() == views(sources@).len());
    if 0 <= i < shown@.len() {
        assert(views(shown@)[i] == views(sources@)[i]);
    }
}

} // verus!
