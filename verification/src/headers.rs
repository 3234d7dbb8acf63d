//! Headers of an HTTP upgrade request.
use http::request::Parts;
use vstd::prelude::*;

verus! {

/// The head of an HTTP request, as the `http` crate holds it.
#[verifier::external_type_specification]
#[verifier::external_body]
pub struct ExParts(Parts);

/// The headers of a request whose first value reads as text, each under every
/// spelling of its name that a lookup accepts.
pub uninterp spec fn header_texts(parts: Parts) -> Map<Seq<char>, Seq<char>>;

/// The text of the header `name`.
pub open spec fn header_text(parts: Parts, name: Seq<char>) -> Option<Seq<char>> {
    if header_texts(parts).contains_key(name) {
        Some(header_texts(parts)[name])
    } else {
        None
    }
}

/// `http::HeaderMap::get` finds the first value of the header `name`, and
/// `http::HeaderValue::to_str` reads it as text. There is none where the
/// header is absent or where its value holds anything but visible ASCII
/// characters, spaces and tabs.
#[verifier::external_body]
pub(crate) fn header<'a>(parts: &'a Parts, name: &str) -> (r: Option<&'a str>)
    ensures
        match r {
            Some(text) => header_texts(*parts).contains_key(name@) && header_texts(*parts)[name@]
                == text@,
            None => !header_texts(*parts).contains_key(name@),
        },
{
    parts.headers.get(name)?.to_str().ok()
}

} // verus!
