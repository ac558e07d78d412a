use vstd::prelude::*;

verus! {

/// The serialization of the URL that `url::Url::parse` reads from `s`,
/// or `None` where `s` is no absolute URL.
pub uninterp spec fn parsed_url(s: Seq<char>) -> Option<Seq<char>>;

/// The serialization of the URL that `url::Url::join` makes of the URL
/// reference `href` against the URL that `base` parses to, or `None` where
/// either step fails.
pub uninterp spec fn joined_url(base: Seq<char>, href: Seq<char>) -> Option<Seq<char>>;

/// Relies on `url::Url::parse`, which parses an absolute URL, and on
/// `url::Url::as_str`, which gives its serialization.
#[verifier::external_body]
pub(crate) fn parse_url(s: &str) -> (r: Option<String>)
    ensures
        r.deep_view() == parsed_url(s@),
{
    match url::Url::parse(s) {
        Ok(u) => Some(String::from(u.as_str())),
        Err(_) => None,
    }
}

/// Relies on `url::Url::join`, which resolves a URL reference against a base
/// URL by the rules of RFC 3986 (the base is read with `url::Url::parse`),
/// and on `url::Url::as_str` for the serialization of the result.
#[verifier::external_body]
pub(crate) fn join_url(base: &str, href: &str) -> (r: Option<String>)
    ensures
        r.deep_view() == joined_url(base@, href@),
{
    match url::Url::parse(base) {
        Ok(b) => match b.join(href) {
            Ok(u) => Some(String::from(u.as_str())),
            Err(_) => None,
        },
        Err(_) => None,
    }
}

} // verus!
