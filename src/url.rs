//! The URL type of the `base_url` crate, which the document carries for its host and its
//! sitemaps, and the few of its operations the library needs.
use vstd::prelude::*;

use base_url::{BaseUrl, Url};

verus! {

#[verifier::external_type_specification]
#[verifier::external_body]
pub struct ExBaseUrl(BaseUrl);

#[verifier::external_type_specification]
#[verifier::external_body]
pub struct ExUrl(Url);

/// Whether `base_url` accepts the text as an absolute URL that can serve as a base.
pub uninterp spec fn is_base_url(s: Seq<char>) -> bool;

/// Relies on `BaseUrl::try_from(&str)`: it succeeds exactly when the text parses as a URL
/// that has a host (and so can be a base); the result depends on the text alone.
#[verifier::external_body]
pub(crate) fn parse_base_url(s: &str) -> (r: Option<BaseUrl>)
    ensures
        r is Some <==> is_base_url(s@),
{
    BaseUrl::try_from(s).ok()
}

/// Relies on `BaseUrl::path`: the path of the URL, as text.
#[verifier::external_body]
pub(crate) fn url_path(u: &BaseUrl) -> (r: String) {
    u.path().to_string()
}

/// Relies on `BaseUrl`'s derived `Clone`: the copy equals the original.
#[verifier::external_body]
pub(crate) fn clone_url(u: &BaseUrl) -> (r: BaseUrl)
    ensures
        r == *u,
{
    u.clone()
}

/// Relies on `BaseUrl::set_query`, which with `None` removes the query.
#[verifier::external_body]
pub(crate) fn clear_query(u: &mut BaseUrl) {
    u.set_query(None)
}

/// Relies on `BaseUrl::set_fragment`, which with `None` removes the fragment.
#[verifier::external_body]
pub(crate) fn clear_fragment(u: &mut BaseUrl) {
    u.set_fragment(None)
}

/// Relies on `From<BaseUrl> for Url`, which hands out the URL inside.
#[verifier::external_body]
pub(crate) fn url_of(u: BaseUrl) -> (r: Url) {
    Url::from(u)
}

/// Relies on `Url::set_username`, which refuses (leaving the URL as it was) a URL that
/// cannot carry a user name, such as a `file` URL; tells whether it succeeded.
#[verifier::external_body]
pub(crate) fn url_set_username(u: &mut Url, name: &str) -> (r: bool) {
    u.set_username(name).is_ok()
}

/// Relies on `Url::set_password` with `None`, which removes the password, or refuses as
/// `Url::set_username` does; tells whether it succeeded.
#[verifier::external_body]
pub(crate) fn url_clear_password(u: &mut Url) -> (r: bool) {
    u.set_password(None).is_ok()
}

/// Relies on `TryFrom<Url> for BaseUrl`, which accepts a URL that can be a base.
#[verifier::external_body]
pub(crate) fn base_of(u: Url) -> (r: Option<BaseUrl>) {
    BaseUrl::try_from(u).ok()
}

/// Relies on `BaseUrl::set_path`, which replaces the path.
#[verifier::external_body]
pub(crate) fn set_url_path(u: &mut BaseUrl, path: &str) {
    u.set_path(path)
}

} // verus!
