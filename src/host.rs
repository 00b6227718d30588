use vstd::prelude::*;

verus! {

#[verifier::external_type_specification]
#[verifier::external_body]
pub struct ExParseError(url::ParseError);

/// Whether `url::Url::parse` accepts the text.
pub uninterp spec fn url_parses(text: Seq<char>) -> bool;

/// The host, as `url::Url::host_str` writes it, of the URL parsed from the text.
pub uninterp spec fn url_host(text: Seq<char>) -> Option<Seq<char>>;

pub open spec fn opt_view(o: Option<String>) -> Option<Seq<char>> {
    match o {
        Some(s) => Some(s@),
        None => None,
    }
}

/// Relies on `url::Url::parse`, which accepts or refuses a text by the text
/// alone, and on `url::Url::host_str`, the host part of the URL it parsed; a
/// parsed URL is read here and nowhere else, so both calls stand together.
#[verifier::external_body]
pub(crate) fn parse_url_host(text: &str) -> (r: Result<Option<String>, url::ParseError>)
    ensures
        r is Ok <==> url_parses(text@),
        r matches Ok(h) ==> opt_view(h) == url_host(text@),
{
    match url::Url::parse(text) {
        Ok(u) => Ok(u.host_str().map(String::from)),
        Err(e) => Err(e),
    }
}

} // verus!
