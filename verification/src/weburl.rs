use vstd::prelude::*;

verus! {

/// The parts of an absolute URL that the library reads.
pub struct UrlParts {
    pub scheme: String,
    pub host: Option<String>,
    pub port: Option<u16>,
}

/// What the `url` crate makes of a string: `None` when `Url::parse` rejects it, otherwise
/// the scheme, the host (`host_str`) and the explicit port (`port`) of the parsed URL.
pub uninterp spec fn parsed_url(input: Seq<char>) -> Option<(Seq<char>, Option<Seq<char>>, Option<u16>)>;

/// The model of a parse result.
pub open spec fn url_parts_model(r: Option<UrlParts>) -> Option<(Seq<char>, Option<Seq<char>>, Option<u16>)> {
    match r {
        None => None,
        Some(p) => Some(
            (
                p.scheme@,
                match p.host {
                    Some(h) => Some(h@),
                    None => None,
                },
                p.port,
            ),
        ),
    }
}

#[verifier::external_body]
/// Calls `url::Url::parse` and reads `scheme`, `host_str` and `port` of the result.
/// Claimed: the result is what the name `parsed_url` gives for the input; nothing is stated
/// of the URL grammar itself.
pub(crate) fn parse_url(input: &str) -> (r: Option<UrlParts>)
    ensures
        url_parts_model(r) == parsed_url(input@),
{
    match url::Url::parse(input) {
        Err(_) => None,
        Ok(parsed) => Some(
            UrlParts {
                scheme: parsed.scheme().to_string(),
                host: match parsed.host_str() {
                    Some(h) => Some(h.to_string()),
                    None => None,
                },
                port: parsed.port(),
            },
        ),
    }
}

} // verus!
