//! Web addresses, as the crate `url` reads them.

use vstd::prelude::*;

use crate::text::views;

verus! {

/// What a web address holds: the segments of its path, where it has such a
/// path, and the pairs of its query, both percent-decoded as far as the reader
/// decodes them.
#[derive(Debug)]
pub struct UrlParts {
    pub segments: Option<Vec<String>>,
    pub pairs: Vec<(String, String)>,
}

/// The characters of each pair of strings.
pub open spec fn pair_views(v: Seq<(String, String)>) -> Seq<(Seq<char>, Seq<char>)> {
    v.map_values(|p: (String, String)| (p.0@, p.1@))
}

impl UrlParts {
    /// The segments of the path.
    pub open spec fn path(self) -> Option<Seq<Seq<char>>> {
        match self.segments {
            Some(v) => Some(views(v@)),
            None => None,
        }
    }

    /// The pairs of the query.
    pub open spec fn query(self) -> Seq<(Seq<char>, Seq<char>)> {
        pair_views(self.pairs@)
    }
}

/// Why the address reader refused an address; it is only carried.
#[verifier::external_type_specification]
#[verifier::external_body]
pub struct ExUrlParseError(url::ParseError);

/// The path segments and the query pairs of the address that a text writes;
/// none where it writes no address.
pub uninterp spec fn url_parts(text: Seq<char>) -> Option<
    (Option<Seq<Seq<char>>>, Seq<(Seq<char>, Seq<char>)>),
>;

/// Trusted: `url::Url::parse`, with the address read by `path_segments` and
/// `query_pairs`. Whether a text is an address, and what the two give of it,
/// depends on the text alone, and is named.
#[verifier::external_body]
pub(crate) fn split_url(text: &str) -> (r: Result<UrlParts, url::ParseError>)
    ensures
        url_parts(text@) == (match r {
            Ok(parts) => Some((parts.path(), parts.query())),
            Err(_) => None::<(Option<Seq<Seq<char>>>, Seq<(Seq<char>, Seq<char>)>)>,
        }),
{
    let u = url::Url::parse(text)?;
    Ok(
        UrlParts {
            segments: u.path_segments().map(|s| s.map(String::from).collect()),
            pairs: u.query_pairs().map(|p| (p.0.into_owned(), p.1.into_owned())).collect(),
        },
    )
}

/// Whether a text writes a web address.
pub fn is_url(text: &str) -> (r: bool)
    ensures
        r == url_parts(text@) is Some,
{
    split_url(text).is_ok()
}

} // verus!
