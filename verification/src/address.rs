//! Repository addresses, as the `url` crate reads them.
//!
//! The crate's parser stays outside the proofs. What it finds in a text is
//! handed over as plain values, and its result has the name [`url_parse`]:
//! the contracts of this library say what they do with that result, not what
//! the result is.

use vstd::prelude::*;
use crate::text::views;

verus! {

/// Why a text is no absolute URL.
#[derive(Clone, Copy, Debug, PartialEq, Eq, Structural)]
pub enum UrlError {
    /// The text is a relative reference, and there is no base to resolve it against.
    RelativeWithoutBase,
    /// Any other failure of the parser.
    Malformed,
}

/// What the library reads of a parsed URL.
#[derive(Debug)]
pub struct UrlParts {
    /// The host, where the URL has one.
    pub host: Option<String>,
    /// The segments of the path; `None` for a URL that cannot be a base.
    pub segments: Option<Vec<String>>,
}

/// The mathematical value of [`UrlParts`].
pub struct UrlPartsView {
    pub host: Option<Seq<char>>,
    pub segments: Option<Seq<Seq<char>>>,
}

impl View for UrlParts {
    type V = UrlPartsView;

    open spec fn view(&self) -> UrlPartsView {
        UrlPartsView {
            host: match self.host {
                Some(h) => Some(h@),
                None => None,
            },
            segments: match self.segments {
                Some(s) => Some(views(s@)),
                None => None,
            },
        }
    }
}

/// The outcome of a parse, as a mathematical value.
pub open spec fn parsed_view(r: Result<UrlParts, UrlError>) -> Result<UrlPartsView, UrlError> {
    match r {
        Ok(parts) => Ok(parts@),
        Err(e) => Err(e),
    }
}

/// What `url::Url::parse` makes of `text`: the host and the path segments of
/// the URL it returns, or the kind of its failure.
pub uninterp spec fn url_parse(text: Seq<char>) -> Result<UrlPartsView, UrlError>;

/// Calls `url::Url::parse` on `text`. On success it hands over what
/// `Url::host_str` and `Url::path_segments` return for the parsed URL; on
/// failure it tells `ParseError::RelativeUrlWithoutBase` from every other
/// error. The contract claims only that this outcome is a function of the
/// text, named `url_parse`.
#[verifier::external_body]
pub(crate) fn parse_url(text: &str) -> (r: Result<UrlParts, UrlError>)
    ensures
        parsed_view(r) == url_parse(text@),
{
    match url::Url::parse(text) {
        Ok(u) => Ok(UrlParts {
            host: u.host_str().map(String::from),
            segments: u.path_segments().map(|s| s.map(String::from).collect()),
        }),
        Err(url::ParseError::RelativeUrlWithoutBase) => Err(UrlError::RelativeWithoutBase),
        Err(_) => Err(UrlError::Malformed),
    }
}

} // verus!
