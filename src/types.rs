//! The data model: catalog entries, chapters, search parameters and errors.
use vstd::prelude::*;
use crate::text::{decimal, decimal_chars, join2, string_of};

verus! {

/// A catalog entry as one source lists it.
#[derive(Debug, Clone, PartialEq, Eq)]
pub struct Manga {
    pub id: String,
    pub title: String,
    pub cover_url: Option<String>,
    pub authors: Vec<String>,
    pub description: Option<String>,
    pub tags: Vec<String>,
    pub source_id: String,
}

/// A chapter number held as an exact count of thousandths, so that `12.5`
/// is `12500`. Chapters read in ascending order of this value.
#[derive(Debug, Clone, Copy, PartialEq, Eq, PartialOrd, Ord, Hash, Structural)]
pub struct ChapterNumber {
    pub thousandths: u64,
}

impl ChapterNumber {
    /// The number `n`, with no fractional part.
    pub fn whole(n: u32) -> (r: ChapterNumber)
        ensures
            r.thousandths == n as nat * 1000,
    {
        ChapterNumber { thousandths: n as u64 * 1000 }
    }
}

/// One chapter of a catalog entry.
#[derive(Debug, Clone, PartialEq, Eq)]
pub struct Chapter {
    pub id: String,
    pub number: ChapterNumber,
    pub title: String,
    pub pages: Vec<String>,
    pub manga_id: String,
    pub source_id: String,
}

/// The order a search asks the remote catalog for.
#[derive(Debug, Clone, Copy, PartialEq, Eq, Structural)]
pub enum SortOrder {
    Relevance,
    UpdatedAt,
    CreatedAt,
    Title,
}

/// What a search asks for. Only `query` is required.
#[derive(Debug, Clone, PartialEq, Eq)]
pub struct SearchParams {
    pub query: String,
    pub limit: Option<usize>,
    pub offset: Option<usize>,
    pub include_tags: Vec<String>,
    pub exclude_tags: Vec<String>,
    pub sort_by: Option<SortOrder>,
}

impl SearchParams {
    /// Parameters that carry the query alone.
    pub fn from_query(query: String) -> (r: SearchParams)
        ensures
            r.query@ == query@,
            r.limit is None,
            r.offset is None,
            r.include_tags@.len() == 0,
            r.exclude_tags@.len() == 0,
            r.sort_by is None,
    {
        SearchParams {
            query,
            limit: None,
            offset: None,
            include_tags: Vec::new(),
            exclude_tags: Vec::new(),
            sort_by: None,
        }
    }
}

impl From<String> for SearchParams {
    fn from(query: String) -> (r: SearchParams) {
        SearchParams::from_query(query)
    }
}

impl vstd::std_specs::convert::FromSpecImpl<String> for SearchParams {
    open spec fn obeys_from_spec() -> bool {
        false
    }

    open spec fn from_spec(v: String) -> SearchParams {
        arbitrary()
    }
}

impl<'a> From<&'a str> for SearchParams {
    fn from(query: &'a str) -> (r: SearchParams) {
        SearchParams::from_query(String::from_str(query))
    }
}

impl<'a> vstd::std_specs::convert::FromSpecImpl<&'a str> for SearchParams {
    open spec fn obeys_from_spec() -> bool {
        false
    }

    open spec fn from_spec(v: &'a str) -> SearchParams {
        arbitrary()
    }
}

/// The ways an operation of the library fails.
#[derive(Debug, Clone, PartialEq, Eq)]
pub enum Error {
    /// Transport, DNS, TLS or connection failure, retries included.
    Network(String),
    /// A body that could not be read as expected.
    Parse(String),
    /// A source answered with a failure.
    Source { src: String, message: String },
    /// The manga, chapter, source or pages asked for are not there.
    NotFound(String),
    /// The retry budget for rate limiting ran out.
    RateLimit { retry_after: Option<u64> },
    /// A file system failure while writing downloads.
    Io(String),
    /// A structure that could not be deserialized.
    Json(String),
    /// An image processing failure.
    Image(String),
    /// A background task that did not complete.
    Join(String),
    /// Anything else, such as every source of a search failing.
    Other(String),
}

impl Error {
    pub fn parse(msg: &str) -> (r: Error)
        ensures
            r matches Error::Parse(m) && m@ == msg@,
    {
        Error::Parse(String::from_str(msg))
    }

    pub fn source(src: &str, msg: &str) -> (r: Error)
        ensures
            r matches Error::Source { src: s, message: m } && s@ == src@ && m@ == msg@,
    {
        Error::Source { src: String::from_str(src), message: String::from_str(msg) }
    }

    pub fn not_found(msg: &str) -> (r: Error)
        ensures
            r matches Error::NotFound(m) && m@ == msg@,
    {
        Error::NotFound(String::from_str(msg))
    }

    pub fn rate_limit(retry_after: Option<u64>) -> (r: Error)
        ensures
            r == (Error::RateLimit { retry_after }),
    {
        Error::RateLimit { retry_after }
    }

    /// The human readable description of the error.
    pub fn message(&self) -> (r: String)
        ensures
            r@ == error_text(*self),
    {
        match self {
            Error::Network(m) => join2("Network error: ", m.as_str()),
            Error::Parse(m) => join2("Parse error: ", m.as_str()),
            Error::Source { src, message } => {
                let a = join2("Source error [", src.as_str());
                let b = join2(a.as_str(), "]: ");
                join2(b.as_str(), message.as_str())
            },
            Error::NotFound(m) => join2("Not found: ", m.as_str()),
            Error::RateLimit { retry_after } => {
                let hint = match retry_after {
                    Some(k) => {
                        let digits = decimal_chars(*k);
                        let n = string_of(digits.as_slice());
                        let a = join2("Some(", n.as_str());
                        join2(a.as_str(), ")")
                    },
                    None => String::from_str("None"),
                };
                let a = join2("Rate limited, retry after ", hint.as_str());
                join2(a.as_str(), " seconds")
            },
            Error::Io(m) => join2("IO error: ", m.as_str()),
            Error::Json(m) => join2("JSON error: ", m.as_str()),
            Error::Image(m) => join2("Image error: ", m.as_str()),
            Error::Join(m) => join2("Join error: ", m.as_str()),
            Error::Other(m) => String::from_str(m.as_str()),
        }
    }
}

/// The description of an error: a fixed prefix of its kind, then what it carries.
pub open spec fn error_text(e: Error) -> Seq<char> {
    match e {
        Error::Network(m) => "Network error: "@ + m@,
        Error::Parse(m) => "Parse error: "@ + m@,
        Error::Source { src, message } => "Source error ["@ + src@ + "]: "@ + message@,
        Error::NotFound(m) => "Not found: "@ + m@,
        Error::RateLimit { retry_after } => "Rate limited, retry after "@ + match retry_after {
            Some(k) => "Some("@ + decimal(k as nat) + ")"@,
            None => "None"@,
        } + " seconds"@,
        Error::Io(m) => "IO error: "@ + m@,
        Error::Json(m) => "JSON error: "@ + m@,
        Error::Image(m) => "Image error: "@ + m@,
        Error::Join(m) => "Join error: "@ + m@,
        Error::Other(m) => m@,
    }
}

} // verus!
