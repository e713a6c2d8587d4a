//! A library that searches manga catalogs, maps what they return into one
//! data model, ranks the results and lays out chapter downloads.
use vstd::prelude::*;

pub mod text;
pub mod types;
pub mod download;
pub mod rank;
pub mod search;
pub mod number;
pub mod url;
pub mod mangadex;
pub mod html;
pub mod madara;
pub mod fetch;
pub mod paging;

pub use download::{chapter_layout, extract_extension, sanitize_filename, ChapterLayout};
pub use rank::SearchResultExt;
pub use search::{
    flatten_outcomes, from_source_outcome, group_outcomes, Identified, SearchBuilder,
    SearchParamsBuilder, SearchParamsBuilderError, Sources,
};
pub use types::{Chapter, ChapterNumber, Error, Manga, SearchParams, SortOrder};

verus! {

} // verus!
