//! Pagination of result lists, progress bars and text fitting for front ends,
//! and the settings of an ebook conversion.
use vstd::prelude::*;
use crate::text::{chars_of, string_of};

verus! {

/// Which page of a list is shown.
#[derive(Debug, Clone)]
pub struct AppState {
    pub current_page: usize,
    pub items_per_page: usize,
    pub total_items: usize,
}

/// The number of pages `total` items fill, `per` to a page.
pub open spec fn page_count(total: nat, per: nat) -> nat {
    if per == 0 { 0 } else { ((total + per - 1) as nat) / per }
}

impl AppState {
    pub fn new() -> (r: AppState)
        ensures
            r.current_page == 0,
            r.items_per_page == 20,
            r.total_items == 0,
    {
        AppState { current_page: 0, items_per_page: 20, total_items: 0 }
    }

    /// Sets the number of items and goes back to the first page.
    pub fn set_total_items(&mut self, total: usize)
        ensures
            final(self).total_items == total,
            final(self).current_page == 0,
            final(self).items_per_page == old(self).items_per_page,
    {
        self.total_items = total;
        self.current_page = 0;
    }

    /// The start and end of the items on the current page.
    pub fn current_page_range(&self) -> (r: (usize, usize))
        requires
            self.current_page * self.items_per_page + self.items_per_page <= usize::MAX,
        ensures
            r.0 == self.current_page * self.items_per_page,
            r.1 == if r.0 + self.items_per_page < self.total_items {
                r.0 + self.items_per_page
            } else if self.total_items > r.0 {
                self.total_items as int
            } else {
                r.0 as int
            },
    {
        let start = self.current_page * self.items_per_page;
        let upper = start + self.items_per_page;
        let capped = if upper < self.total_items { upper } else { self.total_items };
        let end = if capped > start { capped } else { start };
        (start, end)
    }

    /// Moves to the next page if there is one.
    pub fn next_page(&mut self) -> (r: bool)
        requires
            old(self).items_per_page > 0,
            old(self).total_items + old(self).items_per_page <= usize::MAX,
        ensures
            r == (old(self).current_page + 1 < page_count(
                old(self).total_items as nat,
                old(self).items_per_page as nat,
            )),
            final(self).current_page == if r {
                old(self).current_page + 1
            } else {
                old(self).current_page as int
            },
            final(self).items_per_page == old(self).items_per_page,
            final(self).total_items == old(self).total_items,
    {
        let max_page = (self.total_items + self.items_per_page - 1) / self.items_per_page;
        if self.current_page < max_page && self.current_page + 1 < max_page {
            self.current_page = self.current_page + 1;
            true
        } else {
            false
        }
    }

    /// Moves to the previous page if there is one.
    pub fn previous_page(&mut self) -> (r: bool)
        ensures
            r == (old(self).current_page > 0),
            final(self).current_page == if r {
                old(self).current_page - 1
            } else {
                old(self).current_page as int
            },
            final(self).items_per_page == old(self).items_per_page,
            final(self).total_items == old(self).total_items,
    {
        if self.current_page > 0 {
            self.current_page = self.current_page - 1;
            true
        } else {
            false
        }
    }

    /// The number of pages, at least one.
    pub fn total_pages(&self) -> (r: usize)
        requires
            self.items_per_page > 0,
            self.total_items + self.items_per_page <= usize::MAX,
        ensures
            r == if self.total_items == 0 {
                1
            } else {
                page_count(self.total_items as nat, self.items_per_page as nat)
            },
    {
        if self.total_items == 0 {
            1
        } else {
            (self.total_items + self.items_per_page - 1) / self.items_per_page
        }
    }
}

impl Default for AppState {
    fn default() -> (r: AppState)
        ensures
            r.current_page == 0,
            r.items_per_page == 20,
            r.total_items == 0,
    {
        AppState::new()
    }
}

/// `n` copies of `c`.
pub open spec fn repeat(c: char, n: nat) -> Seq<char> {
    Seq::new(n, |i: int| c)
}

fn push_repeat(v: &mut Vec<char>, c: char, n: usize)
    ensures
        final(v)@ == old(v)@ + repeat(c, n as nat),
{
    let ghost start = v@;
    let mut i: usize = 0;
    while i < n
        invariant
            i <= n,
            v@ == start + repeat(c, i as nat),
        decreases n - i,
    {
        v.push(c);
        assert(v@ == start + repeat(c, i as nat + 1));
        i = i + 1;
    }
}

/// A bar of `width` cells, the share `current / total` of them full.
pub open spec fn progress_bar(current: nat, total: nat, width: nat) -> Seq<char> {
    if total == 0 {
        repeat('█', width)
    } else {
        let p = (current * width) / total;
        repeat('█', p) + repeat('░', if width > p { (width - p) as nat } else { 0 })
    }
}

pub fn create_progress_bar(current: usize, total: usize, width: usize) -> (r: String)
    requires
        current * width <= usize::MAX,
    ensures
        r@ == progress_bar(current as nat, total as nat, width as nat),
{
    let mut v: Vec<char> = Vec::new();
    if total == 0 {
        push_repeat(&mut v, '█', width);
        assert(v@ == repeat('█', width as nat));
        return string_of(v.as_slice());
    }
    let progress = (current * width) / total;
    push_repeat(&mut v, '█', progress);
    let rest = if width > progress { width - progress } else { 0 };
    push_repeat(&mut v, '░', rest);
    assert(v@ == repeat('█', progress as nat) + repeat('░', rest as nat));
    string_of(v.as_slice())
}

/// `text` fitted to `width` characters: as it is when it fits, else cut with
/// `...` at its end when there is room for it, else cut.
pub open spec fn truncated(text: Seq<char>, width: nat) -> Seq<char> {
    if text.len() <= width {
        text
    } else if width > 3 {
        text.subrange(0, width - 3) + seq!['.', '.', '.']
    } else {
        text.subrange(0, width as int)
    }
}

pub fn truncate_text(text: &str, width: usize) -> (r: String)
    ensures
        r@ == truncated(text@, width as nat),
{
    let v = chars_of(text);
    if v.len() <= width {
        return String::from_str(text);
    }
    let keep = if width > 3 { width - 3 } else { width };
    let mut out: Vec<char> = Vec::new();
    let mut i: usize = 0;
    while i < keep
        invariant
            i <= keep < v@.len(),
            out@ == v@.subrange(0, i as int),
        decreases keep - i,
    {
        out.push(v[i]);
        assert(out@ == v@.subrange(0, i as int + 1));
        i = i + 1;
    }
    if width > 3 {
        out.push('.');
        out.push('.');
        out.push('.');
        assert(out@ == v@.subrange(0, keep as int) + seq!['.', '.', '.']);
    }
    string_of(out.as_slice())
}

/// The kind of ebook a conversion writes.
#[derive(Debug, Clone, Copy, PartialEq, Eq, Structural)]
pub enum EbookFormat {
    Cbz,
    Epub,
}

/// How chapters are grouped into volumes.
#[derive(Debug, Clone, Copy, PartialEq, Eq, Structural)]
pub enum VolumeGrouping {
    Name,
    ImageAnalysis,
    Manual(usize),
    Flat,
}

/// The metadata written into a converted book.
#[derive(Debug, Clone)]
pub struct ConversionMetadata {
    pub title: String,
    pub authors: Vec<String>,
    pub genre: Option<String>,
    pub publisher: Option<String>,
    pub description: Option<String>,
    pub tags: Vec<String>,
}

/// The settings of a conversion. `output_path` is a file system path.
#[derive(Debug, Clone)]
pub struct ConversionConfig {
    pub output_format: EbookFormat,
    pub output_path: String,
    pub volume_grouping: VolumeGrouping,
    pub metadata: Option<ConversionMetadata>,
}

impl Default for ConversionConfig {
    fn default() -> (r: ConversionConfig)
        ensures
            r.output_format == EbookFormat::Cbz,
            r.output_path@ == "./converted"@,
            r.volume_grouping == VolumeGrouping::Name,
            r.metadata is None,
    {
        ConversionConfig {
            output_format: EbookFormat::Cbz,
            output_path: String::from_str("./converted"),
            volume_grouping: VolumeGrouping::Name,
            metadata: None,
        }
    }
}

impl Default for ConversionMetadata {
    fn default() -> (r: ConversionMetadata)
        ensures
            r.title@ == "Untitled Manga"@,
            r.authors@.len() == 1 && r.authors@[0]@ == "Unknown Author"@,
            r.genre is None,
            r.publisher is None,
            r.description is None,
            r.tags@.len() == 0,
    {
        let mut authors: Vec<String> = Vec::new();
        authors.push(String::from_str("Unknown Author"));
        ConversionMetadata {
            title: String::from_str("Untitled Manga"),
            authors,
            genre: None,
            publisher: None,
            description: None,
            tags: Vec::new(),
        }
    }
}

} // verus!
