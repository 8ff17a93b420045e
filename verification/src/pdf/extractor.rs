//! From the page texts of a parsed document to one validated text.

use crate::pdf::downloader::PdfDownloader;
use crate::pdf::normalize::{normalize_text, normalized};
use crate::pdf::validator::{TextValidator, Verdict};
use crate::text::{chars_of, least, string_of};
use vstd::prelude::*;

verus! {

/// Most pages of a document that are read.
pub const MAX_PAGES: usize = 1000;

/// The character for a digit from 0 to 9.
pub open spec fn digit(d: nat) -> char {
    if d == 0 {
        '0'
    } else if d == 1 {
        '1'
    } else if d == 2 {
        '2'
    } else if d == 3 {
        '3'
    } else if d == 4 {
        '4'
    } else if d == 5 {
        '5'
    } else if d == 6 {
        '6'
    } else if d == 7 {
        '7'
    } else if d == 8 {
        '8'
    } else {
        '9'
    }
}

/// A number written in decimal, with no leading zero.
pub open spec fn decimal(n: nat) -> Seq<char>
    decreases n,
{
    if n < 10 {
        seq![digit(n)]
    } else {
        decimal(n / 10).push(digit(n % 10))
    }
}

/// What opens the heading of a page.
pub open spec fn heading_start() -> Seq<char> {
    "--- PAGE "@
}

/// What closes the heading of a page, line feed included.
pub open spec fn heading_end() -> Seq<char> {
    " ---\n"@
}

/// A page's text under its heading; pages are numbered from 1.
pub open spec fn page_block(number: nat, text: Seq<char>) -> Seq<char> {
    heading_start() + decimal(number) + heading_end() + text
}

/// The page texts as character sequences.
pub open spec fn page_views(pages: Seq<Option<String>>) -> Seq<Option<Seq<char>>> {
    Seq::new(
        pages.len(),
        |i: int|
            match pages[i] {
                Some(t) => Some(t@),
                None => None,
            },
    )
}

/// The text of the page at `index`; none where the page could not be read
/// or was not handed over.
pub open spec fn page_text(pages: Seq<Option<Seq<char>>>, index: int) -> Option<Seq<char>> {
    if 0 <= index < pages.len() {
        pages[index]
    } else {
        None
    }
}

/// Whether the page at `index` has text that is not empty.
pub open spec fn has_text(pages: Seq<Option<Seq<char>>>, index: int) -> bool {
    page_text(pages, index) is Some && page_text(pages, index)->0.len() > 0
}

/// The blocks of those among the first `n` pages that have text, in page
/// order.
pub open spec fn blocks(pages: Seq<Option<Seq<char>>>, n: nat) -> Seq<Seq<char>>
    decreases n,
{
    if n == 0 {
        Seq::empty()
    } else if has_text(pages, n - 1) {
        blocks(pages, (n - 1) as nat).push(page_block(n, page_text(pages, n - 1)->0))
    } else {
        blocks(pages, (n - 1) as nat)
    }
}

/// The parts with a line feed between each two.
pub open spec fn joined(parts: Seq<Seq<char>>) -> Seq<char>
    decreases parts.len(),
{
    if parts.len() == 0 {
        Seq::empty()
    } else if parts.len() == 1 {
        parts[0]
    } else {
        joined(parts.drop_last()) + seq!['\n'] + parts.last()
    }
}

/// The text of a document and how much of it was read.
#[derive(Clone, Debug)]
pub struct PdfExtractionResult {
    /// The normalised text of the pages that were read.
    pub text: String,
    /// Pages in the document.
    pub page_count: usize,
    /// Pages that were read.
    pub pages_processed: usize,
}

/// An extraction result with its text as a character sequence.
pub struct ExtractionView {
    pub text: Seq<char>,
    pub page_count: usize,
    pub pages_processed: usize,
}

impl View for PdfExtractionResult {
    type V = ExtractionView;

    open spec fn view(&self) -> ExtractionView {
        ExtractionView {
            text: self.text@,
            page_count: self.page_count,
            pages_processed: self.pages_processed,
        }
    }
}

/// Turns documents into validated text.
pub struct PdfExtractor {
    downloader: PdfDownloader,
    validator: TextValidator,
    max_pages: usize,
}

impl PdfExtractor {
    /// Most pages read of one document.
    pub closed spec fn max_pages_spec(&self) -> usize {
        self.max_pages
    }

    /// The validator that judges the text.
    pub closed spec fn validator_spec(&self) -> TextValidator {
        self.validator
    }

    /// The downloader that plans the downloads.
    pub closed spec fn downloader_spec(&self) -> PdfDownloader {
        self.downloader
    }

    /// How many pages are read of a document with `page_count` pages.
    pub open spec fn pages_to_process_spec(&self, page_count: usize) -> usize {
        least(page_count as int, self.max_pages_spec() as int) as usize
    }

    /// What extraction gives for a document with `page_count` pages of which
    /// `pages` holds the texts, from the first page on: nothing where no
    /// page that is read has text or the text is not good; else the
    /// normalised text of the pages read, joined under their headings.
    pub open spec fn extraction(
        &self,
        page_count: usize,
        pages: Seq<Option<Seq<char>>>,
    ) -> Option<ExtractionView> {
        let n = self.pages_to_process_spec(page_count);
        let parts = blocks(pages, n as nat);
        let text = normalized(joined(parts));
        if parts.len() == 0 {
            None
        } else if self.validator_spec().verdict(text) != Verdict::Good {
            None
        } else {
            Some(ExtractionView { text, page_count, pages_processed: n })
        }
    }

    /// Whether `result` is what extraction gives for the document.
    pub open spec fn extracted(
        &self,
        page_count: usize,
        pages: Seq<Option<Seq<char>>>,
        result: Option<PdfExtractionResult>,
    ) -> bool {
        match result {
            Some(found) => self.extraction(page_count, pages) == Some(found@),
            None => self.extraction(page_count, pages) is None,
        }
    }

    /// An extractor with the standard limits.
    pub fn new() -> (r: Self)
        ensures
            r.max_pages_spec() == MAX_PAGES,
            r.validator_spec().is_standard(),
            r.downloader_spec().max_size_spec() == crate::pdf::downloader::MAX_PDF_SIZE,
            r.downloader_spec().timeout_secs_spec()
                == crate::pdf::downloader::DOWNLOAD_TIMEOUT_SECS,
            r.downloader_spec().max_retries_spec() == crate::pdf::downloader::MAX_RETRIES,
    {
        PdfExtractor {
            downloader: PdfDownloader::new(),
            validator: TextValidator::new(),
            max_pages: MAX_PAGES,
        }
    }

    /// Most pages read of one document.
    #[verifier::when_used_as_spec(max_pages_spec)]
    pub fn max_pages(&self) -> (r: usize)
        ensures
            r == self.max_pages_spec(),
    {
        self.max_pages
    }

    /// The downloader that plans the downloads.
    pub fn downloader(&self) -> (r: &PdfDownloader)
        ensures
            *r == self.downloader_spec(),
    {
        &self.downloader
    }

    /// The validator that judges the text.
    pub fn validator(&self) -> (r: &TextValidator)
        ensures
            *r == self.validator_spec(),
    {
        &self.validator
    }

    /// How many pages are read of a document with `page_count` pages.
    #[verifier::when_used_as_spec(pages_to_process_spec)]
    pub fn pages_to_process(&self, page_count: usize) -> (r: usize)
        ensures
            r == self.pages_to_process_spec(page_count),
            r <= page_count,
            r <= self.max_pages_spec(),
    {
        if page_count <= self.max_pages {
            page_count
        } else {
            self.max_pages
        }
    }

    /// Extracts the text of a parsed document with `page_count` pages.
    /// `pages` holds the texts of its pages from the first on; a page that
    /// gave no text, or that is not in `pages`, counts as without text.
    pub fn extract_from_pages(&self, page_count: usize, pages: &Vec<Option<String>>) -> (r:
        Option<PdfExtractionResult>)
        ensures
            self.extracted(page_count, page_views(pages@), r),
            r matches Some(found) ==> found.pages_processed <= found.page_count
                && found.pages_processed <= self.max_pages_spec(),
    {
        let n = self.pages_to_process(page_count);
        let ghost texts = page_views(pages@);
        let mut combined: Vec<char> = Vec::new();
        let mut count: usize = 0;
        let mut i: usize = 0;
        while i < n
            invariant
                i <= n,
                texts == page_views(pages@),
                count == blocks(texts, i as nat).len(),
                count <= i,
                combined@ == joined(blocks(texts, i as nat)),
            decreases n - i,
        {
            if i < pages.len() {
                match &pages[i] {
                    Some(text) => {
                        if !text.as_str().is_empty() {
                            let block = make_block(i + 1, text.as_str());
                            proof {
                                let before = blocks(texts, i as nat);
                                assert(before.push(block@).drop_last() =~= before);
                                if count == 0 {
                                    assert(before =~= Seq::empty());
                                }
                            }
                            if count > 0 {
                                combined.push('\n');
                            }
                            append(&mut combined, &block);
                            count = count + 1;
                        }
                    },
                    None => {},
                }
            }
            i = i + 1;
        }
        if count == 0 {
            return None;
        }
        let raw = string_of(&combined);
        let text = normalize_text(raw.as_str());
        if !self.validator.is_good_quality(text.as_str()) {
            return None;
        }
        Some(PdfExtractionResult { text, page_count, pages_processed: n })
    }

    /// Whether `text` passes every check of the validator.
    pub fn validate_text(&self, text: &str) -> (r: bool)
        ensures
            r == (self.validator_spec().verdict(text@) == Verdict::Good),
    {
        self.validator.is_good_quality(text)
    }
}

impl Default for PdfExtractor {
    fn default() -> (r: Self)
        ensures
            r.max_pages_spec() == MAX_PAGES,
            r.validator_spec().is_standard(),
    {
        PdfExtractor::new()
    }
}

/// Computes the character for a digit.
fn digit_char(d: usize) -> (c: char)
    requires
        d < 10,
    ensures
        c == digit(d as nat),
{
    if d == 0 {
        '0'
    } else if d == 1 {
        '1'
    } else if d == 2 {
        '2'
    } else if d == 3 {
        '3'
    } else if d == 4 {
        '4'
    } else if d == 5 {
        '5'
    } else if d == 6 {
        '6'
    } else if d == 7 {
        '7'
    } else if d == 8 {
        '8'
    } else {
        '9'
    }
}

/// Writes `n` in decimal.
pub fn write_decimal(n: usize) -> (r: Vec<char>)
    ensures
        r@ == decimal(n as nat),
    decreases n,
{
    if n < 10 {
        let mut r: Vec<char> = Vec::new();
        r.push(digit_char(n));
        r
    } else {
        let mut r = write_decimal(n / 10);
        r.push(digit_char(n % 10));
        r
    }
}

/// Puts the characters of `more` at the end of `v`.
fn append(v: &mut Vec<char>, more: &Vec<char>)
    ensures
        final(v)@ == old(v)@ + more@,
{
    let mut i: usize = 0;
    while i < more.len()
        invariant
            i <= more.len(),
            v@ == old(v)@ + more@.take(i as int),
        decreases more.len() - i,
    {
        v.push(more[i]);
        i = i + 1;
    }
    assert(more@.take(more.len() as int) =~= more@);
}

/// Makes the block of the page with the given number.
fn make_block(number: usize, text: &str) -> (r: Vec<char>)
    ensures
        r@ == page_block(number as nat, text@),
{
    let mut r = chars_of("--- PAGE ");
    append(&mut r, &write_decimal(number));
    append(&mut r, &chars_of(" ---\n"));
    append(&mut r, &chars_of(text));
    r
}

/// Extracting twice from one document gives the same twice: both times
/// nothing, or both times the same text and the same two page numbers.
pub proof fn law_extraction_repeats(
    extractor: PdfExtractor,
    page_count: usize,
    pages: Seq<Option<Seq<char>>>,
    first: Option<PdfExtractionResult>,
    second: Option<PdfExtractionResult>,
)
    requires
        extractor.extracted(page_count, pages, first),
        extractor.extracted(page_count, pages, second),
    ensures
        first is Some <==> second is Some,
        first is Some ==> first->0@ == second->0@,
{
}

/// A document of which no page that is read has text gives nothing.
pub proof fn law_no_text_gives_nothing(
    extractor: PdfExtractor,
    page_count: usize,
    pages: Seq<Option<Seq<char>>>,
)
    requires
        forall|i: int| 0 <= i < extractor.pages_to_process_spec(page_count) ==> !has_text(pages, i),
    ensures
        extractor.extraction(page_count, pages) is None,
{
    lemma_no_blocks(pages, extractor.pages_to_process_spec(page_count) as nat);
}

/// Pages without text give no block.
proof fn lemma_no_blocks(pages: Seq<Option<Seq<char>>>, n: nat)
    requires
        forall|i: int| 0 <= i < n ==> !has_text(pages, i),
    ensures
        blocks(pages, n).len() == 0,
    decreases n,
{
    if n > 0 {
        lemma_no_blocks(pages, (n - 1) as nat);
    }
}

} // verus!
