//! What the engine learns from pdfium as integers: how many pages a document
//! has, and which characters of a page a text search hits. pdfium itself is a
//! native library bound at run time; its answers are taken as they come, and
//! the library's part is what it does with them.

use vstd::prelude::*;

use pdfium_render::prelude::{PdfPageIndex, PdfSearchDirection, PdfSearchOptions, Pdfium, PdfiumError};

use crate::error::{check_page_index, EngineError};
use crate::extract::{hit_span, segments_span};
use crate::types::{CharSpan, PageIndex, SearchQuery};

verus! {

#[verifier::external_type_specification]
#[verifier::external_body]
pub struct ExPdfium(Pdfium);

#[verifier::external_type_specification]
#[verifier::external_body]
pub struct ExPdfiumError(PdfiumError);

/// `Pdfium::load_pdf_from_byte_slice` (no password), then the length of the
/// document's page collection. Nothing is claimed of the outcome: it is what
/// the pdfium library found at run time makes of the bytes.
#[verifier::external_body]
fn load_page_count(pdfium: &Pdfium, bytes: &[u8]) -> (r: Result<usize, PdfiumError>) {
    match pdfium.load_pdf_from_byte_slice(bytes, None) {
        Ok(doc) => Ok(doc.pages().len() as usize),
        Err(e) => Err(e),
    }
}

/// `PdfPageText::search` on one page of the document in `bytes`, with the
/// query's case and whole-word options, walked forward: for every hit, the
/// first and last character index of each of its segments (`None` for a
/// segment whose characters pdfium cannot give). Loading the document, the
/// page or its text can fail as well. Nothing is claimed of the outcome: it is
/// what the pdfium library found at run time makes of the bytes.
#[verifier::external_body]
fn search_hit_segments(pdfium: &Pdfium, bytes: &[u8], page: usize, query: &SearchQuery) -> (r: Result<
    Vec<Vec<Option<(usize, usize)>>>,
    PdfiumError,
>) {
    let doc = pdfium.load_pdf_from_byte_slice(bytes, None)?;
    let page = doc.pages().get(page as PdfPageIndex)?;
    let text = page.text()?;
    let options = PdfSearchOptions::new().match_case(query.case_sensitive).match_whole_word(query.whole_word);
    let search = text.search(&query.term, &options)?;
    let hits = search.iter(PdfSearchDirection::SearchForward);
    Ok(hits.map(|hit| hit.iter().map(|s| s.chars().ok().and_then(|c| Some((c.first_char_index()?, c.last_char_index()?)))).collect()).collect())
}

/// The `Display` text of a pdfium error (`ToString::to_string`). Nothing is
/// claimed of the text.
#[verifier::external_body]
fn pdfium_error_message(e: &PdfiumError) -> (message: String) {
    e.to_string()
}

/// The number of pages of the PDF document in `bytes`; any failure to open
/// it reports an invalid document.
pub fn document_page_count(pdfium: &Pdfium, bytes: &[u8]) -> (r: Result<usize, EngineError>)
    ensures
        r matches Err(e) ==> e == EngineError::InvalidPdf,
{
    match load_page_count(pdfium, bytes) {
        Ok(n) => Ok(n),
        Err(_) => Err(EngineError::InvalidPdf),
    }
}

/// The spans of the hits, in order, leaving out each hit without a span.
pub open spec fn hit_spans(page: PageIndex, hits: Seq<Vec<Option<(usize, usize)>>>) -> Seq<CharSpan>
    decreases hits.len(),
{
    if hits.len() == 0 {
        Seq::empty()
    } else {
        let rest = hit_spans(page, hits.drop_last());
        match segments_span(page, hits.last()@) {
            Some(s) => rest.push(s),
            None => rest,
        }
    }
}

/// Hits become spans one by one, in order, none dropped and none added: the
/// spans of two runs of hits are the spans of the first run followed by those
/// of the second, and a single hit gives exactly its span, or nothing when it
/// has none.
pub proof fn lemma_hit_spans_in_order(
    page: PageIndex,
    a: Seq<Vec<Option<(usize, usize)>>>,
    b: Seq<Vec<Option<(usize, usize)>>>,
    h: Vec<Option<(usize, usize)>>,
)
    ensures
        hit_spans(page, a + b) == hit_spans(page, a) + hit_spans(page, b),
        hit_spans(page, seq![h]) == match segments_span(page, h@) {
            Some(s) => seq![s],
            None => Seq::<CharSpan>::empty(),
        },
    decreases b.len(),
{
    assert(seq![h].drop_last() =~= Seq::<Vec<Option<(usize, usize)>>>::empty());
    assert(hit_spans(page, Seq::<Vec<Option<(usize, usize)>>>::empty()) == Seq::<CharSpan>::empty());
    if b.len() == 0 {
        assert(a + b =~= a);
        assert(hit_spans(page, a) + hit_spans(page, b) =~= hit_spans(page, a));
    } else {
        lemma_hit_spans_in_order(page, a, b.drop_last(), h);
        assert((a + b).drop_last() =~= a + b.drop_last());
        assert((a + b).last() == b.last());
        match segments_span(page, b.last()@) {
            Some(s) => {
                assert(hit_spans(page, a) + hit_spans(page, b) =~= (hit_spans(page, a) + hit_spans(
                    page,
                    b.drop_last(),
                )).push(s));
            },
            None => {},
        }
    }
}

/// The character spans of search hits on `page`, each hit given by its
/// segments' first and last characters; hits without a span are left out.
pub fn spans_of_hits(page: PageIndex, hits: &Vec<Vec<Option<(usize, usize)>>>) -> (spans: Vec<CharSpan>)
    ensures
        spans@ == hit_spans(page, hits@),
{
    let mut spans: Vec<CharSpan> = Vec::new();
    let mut i: usize = 0;
    while i < hits.len()
        invariant
            i <= hits@.len(),
            spans@ == hit_spans(page, hits@.take(i as int)),
        decreases hits.len() - i,
    {
        assert(hits@.take(i as int + 1).drop_last() =~= hits@.take(i as int));
        assert(hits@.take(i as int + 1).last() == hits@[i as int]);
        match hit_span(page, &hits[i]) {
            Some(s) => spans.push(s),
            None => {},
        }
        i += 1;
    }
    assert(hits@.take(hits@.len() as int) =~= hits@);
    spans
}

/// Search one page of the document in `bytes` (which has `page_count` pages)
/// for the query: the character span of every hit, in search order. An empty
/// term finds nothing; a page outside the document is refused before pdfium
/// is asked; a pdfium failure is reported with its message.
pub fn search_page_spans(
    pdfium: &Pdfium,
    bytes: &[u8],
    page_idx: PageIndex,
    page_count: usize,
    query: &SearchQuery,
) -> (r: Result<Vec<CharSpan>, EngineError>)
    ensures
        query.term@.len() == 0 ==> (r matches Ok(v) && v@.len() == 0),
        query.term@.len() > 0 && page_idx.0 >= page_count ==> r == Err::<Vec<CharSpan>, EngineError>(
            EngineError::PageIndexOutOfBounds { index: page_idx.0 as u32, count: page_count as u32 },
        ),
        query.term@.len() > 0 ==> (r matches Ok(v) ==> exists|hits: Seq<Vec<Option<(usize, usize)>>>|
            v@ == #[trigger] hit_spans(page_idx, hits)),
        page_idx.0 < page_count ==> (r matches Err(e) ==> e is Pdfium),
{
    if query.term.as_str().unicode_len() == 0 {
        return Ok(Vec::new());
    }
    match check_page_index(page_idx, page_count) {
        Ok(()) => {},
        Err(e) => {
            return Err(e);
        },
    }
    match search_hit_segments(pdfium, bytes, page_idx.0, query) {
        Ok(hits) => {
            let spans = spans_of_hits(page_idx, &hits);
            Ok(spans)
        },
        Err(e) => Err(EngineError::Pdfium { message: pdfium_error_message(&e) }),
    }
}

} // verus!
