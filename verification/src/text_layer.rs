//! Text-layer plugin state: selection by pointer, select-all, and the
//! reconstruction of the selected text.

use vstd::prelude::*;

use crate::strings::push_char;
use crate::extract::{clipped_line_ranges, clipped_ranges, lemma_clipped_ranges};
use crate::text::{index_le, SelectionRange};
use crate::types::{CharIndex, CharSpan, PageIndex};

verus! {

/// What the selection logic reads of one page's extracted text: the
/// characters of its glyphs in extraction order, and its word and line spans.
#[derive(Debug, Clone)]
pub struct TextPage {
    /// The character of every glyph, in extraction order.
    pub chars: Vec<char>,
    /// Word groups as character spans.
    pub words: Vec<CharSpan>,
    /// Line groups as character spans.
    pub lines: Vec<CharSpan>,
}

/// The extracted text of every page of a document; `None` where extraction
/// failed.
#[derive(Debug, Clone)]
pub struct DocumentText {
    /// One entry per page, in page order.
    pub pages: Vec<Option<TextPage>>,
}

/// A pointer (mouse/touch) event on a page.
#[derive(Debug, Clone, Copy, PartialEq, Eq, Structural)]
pub struct PointerEvent {
    /// Whether the primary mouse button is currently held down.
    pub primary_down: bool,
    /// Whether the shift modifier is held.
    pub shift: bool,
    /// Click count: 1 = single, 2 = double, 3 = triple.
    pub click_count: u8,
}

/// The abstract state of a [`TextLayerPlugin`].
pub struct TextLayerState {
    /// Whether the debug overlay is enabled.
    pub debug: bool,
    /// The current selection.
    pub selection: Option<SelectionRange>,
    /// Where a drag selection started.
    pub anchor: Option<CharIndex>,
}

/// Plugin that provides text hit-testing results, selection and a debug overlay
/// switch.
#[derive(Debug)]
pub struct TextLayerPlugin {
    debug: bool,
    selection: Option<SelectionRange>,
    selection_anchor: Option<CharIndex>,
}

impl TextLayerPlugin {
    /// In every state, from `new` on, a selection that is present is ordered:
    /// its start does not come after its end.
    #[verifier::type_invariant]
    closed spec fn selection_ordered(self) -> bool {
        self.selection matches Some(s) ==> s.normalized()
    }
}

impl View for TextLayerPlugin {
    type V = TextLayerState;

    closed spec fn view(&self) -> TextLayerState {
        TextLayerState {
            debug: self.debug,
            selection: self.selection,
            anchor: self.selection_anchor,
        }
    }
}

/// The first span of `spans`, from position `i` on, that lies on `page` and
/// covers character `c`.
pub open spec fn first_holding_from(spans: Seq<CharSpan>, page: PageIndex, c: usize, i: int) -> Option<CharSpan>
    decreases spans.len() - i,
{
    if i < 0 || i >= spans.len() {
        None
    } else if spans[i].holds(page, c) {
        Some(spans[i])
    } else {
        first_holding_from(spans, page, c, i + 1)
    }
}

/// The first span of `spans` that lies on `page` and covers character `c`.
pub open spec fn first_holding(spans: Seq<CharSpan>, page: PageIndex, c: usize) -> Option<CharSpan> {
    first_holding_from(spans, page, c, 0)
}

/// The selection covering a whole span of `page`.
pub open spec fn span_selection(page: PageIndex, s: CharSpan) -> SelectionRange {
    SelectionRange {
        start: CharIndex { page, char: s.start },
        end: CharIndex { page, char: s.end },
    }
}

/// Selection after a multi-click that selects the span (line or word) under
/// the pointer: `None` when no span is hit.
pub open spec fn span_click(spans: Seq<CharSpan>, page: PageIndex, hit: Option<usize>) -> Option<SelectionRange> {
    match hit {
        Some(c) => match first_holding(spans, page, c) {
            Some(s) => Some(span_selection(page, s)),
            None => None,
        },
        None => None,
    }
}

/// How a pointer event on `page` changes the selection and the drag anchor,
/// and whether the event is consumed. `text` is the page's text (`None` when
/// there is no document or its text cannot be had) and `hit` the index of the
/// first glyph under the pointer.
pub open spec fn pointer_step(
    selection: Option<SelectionRange>,
    anchor: Option<CharIndex>,
    page: PageIndex,
    event: PointerEvent,
    text: Option<TextPage>,
    hit: Option<usize>,
) -> (Option<SelectionRange>, Option<CharIndex>, bool) {
    match text {
        None => (selection, anchor, false),
        Some(t) => if event.click_count >= 3 {
            match span_click(t.lines@, page, hit) {
                Some(r) => (Some(r), None, true),
                None => (selection, anchor, false),
            }
        } else if event.click_count == 2 {
            match span_click(t.words@, page, hit) {
                Some(r) => (Some(r), None, true),
                None => (selection, anchor, false),
            }
        } else if event.shift && event.click_count == 1 && !event.primary_down {
            match hit {
                Some(c) => {
                    let target = CharIndex { page, char: c };
                    let start = match selection {
                        Some(s) => s.start,
                        None => target,
                    };
                    (Some(SelectionRange::between(start, target)), anchor, true)
                },
                None => (selection, anchor, false),
            }
        } else if event.primary_down && anchor.is_some() && hit.is_some() {
            (
                Some(SelectionRange::between(anchor.unwrap(), CharIndex { page, char: hit.unwrap() })),
                anchor,
                true,
            )
        } else if event.primary_down && event.click_count == 1 {
            match hit {
                Some(c) => {
                    let here = CharIndex { page, char: c };
                    (Some(SelectionRange::between(here, here)), Some(here), true)
                },
                None => (None, None, false),
            }
        } else {
            (selection, anchor, false)
        },
    }
}

/// The characters of `chars` from `start` to `end`, or nothing when that
/// range does not lie within it.
pub open spec fn char_slice(chars: Seq<char>, start: int, end: int) -> Seq<char> {
    if 0 <= start <= end <= chars.len() {
        chars.subrange(start, end)
    } else {
        Seq::empty()
    }
}

/// The text that page `p` contributes to the selection `sel`: the selected
/// characters of the page, followed by a line break unless it is the last
/// page of the selection. A page whose text cannot be had contributes nothing.
pub open spec fn page_piece(sel: SelectionRange, doc: DocumentText, p: int) -> Seq<char> {
    if 0 <= p < doc.pages@.len() && doc.pages@[p].is_some() {
        let t = doc.pages@[p].unwrap();
        let start = if p == sel.start.page.0 { sel.start.char as int } else { 0 };
        let end = if p == sel.end.page.0 { sel.end.char as int } else { t.chars@.len() as int };
        char_slice(t.chars@, start, end) + if p < sel.end.page.0 {
            seq!['\n']
        } else {
            Seq::empty()
        }
    } else {
        Seq::empty()
    }
}

/// The pieces of the pages of `sel` before page `p`, in page order.
pub open spec fn text_upto(sel: SelectionRange, doc: DocumentText, p: int) -> Seq<char>
    decreases p - sel.start.page.0,
{
    if p <= sel.start.page.0 {
        Seq::empty()
    } else {
        text_upto(sel, doc, p - 1) + page_piece(sel, doc, p - 1)
    }
}

/// The text of the selection `sel`: the pieces of all its pages, first to last.
pub open spec fn selection_text(sel: SelectionRange, doc: DocumentText) -> Seq<char> {
    text_upto(sel, doc, sel.end.page.0 + 1)
}

/// The whole text of page `p` followed by a line break; nothing when the
/// page's text cannot be had.
pub open spec fn whole_page_line(doc: DocumentText, p: int) -> Seq<char> {
    if 0 <= p < doc.pages@.len() && doc.pages@[p].is_some() {
        doc.pages@[p].unwrap().chars@ + seq!['\n']
    } else {
        Seq::empty()
    }
}

/// The whole texts, each followed by a line break, of pages `lo..hi` in page
/// order.
pub open spec fn whole_pages(doc: DocumentText, lo: int, hi: int) -> Seq<char>
    decreases hi - lo,
{
    if hi <= lo {
        Seq::empty()
    } else {
        whole_pages(doc, lo, hi - 1) + whole_page_line(doc, hi - 1)
    }
}

/// The characters of page `p` from `start` to `end` (nothing when the page's
/// text cannot be had or the range does not lie within it).
pub open spec fn page_chars(doc: DocumentText, p: int, start: int, end: int) -> Seq<char> {
    if 0 <= p < doc.pages@.len() && doc.pages@[p].is_some() {
        char_slice(doc.pages@[p].unwrap().chars@, start, end)
    } else {
        Seq::empty()
    }
}

/// The length of page `p`'s text (zero when it cannot be had).
pub open spec fn page_len(doc: DocumentText, p: int) -> int {
    if 0 <= p < doc.pages@.len() && doc.pages@[p].is_some() {
        doc.pages@[p].unwrap().chars@.len() as int
    } else {
        0
    }
}

/// Whether page `p`'s text can be had.
pub open spec fn page_available(doc: DocumentText, p: int) -> bool {
    0 <= p < doc.pages@.len() && doc.pages@[p].is_some()
}

proof fn lemma_text_upto_middle(sel: SelectionRange, doc: DocumentText, q: int)
    requires
        sel.start.page.0 < q <= sel.end.page.0,
    ensures
        text_upto(sel, doc, q) == (page_chars(
            doc,
            sel.start.page.0 as int,
            sel.start.char as int,
            page_len(doc, sel.start.page.0 as int),
        ) + if page_available(doc, sel.start.page.0 as int) {
            seq!['\n']
        } else {
            Seq::empty()
        }) + whole_pages(doc, sel.start.page.0 + 1, q),
    decreases q,
{
    let f = sel.start.page.0 as int;
    if q == f + 1 {
        assert(text_upto(sel, doc, f) == Seq::<char>::empty());
        assert(text_upto(sel, doc, q) =~= page_piece(sel, doc, f));
        assert(whole_pages(doc, f + 1, q) == Seq::<char>::empty());
        if page_available(doc, f) {
            assert(page_piece(sel, doc, f) =~= page_chars(doc, f, sel.start.char as int, page_len(doc, f)) + seq!['\n']);
        }
    } else {
        lemma_text_upto_middle(sel, doc, q - 1);
        if page_available(doc, q - 1) {
            let t = doc.pages@[q - 1].unwrap();
            assert(char_slice(t.chars@, 0, t.chars@.len() as int) =~= t.chars@);
            assert(page_piece(sel, doc, q - 1) =~= whole_page_line(doc, q - 1));
        }
    }
}

/// The selected text, page by page. A selection within one page gives that
/// page's characters from its start to its end character. A selection over
/// several pages gives, in page order: the first page's characters from the
/// start character on and a line break; the whole text of every page strictly
/// between, each followed by a line break; and the last page's characters up
/// to the end character. A page whose text cannot be had gives nothing, not
/// even its line break.
pub proof fn lemma_selection_text_pages(sel: SelectionRange, doc: DocumentText)
    ensures
        sel.start.page == sel.end.page ==> selection_text(sel, doc) == page_chars(
            doc,
            sel.start.page.0 as int,
            sel.start.char as int,
            sel.end.char as int,
        ),
        sel.start.page.0 < sel.end.page.0 ==> selection_text(sel, doc) == (page_chars(
            doc,
            sel.start.page.0 as int,
            sel.start.char as int,
            page_len(doc, sel.start.page.0 as int),
        ) + if page_available(doc, sel.start.page.0 as int) {
            seq!['\n']
        } else {
            Seq::empty()
        }) + whole_pages(doc, sel.start.page.0 + 1, sel.end.page.0 as int) + page_chars(
            doc,
            sel.end.page.0 as int,
            0,
            sel.end.char as int,
        ),
{
    let f = sel.start.page.0 as int;
    let l = sel.end.page.0 as int;
    if f == l {
        assert(text_upto(sel, doc, f) == Seq::<char>::empty());
        assert(selection_text(sel, doc) =~= page_piece(sel, doc, f));
    } else if f < l {
        lemma_text_upto_middle(sel, doc, l);
        assert(selection_text(sel, doc) == text_upto(sel, doc, l) + page_piece(sel, doc, l));
        assert(page_piece(sel, doc, l) =~= page_chars(doc, l, 0, sel.end.char as int));
    }
}

/// Reconstructs the text covered by `sel` from the document's page texts.
pub fn reconstruct_text(sel: &SelectionRange, doc: &DocumentText) -> (text: String)
    ensures
        text@ == selection_text(*sel, *doc),
{
    let mut result = String::new();
    let first: usize = sel.start.page.0;
    let last: usize = sel.end.page.0;
    if first > last {
        return result;
    }
    let mut p: usize = first;
    loop
        invariant
            first == sel.start.page.0,
            last == sel.end.page.0,
            first <= p <= last,
            result@ == text_upto(*sel, *doc, p as int),
        decreases last - p,
    {
        let ghost before = result@;
        if p < doc.pages.len() {
            match &doc.pages[p] {
                Some(t) => {
                    let start_char = if p == first { sel.start.char } else { 0 };
                    let end_char = if p == last { sel.end.char } else { t.chars.len() };
                    if start_char <= end_char && end_char <= t.chars.len() {
                        let mut i: usize = start_char;
                        while i < end_char
                            invariant
                                start_char <= i <= end_char <= t.chars@.len(),
                                result@ == before + t.chars@.subrange(start_char as int, i as int),
                            decreases end_char - i,
                        {
                            push_char(&mut result, t.chars[i]);
                            assert(t.chars@.subrange(start_char as int, i + 1) =~= t.chars@.subrange(
                                start_char as int,
                                i as int,
                            ).push(t.chars@[i as int]));
                            i += 1;
                        }
                    }
                    if p < last {
                        push_char(&mut result, '\n');
                    }
                    assert(result@ =~= before + page_piece(*sel, *doc, p as int));
                },
                None => {
                    assert(page_piece(*sel, *doc, p as int) =~= Seq::empty());
                    assert(result@ =~= before + page_piece(*sel, *doc, p as int));
                },
            }
        } else {
            assert(page_piece(*sel, *doc, p as int) =~= Seq::empty());
            assert(result@ =~= before + page_piece(*sel, *doc, p as int));
        }
        assert(text_upto(*sel, *doc, p + 1) == text_upto(*sel, *doc, p as int) + page_piece(
            *sel,
            *doc,
            p as int,
        ));
        if p == last {
            return result;
        }
        p = p + 1;
    }
}


/// A span found by [`first_holding_from`] lies on the page and covers the
/// character.
pub proof fn lemma_first_holding_from_holds(spans: Seq<CharSpan>, page: PageIndex, c: usize, i: int)
    ensures
        first_holding_from(spans, page, c, i) matches Some(s) ==> s.holds(page, c),
    decreases spans.len() - i,
{
    if 0 <= i < spans.len() && !spans[i].holds(page, c) {
        lemma_first_holding_from_holds(spans, page, c, i + 1);
    }
}

/// Pointer events never leave an unordered selection behind: if the
/// selection was absent or normalized before the event, it is absent or
/// normalized after it, and so is the drag anchor's selection.
pub proof fn lemma_pointer_step_keeps_normalized(
    selection: Option<SelectionRange>,
    anchor: Option<CharIndex>,
    page: PageIndex,
    event: PointerEvent,
    text: Option<TextPage>,
    hit: Option<usize>,
)
    requires
        selection matches Some(s) ==> s.normalized(),
    ensures
        pointer_step(selection, anchor, page, event, text, hit).0 matches Some(s) ==> s.normalized(),
{
    if let Some(t) = text {
        if let Some(c) = hit {
            lemma_first_holding_from_holds(t.lines@, page, c, 0);
            lemma_first_holding_from_holds(t.words@, page, c, 0);
        }
    }
}

/// Dragging (the primary button held, no multi-click) over a glyph while a
/// drag anchor is set selects exactly the range between the anchor and that
/// glyph, whatever was selected before: one end is always the anchor, the
/// other the glyph under the pointer, in document order. The anchor stays.
pub proof fn lemma_drag_extends_from_anchor(
    selection: Option<SelectionRange>,
    anchor: CharIndex,
    page: PageIndex,
    event: PointerEvent,
    t: TextPage,
    c: usize,
)
    requires
        event.primary_down,
        event.click_count < 2,
    ensures
        ({
            let step = pointer_step(selection, Some(anchor), page, event, Some(t), Some(c));
            let here = CharIndex { page, char: c };
            &&& step.0 matches Some(r) && index_le(r.start, r.end) && (
                (r.start == anchor && r.end == here) || (r.start == here && r.end == anchor))
            &&& step.1 == Some(anchor)
            &&& step.2
        }),
{
}

/// A double click on a glyph that lies in a word selects a range on that page
/// that contains the glyph; a triple click does the same with the line.
pub proof fn lemma_multi_click_covers_hit(
    selection: Option<SelectionRange>,
    anchor: Option<CharIndex>,
    page: PageIndex,
    event: PointerEvent,
    t: TextPage,
    c: usize,
)
    requires
        event.click_count >= 2,
    ensures
        ({
            let step = pointer_step(selection, anchor, page, event, Some(t), Some(c));
            step.2 ==> {
                &&& step.0 matches Some(s) && s.start.page == page && s.end.page == page
                    && s.start.char <= c < s.end.char
                &&& step.1.is_none()
            }
        }),
        ({
            let spans = if event.click_count >= 3 { t.lines@ } else { t.words@ };
            let step = pointer_step(selection, anchor, page, event, Some(t), Some(c));
            step.2 == first_holding(spans, page, c).is_some()
        }),
{
    lemma_first_holding_from_holds(t.lines@, page, c, 0);
    lemma_first_holding_from_holds(t.words@, page, c, 0);
}

fn first_holding_span(spans: &Vec<CharSpan>, page: PageIndex, c: usize) -> (found: Option<CharSpan>)
    ensures
        found == first_holding(spans@, page, c),
{
    let mut i: usize = 0;
    while i < spans.len()
        invariant
            i <= spans@.len(),
            first_holding(spans@, page, c) == first_holding_from(spans@, page, c, i as int),
        decreases spans.len() - i,
    {
        let s = spans[i];
        if s.page.0 == page.0 && s.start <= c && c < s.end {
            return Some(s);
        }
        i += 1;
    }
    None
}

impl TextLayerPlugin {
    /// Create a new text-layer plugin instance: no debug overlay, no selection.
    pub fn new() -> (plugin: TextLayerPlugin)
        ensures
            !plugin@.debug,
            plugin@.selection.is_none(),
            plugin@.anchor.is_none(),
    {
        TextLayerPlugin { debug: false, selection: None, selection_anchor: None }
    }

    /// A stable identifier for this plugin.
    pub fn id(&self) -> (id: &'static str)
        ensures
            id@ == "viewkai.text_layer"@,
    {
        "viewkai.text_layer"
    }

    /// Return whether the debug overlay is enabled.
    pub fn debug(&self) -> (enabled: bool)
        ensures
            enabled == self@.debug,
    {
        self.debug
    }

    /// Enable or disable the debug overlay (word bounding boxes).
    pub fn set_debug(&mut self, enabled: bool)
        ensures
            final(self)@.debug == enabled,
            final(self)@.selection == old(self)@.selection,
            final(self)@.anchor == old(self)@.anchor,
    {
        proof {
            use_type_invariant(&*self);
        }
        self.debug = enabled;
    }

    /// Return the current selection, if any.
    pub fn selection(&self) -> (selection: Option<&SelectionRange>)
        ensures
            selection.is_some() == self@.selection.is_some(),
            selection.is_some() ==> *selection.unwrap() == self@.selection.unwrap(),
            selection.is_some() ==> selection.unwrap().normalized(),
    {
        proof {
            use_type_invariant(self);
        }
        self.selection.as_ref()
    }

    /// Return the selected text, reconstructed from the document's page texts.
    ///
    /// Returns an empty string if nothing is selected, no document is
    /// available, or the selection is empty.
    pub fn selected_text(&self, doc: Option<&DocumentText>) -> (text: String)
        ensures
            text@ == match (self@.selection, doc) {
                (Some(sel), Some(d)) => if sel.start == sel.end {
                    Seq::empty()
                } else {
                    selection_text(sel, *d)
                },
                _ => Seq::<char>::empty(),
            },
    {
        match &self.selection {
            None => String::new(),
            Some(sel) => match doc {
                None => String::new(),
                Some(d) => if sel.is_empty() {
                    String::new()
                } else {
                    reconstruct_text(sel, d)
                },
            },
        }
    }

    /// Select all text in the document: from the first character of the
    /// first page to the end of the last page. Nothing changes when there is
    /// no document, it has no pages, or the last page's text cannot be had.
    pub fn select_all(&mut self, doc: Option<&DocumentText>)
        ensures
            final(self)@.debug == old(self)@.debug,
            match doc {
                Some(d) if d.pages@.len() > 0 && d.pages@.last().is_some() => {
                    &&& final(self)@.selection == Some(
                        SelectionRange {
                            start: CharIndex { page: PageIndex(0), char: 0 },
                            end: CharIndex {
                                page: PageIndex((d.pages@.len() - 1) as usize),
                                char: d.pages@.last().unwrap().chars@.len() as usize,
                            },
                        },
                    )
                    &&& final(self)@.anchor.is_none()
                },
                _ => final(self)@.selection == old(self)@.selection && final(self)@.anchor == old(
                    self,
                )@.anchor,
            },
    {
        let d = match doc {
            None => return ,
            Some(d) => d,
        };
        let page_count: usize = d.pages.len();
        if page_count == 0 {
            return ;
        }
        let last_page: usize = page_count - 1;
        match &d.pages[last_page] {
            None => {},
            Some(t) => {
                self.selection = Some(
                    SelectionRange {
                        start: CharIndex { page: PageIndex(0), char: 0 },
                        end: CharIndex { page: PageIndex(last_page), char: t.chars.len() },
                    },
                );
                self.selection_anchor = None;
            },
        }
    }

    /// Clear the current selection.
    pub fn deselect(&mut self)
        ensures
            final(self)@.debug == old(self)@.debug,
            final(self)@.selection.is_none(),
            final(self)@.anchor.is_none(),
    {
        self.selection = None;
        self.selection_anchor = None;
    }

    /// Handle a pointer event on `page`: triple click selects the line under
    /// the pointer, double click the word, shift-click extends the selection,
    /// press starts a drag selection and dragging extends it from its anchor.
    /// `text` is the page's text and `hit` the first glyph under the pointer.
    /// Returns whether the event was consumed.
    pub fn on_pointer_event(
        &mut self,
        page: PageIndex,
        event: &PointerEvent,
        text: Option<&TextPage>,
        hit: Option<usize>,
    ) -> (consumed: bool)
        ensures
            ({
                let t = match text {
                    Some(t) => Some(*t),
                    None => None,
                };
                let step = pointer_step(old(self)@.selection, old(self)@.anchor, page, *event, t, hit);
                &&& final(self)@.selection == step.0
                &&& final(self)@.anchor == step.1
                &&& consumed == step.2
            }),
            final(self)@.debug == old(self)@.debug,
    {
        let t = match text {
            None => return false,
            Some(t) => t,
        };
        proof {
            use_type_invariant(&*self);
            if let Some(c) = hit {
                lemma_first_holding_from_holds(t.lines@, page, c, 0);
                lemma_first_holding_from_holds(t.words@, page, c, 0);
            }
        }
        if event.click_count >= 3 {
            if let Some(c) = hit {
                if let Some(line) = first_holding_span(&t.lines, page, c) {
                    self.selection = Some(
                        SelectionRange {
                            start: CharIndex { page, char: line.start },
                            end: CharIndex { page, char: line.end },
                        },
                    );
                    self.selection_anchor = None;
                    return true;
                }
            }
            return false;
        }
        if event.click_count == 2 {
            if let Some(c) = hit {
                if let Some(word) = first_holding_span(&t.words, page, c) {
                    self.selection = Some(
                        SelectionRange {
                            start: CharIndex { page, char: word.start },
                            end: CharIndex { page, char: word.end },
                        },
                    );
                    self.selection_anchor = None;
                    return true;
                }
            }
            return false;
        }
        if event.shift && event.click_count == 1 && !event.primary_down {
            if let Some(c) = hit {
                let target = CharIndex { page, char: c };
                let start = match &self.selection {
                    Some(current) => current.start,
                    None => target,
                };
                self.selection = Some(SelectionRange::new(start, target));
                return true;
            }
            return false;
        }
        if event.primary_down {
            if let Some(a) = self.selection_anchor {
                if let Some(c) = hit {
                    self.selection = Some(SelectionRange::new(a, CharIndex { page, char: c }));
                    return true;
                }
            }
        }
        if event.primary_down && event.click_count == 1 {
            if let Some(c) = hit {
                let here = CharIndex { page, char: c };
                self.selection_anchor = Some(here);
                self.selection = Some(SelectionRange::new(here, here));
                return true;
            }
            self.selection = None;
            self.selection_anchor = None;
            return false;
        }
        false
    }
}

impl Default for TextLayerPlugin {
    fn default() -> (plugin: TextLayerPlugin)
        ensures
            !plugin@.debug,
            plugin@.selection.is_none(),
            plugin@.anchor.is_none(),
    {
        TextLayerPlugin::new()
    }
}

/// The characters of `page` that the selection covers, as a half-open range
/// over the page's `glyph_count` glyphs; `None` when the selection does not
/// reach the page.
pub open spec fn selection_bounds_on_page(sel: SelectionRange, page: PageIndex, glyph_count: usize) -> Option<(usize, usize)> {
    let start = if sel.start.page == page {
        Some(sel.start.char)
    } else if sel.start.page.0 < page.0 {
        Some(0usize)
    } else {
        None
    };
    let end = if sel.end.page == page {
        Some(sel.end.char)
    } else if sel.end.page.0 > page.0 {
        Some(glyph_count)
    } else {
        None
    };
    match (start, end) {
        (Some(s), Some(e)) => Some((s, e)),
        _ => None,
    }
}

/// The glyph ranges that highlight the selection `sel` on `page`: the parts
/// of the page's lines within the selection's bounds on that page (see
/// [`selection_bounds_on_page`] and `clipped_ranges`).
pub open spec fn selection_highlight(sel: SelectionRange, page: PageIndex, text: TextPage) -> Seq<(usize, usize)> {
    match selection_bounds_on_page(sel, page, text.chars@.len() as usize) {
        None => Seq::empty(),
        Some(b) => if b.0 >= b.1 {
            Seq::empty()
        } else {
            clipped_ranges(text.lines@, text.lines@.len() as int, Some(page), b.0, b.1, text.chars@.len() as usize)
        },
    }
}

/// How a selection is highlighted on a page. Nothing is highlighted on a page
/// before the selection's first page or after its last one. Every highlighted
/// range covers glyphs of the page and lies within the selection: from its
/// start character on the first page, up to its end character on the last.
/// On a page after the first one and up to the last, each line of the page
/// is highlighted from its start up to its end, or up to the selection's end
/// character on the last page, wherever that part is nonempty and within the
/// page's glyphs; so a page strictly inside the selection has every nonempty
/// line highlighted whole.
pub proof fn lemma_selection_highlight(sel: SelectionRange, page: PageIndex, text: TextPage)
    ensures
        (page.0 < sel.start.page.0 || page.0 > sel.end.page.0) ==> selection_highlight(sel, page, text).len()
            == 0,
        forall|j: int|
            0 <= j < selection_highlight(sel, page, text).len() ==> {
                let r = #[trigger] selection_highlight(sel, page, text)[j];
                &&& r.0 < r.1 <= text.chars@.len()
                &&& page == sel.start.page ==> sel.start.char <= r.0
                &&& page == sel.end.page ==> r.1 <= sel.end.char
            },
        forall|i: int|
            0 <= i < text.lines@.len() && sel.start.page.0 < page.0 <= sel.end.page.0
                && (#[trigger] text.lines@[i]).page == page ==> {
                let l = text.lines@[i];
                let e = if page == sel.end.page && sel.end.char < l.end { sel.end.char } else { l.end };
                (l.start < e && e <= text.chars@.len()) ==> selection_highlight(sel, page, text).contains(
                    (l.start, e),
                )
            },
{
    let n = text.lines@.len() as int;
    let gc = text.chars@.len() as usize;
    assert(text.chars@.len() == text.chars.len());
    assert(gc == text.chars@.len());
    match selection_bounds_on_page(sel, page, gc) {
        None => {},
        Some(b) => {
            if b.0 < b.1 {
                lemma_clipped_ranges(text.lines@, n, Some(page), b.0, b.1, gc);
            }
        },
    }
    assert forall|i: int|
        0 <= i < text.lines@.len() && sel.start.page.0 < page.0 <= sel.end.page.0
            && (#[trigger] text.lines@[i]).page == page implies {
            let l = text.lines@[i];
            let e = if page == sel.end.page && sel.end.char < l.end { sel.end.char } else { l.end };
            (l.start < e && e <= text.chars@.len()) ==> selection_highlight(sel, page, text).contains(
                (l.start, e),
            )
        } by {
        let l = text.lines@[i];
        let e = if page == sel.end.page && sel.end.char < l.end { sel.end.char } else { l.end };
        let b = selection_bounds_on_page(sel, page, gc).unwrap();
        assert(b.0 == 0);
        if page == sel.end.page {
            assert(b.1 == sel.end.char);
        } else {
            assert(b.1 == gc);
        }
        if l.start < e && e <= text.chars@.len() {
            lemma_clipped_ranges(text.lines@, n, Some(page), b.0, b.1, gc);
            let s0 = if l.start > b.0 { l.start } else { b.0 };
            let e0 = if l.end < b.1 { l.end } else { b.1 };
            assert(s0 == l.start);
            assert(e0 == e);
            assert(selection_highlight(sel, page, text) == clipped_ranges(
                text.lines@,
                n,
                Some(page),
                b.0,
                b.1,
                gc,
            ));
        }
    }
}

impl TextLayerPlugin {
    /// The glyph ranges to highlight on `page`, one per line of the page that
    /// the selection covers part of (see `clipped_ranges`); nothing when there
    /// is no selection, it does not reach the page, or it is empty there.
    pub fn selection_ranges_on_page(&self, page: PageIndex, text: &TextPage) -> (ranges: Vec<(usize, usize)>)
        ensures
            ranges@ == match self@.selection {
                None => Seq::empty(),
                Some(sel) => match selection_bounds_on_page(sel, page, text.chars@.len() as usize) {
                    None => Seq::empty(),
                    Some(b) => if b.0 >= b.1 {
                        Seq::empty()
                    } else {
                        clipped_ranges(
                            text.lines@,
                            text.lines@.len() as int,
                            Some(page),
                            b.0,
                            b.1,
                            text.chars@.len() as usize,
                        )
                    },
                },
            },
            self@.selection matches Some(sel) ==> ranges@ == selection_highlight(sel, page, *text),
    {
        let sel = match &self.selection {
            None => return Vec::new(),
            Some(sel) => sel,
        };
        let count = text.chars.len();
        let start = if sel.start.page.0 == page.0 {
            sel.start.char
        } else if sel.start.page.0 < page.0 {
            0
        } else {
            return Vec::new();
        };
        let end = if sel.end.page.0 == page.0 {
            sel.end.char
        } else if sel.end.page.0 > page.0 {
            count
        } else {
            return Vec::new();
        };
        if start >= end {
            return Vec::new();
        }
        clipped_line_ranges(&text.lines, Some(page), start, end, count)
    }
}

} // verus!
