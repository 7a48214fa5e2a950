//! Search plugin state: query restarts, chunked page processing, ordering of
//! matches, and wrap-around navigation between them.

use vstd::prelude::*;

use crate::strings::{decimal, push_char, push_decimal};
use crate::types::{CharSpan, PageIndex, SearchQuery};

verus! {

broadcast use vstd::seq_lib::group_to_multiset_ensures;

/// A single search match on a page; `R` is the type of its highlight
/// rectangles, which the search logic only carries along.
#[derive(Debug, Clone, PartialEq)]
pub struct SearchMatch<R> {
    /// The page this match is on.
    pub page: PageIndex,
    /// The character span of the match.
    pub char_span: CharSpan,
    /// Per-line highlight rectangles in page-local coordinates.
    pub rects: Vec<R>,
}

/// The current state of a search operation.
#[derive(Debug, Clone, PartialEq)]
pub struct SearchState<R> {
    /// The active query.
    pub query: SearchQuery,
    /// All matches found so far.
    pub matches: Vec<SearchMatch<R>>,
    /// Index of the currently highlighted match.
    pub current_match: usize,
    /// Pages not yet searched.
    pub pending_pages: Vec<PageIndex>,
}

/// An RGBA color with unmultiplied alpha.
#[derive(Debug, Clone, Copy, PartialEq, Eq, Structural)]
pub struct Rgba {
    /// Red channel.
    pub r: u8,
    /// Green channel.
    pub g: u8,
    /// Blue channel.
    pub b: u8,
    /// Alpha channel.
    pub a: u8,
}

/// Number of pages searched per frame.
pub const SEARCH_CHUNK_SIZE: usize = 10;

/// Plugin that provides full-text search with per-page match highlighting
/// and a find overlay.
#[derive(Debug)]
pub struct SearchPlugin<R> {
    /// The current search state, if a query was entered.
    pub state: Option<SearchState<R>>,
    /// Whether the find overlay is open.
    pub open: bool,
    /// Whether the query input takes keyboard focus on the next frame.
    pub focus_input_on_next_frame: bool,
    /// Color of match highlights other than the current one.
    pub match_color: Rgba,
    /// Color of the current match highlight.
    pub current_match_color: Rgba,
    /// Number of pages searched per frame.
    pub chunk_size: usize,
    /// The text typed into the query input.
    pub query_input: String,
}

/// The order of matches: by page, then by first character.
pub open spec fn match_le<R>(a: SearchMatch<R>, b: SearchMatch<R>) -> bool {
    a.page.0 < b.page.0 || (a.page.0 == b.page.0 && a.char_span.start <= b.char_span.start)
}

/// Matches are in page order, and by first character within a page.
pub open spec fn matches_sorted<R>(s: Seq<SearchMatch<R>>) -> bool {
    forall|i: int, j: int| 0 <= i < j < s.len() ==> match_le(#[trigger] s[i], #[trigger] s[j])
}

/// The first position, from `i` on, whose match comes strictly after `x`.
pub open spec fn upper_bound_from<R>(s: Seq<SearchMatch<R>>, x: SearchMatch<R>, i: int) -> int
    decreases s.len() - i,
{
    if i < 0 || i >= s.len() {
        s.len() as int
    } else if !match_le(s[i], x) {
        i
    } else {
        upper_bound_from(s, x, i + 1)
    }
}

/// `x` inserted after every match that does not come after it.
pub open spec fn insert_in_order<R>(s: Seq<SearchMatch<R>>, x: SearchMatch<R>) -> Seq<SearchMatch<R>> {
    s.insert(upper_bound_from(s, x, 0), x)
}

/// The stable sort of `s` by page and first character: each match, in the
/// original order, is inserted after all matches already placed that do not
/// come after it, so matches at the same position keep their original order.
pub open spec fn sorted_matches<R>(s: Seq<SearchMatch<R>>) -> Seq<SearchMatch<R>>
    decreases s.len(),
{
    if s.len() == 0 {
        Seq::empty()
    } else {
        insert_in_order(sorted_matches(s.drop_last()), s.last())
    }
}

proof fn lemma_upper_bound<R>(s: Seq<SearchMatch<R>>, x: SearchMatch<R>, i: int)
    requires
        0 <= i <= s.len(),
    ensures
        i <= upper_bound_from(s, x, i) <= s.len(),
        forall|j: int| i <= j < upper_bound_from(s, x, i) ==> match_le(#[trigger] s[j], x),
        upper_bound_from(s, x, i) < s.len() ==> !match_le(s[upper_bound_from(s, x, i)], x),
    decreases s.len() - i,
{
    if i < s.len() && match_le(s[i], x) {
        lemma_upper_bound(s, x, i + 1);
    }
}

proof fn lemma_insert_in_order<R>(s: Seq<SearchMatch<R>>, x: SearchMatch<R>)
    requires
        matches_sorted(s),
    ensures
        matches_sorted(insert_in_order(s, x)),
        insert_in_order(s, x).to_multiset() == s.to_multiset().insert(x),
        insert_in_order(s, x).len() == s.len() + 1,
{
    let k = upper_bound_from(s, x, 0);
    lemma_upper_bound(s, x, 0);
    let t = s.insert(k, x);
    assert forall|i: int, j: int| 0 <= i < j < t.len() implies match_le(#[trigger] t[i], #[trigger] t[j]) by {
        if j < k {
        } else if j == k {
            assert(match_le(s[i], x));
        } else if i < k {
            assert(match_le(s[i], s[j - 1]));
        } else if i == k {
            assert(!match_le(s[k], x));
            assert(match_le(s[k], s[j - 1]) || k == j - 1);
        } else {
            assert(match_le(s[i - 1], s[j - 1]));
        }
    }
}

/// The stable sort of the matches is in order and holds the same matches.
pub proof fn lemma_sorted_matches<R>(s: Seq<SearchMatch<R>>)
    ensures
        matches_sorted(sorted_matches(s)),
        sorted_matches(s).to_multiset() == s.to_multiset(),
        sorted_matches(s).len() == s.len(),
    decreases s.len(),
{
    if s.len() > 0 {
        lemma_sorted_matches(s.drop_last());
        lemma_insert_in_order(sorted_matches(s.drop_last()), s.last());
        assert(s =~= s.drop_last().push(s.last()));
    }
}

fn insert_match<R>(v: &mut Vec<SearchMatch<R>>, x: SearchMatch<R>)
    ensures
        final(v)@ == insert_in_order(old(v)@, x),
{
    let mut i: usize = 0;
    while i < v.len() && (v[i].page.0 < x.page.0 || (v[i].page.0 == x.page.0
        && v[i].char_span.start <= x.char_span.start))
        invariant
            i <= v@.len(),
            upper_bound_from(v@, x, 0) == upper_bound_from(v@, x, i as int),
        decreases v.len() - i,
    {
        i += 1;
    }
    v.insert(i, x);
}

fn sort_matches<R>(v: Vec<SearchMatch<R>>) -> (sorted: Vec<SearchMatch<R>>)
    ensures
        sorted@ == sorted_matches(v@),
{
    let ghost orig = v@;
    let mut rest = v;
    let mut out: Vec<SearchMatch<R>> = Vec::new();
    let ghost mut k: int = 0;
    assert(orig.take(0) =~= Seq::<SearchMatch<R>>::empty());
    assert(orig.skip(0) =~= orig);
    while rest.len() > 0
        invariant
            0 <= k <= orig.len(),
            rest@ == orig.skip(k),
            out@ == sorted_matches(orig.take(k)),
        decreases rest.len(),
    {
        let x = rest.remove(0);
        proof {
            assert(orig.take(k + 1).drop_last() =~= orig.take(k));
            assert(orig.take(k + 1).last() == x);
            assert(orig.skip(k + 1) =~= orig.skip(k).drop_first());
        }
        insert_match(&mut out, x);
        proof {
            k = k + 1;
        }
    }
    assert(orig.take(k) =~= orig);
    out
}

/// The index of the match after `current` among `len` matches, wrapping to
/// the first after the last.
pub open spec fn next_index(current: int, len: int) -> int {
    (current + 1) % len
}

/// The index of the match before `current` among `len` matches, wrapping to
/// the last before the first.
pub open spec fn prev_index(current: int, len: int) -> int {
    if current == 0 {
        len - 1
    } else {
        current - 1
    }
}

/// The navigation label of a search state: "<current> of <count>", the
/// current match counted from one (zero when there are no matches), with a
/// trailing "+" while pages are still waiting to be searched.
pub open spec fn navigation_text<R>(state: SearchState<R>) -> Seq<char> {
    let current: nat = if state.matches@.len() == 0 {
        0
    } else {
        (state.current_match + 1) as nat
    };
    decimal(current) + seq![' ', 'o', 'f', ' '] + decimal(state.matches@.len()) + if state.pending_pages@.len()
        == 0 {
        Seq::empty()
    } else {
        seq!['+']
    }
}

/// The pages `0..count`, in order.
pub open spec fn all_pages(count: nat) -> Seq<PageIndex> {
    Seq::new(count, |i: int| PageIndex(i as usize))
}

impl<R> SearchPlugin<R> {
    /// Create a new search plugin: closed, no state, yellow highlights with an
    /// orange current match, ten pages per frame.
    pub fn new() -> (plugin: SearchPlugin<R>)
        ensures
            plugin.state.is_none(),
            !plugin.open,
            !plugin.focus_input_on_next_frame,
            plugin.chunk_size == SEARCH_CHUNK_SIZE,
            plugin.match_color == (Rgba { r: 255, g: 255, b: 0, a: 120 }),
            plugin.current_match_color == (Rgba { r: 255, g: 150, b: 0, a: 180 }),
            plugin.query_input@ == Seq::<char>::empty(),
    {
        SearchPlugin {
            state: None,
            open: false,
            focus_input_on_next_frame: false,
            match_color: Rgba { r: 255, g: 255, b: 0, a: 120 },
            current_match_color: Rgba { r: 255, g: 150, b: 0, a: 180 },
            chunk_size: SEARCH_CHUNK_SIZE,
            query_input: String::new(),
        }
    }

    /// A stable identifier for this plugin.
    pub fn id(&self) -> (id: &'static str)
        ensures
            id@ == "viewkai.search"@,
    {
        "viewkai.search"
    }

    /// Return whether the search overlay is open.
    pub fn is_open(&self) -> (open: bool)
        ensures
            open == self.open,
    {
        self.open
    }

    /// Open the search overlay and focus the input.
    pub fn open(&mut self)
        ensures
            final(self).open,
            final(self).focus_input_on_next_frame,
            final(self).state == old(self).state,
            final(self).chunk_size == old(self).chunk_size,
            final(self).query_input == old(self).query_input,
            final(self).match_color == old(self).match_color,
            final(self).current_match_color == old(self).current_match_color,
    {
        self.open = true;
        self.focus_input_on_next_frame = true;
    }

    /// Close the search overlay and clear state.
    pub fn close(&mut self)
        ensures
            !final(self).open,
            !final(self).focus_input_on_next_frame,
            final(self).state.is_none(),
            final(self).chunk_size == old(self).chunk_size,
            final(self).query_input == old(self).query_input,
            final(self).match_color == old(self).match_color,
            final(self).current_match_color == old(self).current_match_color,
    {
        self.open = false;
        self.state = None;
        self.focus_input_on_next_frame = false;
    }

    /// Close the overlay if it is open, open it otherwise.
    pub fn toggle(&mut self)
        ensures
            final(self).open == !old(self).open,
            final(self).focus_input_on_next_frame == !old(self).open,
            final(self).state == if old(self).open {
                None
            } else {
                old(self).state
            },
            final(self).chunk_size == old(self).chunk_size,
            final(self).query_input == old(self).query_input,
            final(self).match_color == old(self).match_color,
            final(self).current_match_color == old(self).current_match_color,
    {
        if self.open {
            self.close();
        } else {
            self.open();
        }
    }

    /// Return the current search state, if any.
    pub fn state(&self) -> (state: Option<&SearchState<R>>)
        ensures
            state.is_some() == self.state.is_some(),
            state.is_some() ==> *state.unwrap() == self.state.unwrap(),
    {
        self.state.as_ref()
    }

    /// Update the search query and restart the search: no matches yet, and
    /// every page of the document (`page_count` pages) waiting to be searched,
    /// unless the term is empty, in which case nothing is searched.
    pub fn update_query(&mut self, query: SearchQuery, page_count: usize)
        ensures
            final(self).state matches Some(s) && {
                &&& s.query == query
                &&& s.matches@.len() == 0
                &&& s.current_match == 0
                &&& s.pending_pages@ == if query.term@.len() == 0 {
                    Seq::empty()
                } else {
                    all_pages(page_count as nat)
                }
            },
            final(self).open == old(self).open,
            final(self).chunk_size == old(self).chunk_size,
            final(self).focus_input_on_next_frame == old(self).focus_input_on_next_frame,
            final(self).query_input == old(self).query_input,
            final(self).match_color == old(self).match_color,
            final(self).current_match_color == old(self).current_match_color,
    {
        let mut pending: Vec<PageIndex> = Vec::new();
        if !query.term.as_str().is_empty() {
            let mut i: usize = 0;
            while i < page_count
                invariant
                    i <= page_count,
                    pending@ == all_pages(i as nat),
                decreases page_count - i,
            {
                pending.push(PageIndex(i));
                assert(pending@ =~= all_pages((i + 1) as nat));
                i += 1;
            }
        }
        proof {
            if query.term@.len() == 0 {
                assert(pending@ =~= Seq::<PageIndex>::empty());
            }
        }
        self.state = Some(
            SearchState { query, matches: Vec::new(), current_match: 0, pending_pages: pending },
        );
    }

    /// Advance to the next match (wrapping around) and return it.
    pub fn next_match(&mut self) -> (found: Option<&SearchMatch<R>>)
        ensures
            match old(self).state {
                Some(s) if s.matches@.len() > 0 => {
                    let i = next_index(s.current_match as int, s.matches@.len() as int);
                    &&& final(self).state == Some(SearchState { current_match: i as usize, ..s })
                    &&& found.is_some() && *found.unwrap() == s.matches@[i]
                },
                _ => final(self).state == old(self).state && found.is_none(),
            },
            final(self).open == old(self).open,
            final(self).focus_input_on_next_frame == old(self).focus_input_on_next_frame,
            final(self).match_color == old(self).match_color,
            final(self).current_match_color == old(self).current_match_color,
            final(self).chunk_size == old(self).chunk_size,
            final(self).query_input == old(self).query_input,
    {
        match &mut self.state {
            None => None,
            Some(state) => {
                let len = state.matches.len();
                if len == 0 {
                    return None;
                }
                state.current_match = (state.current_match % len + 1) % len;
                proof {
                    let c = old(self).state.unwrap().current_match as int;
                    vstd::arithmetic::div_mod::lemma_add_mod_noop(c, 1, len as int);
                    vstd::arithmetic::div_mod::lemma_mod_twice(1, len as int);
                    assert((c % (len as int) + 1) % (len as int) == (c + 1) % (len as int)) by {
                        vstd::arithmetic::div_mod::lemma_add_mod_noop(c % (len as int), 1, len as int);
                        vstd::arithmetic::div_mod::lemma_mod_twice(c, len as int);
                    }
                }
                Some(&state.matches[state.current_match])
            },
        }
    }

    /// Go to the previous match (wrapping around) and return it.
    pub fn prev_match(&mut self) -> (found: Option<&SearchMatch<R>>)
        ensures
            match old(self).state {
                Some(s) if s.matches@.len() > 0 => {
                    let i = prev_index(s.current_match as int, s.matches@.len() as int);
                    &&& final(self).state == Some(SearchState { current_match: i as usize, ..s })
                    &&& found.is_some() == (i < s.matches@.len())
                    &&& found.is_some() ==> *found.unwrap() == s.matches@[i]
                },
                _ => final(self).state == old(self).state && found.is_none(),
            },
            final(self).open == old(self).open,
            final(self).focus_input_on_next_frame == old(self).focus_input_on_next_frame,
            final(self).match_color == old(self).match_color,
            final(self).current_match_color == old(self).current_match_color,
            final(self).chunk_size == old(self).chunk_size,
            final(self).query_input == old(self).query_input,
    {
        match &mut self.state {
            None => None,
            Some(state) => {
                let len = state.matches.len();
                if len == 0 {
                    return None;
                }
                if state.current_match == 0 {
                    state.current_match = len - 1;
                } else {
                    state.current_match = state.current_match - 1;
                }
                if state.current_match < len {
                    Some(&state.matches[state.current_match])
                } else {
                    None
                }
            },
        }
    }

    /// Return the current match.
    pub fn current_match(&self) -> (found: Option<&SearchMatch<R>>)
        ensures
            match self.state {
                Some(s) if s.current_match < s.matches@.len() => found.is_some() && *found.unwrap()
                    == s.matches@[s.current_match as int],
                _ => found.is_none(),
            },
    {
        match &self.state {
            None => None,
            Some(state) => if state.current_match < state.matches.len() {
                Some(&state.matches[state.current_match])
            } else {
                None
            },
        }
    }

    /// Set the color for non-current match highlights.
    pub fn set_match_color(&mut self, color: Rgba)
        ensures
            final(self).match_color == color,
            final(self).current_match_color == old(self).current_match_color,
            final(self).state == old(self).state,
            final(self).open == old(self).open,
            final(self).focus_input_on_next_frame == old(self).focus_input_on_next_frame,
            final(self).chunk_size == old(self).chunk_size,
            final(self).query_input == old(self).query_input,
    {
        self.match_color = color;
    }

    /// Set the color for the current match highlight.
    pub fn set_current_match_color(&mut self, color: Rgba)
        ensures
            final(self).current_match_color == color,
            final(self).match_color == old(self).match_color,
            final(self).state == old(self).state,
            final(self).open == old(self).open,
            final(self).focus_input_on_next_frame == old(self).focus_input_on_next_frame,
            final(self).chunk_size == old(self).chunk_size,
            final(self).query_input == old(self).query_input,
    {
        self.current_match_color = color;
    }

    /// The color for non-current match highlights.
    pub fn match_color(&self) -> (color: Rgba)
        ensures
            color == self.match_color,
    {
        self.match_color
    }

    /// The color for the current match highlight.
    pub fn current_match_color(&self) -> (color: Rgba)
        ensures
            color == self.current_match_color,
    {
        self.current_match_color
    }

    /// The text typed into the query input.
    pub fn query_input(&self) -> (text: &String)
        ensures
            text@ == self.query_input@,
    {
        &self.query_input
    }

    /// Replace the text of the query input.
    pub fn set_query_input(&mut self, text: String)
        ensures
            final(self).query_input@ == text@,
            final(self).state == old(self).state,
            final(self).open == old(self).open,
            final(self).focus_input_on_next_frame == old(self).focus_input_on_next_frame,
            final(self).match_color == old(self).match_color,
            final(self).current_match_color == old(self).current_match_color,
            final(self).chunk_size == old(self).chunk_size,
    {
        self.query_input = text;
    }

    /// Consume the request to focus the query input: returns whether focus was
    /// requested, and clears the request.
    pub fn take_focus_request(&mut self) -> (requested: bool)
        ensures
            requested == old(self).focus_input_on_next_frame,
            !final(self).focus_input_on_next_frame,
            final(self).state == old(self).state,
            final(self).open == old(self).open,
            final(self).match_color == old(self).match_color,
            final(self).current_match_color == old(self).current_match_color,
            final(self).chunk_size == old(self).chunk_size,
            final(self).query_input == old(self).query_input,
    {
        let requested = self.focus_input_on_next_frame;
        self.focus_input_on_next_frame = false;
        requested
    }

    /// Take the next chunk of pages waiting to be searched: the first
    /// `chunk` pending pages (fewer when fewer remain). Nothing is taken when
    /// there is no search state.
    pub fn drain_pending_chunk(&mut self) -> (pages: Vec<PageIndex>)
        ensures
            match old(self).state {
                Some(s) => {
                    let n = if s.pending_pages@.len() < old(self).chunk_size {
                        s.pending_pages@.len() as int
                    } else {
                        old(self).chunk_size as int
                    };
                    &&& pages@ == s.pending_pages@.take(n)
                    &&& final(self).state == Some(
                        SearchState { pending_pages: final(self).state.unwrap().pending_pages, ..s },
                    )
                    &&& final(self).state.unwrap().pending_pages@ == s.pending_pages@.skip(n)
                },
                None => final(self).state.is_none() && pages@.len() == 0,
            },
            final(self).chunk_size == old(self).chunk_size,
            final(self).open == old(self).open,
            final(self).focus_input_on_next_frame == old(self).focus_input_on_next_frame,
            final(self).match_color == old(self).match_color,
            final(self).current_match_color == old(self).current_match_color,
            final(self).query_input == old(self).query_input,
    {
        let chunk = self.chunk_size;
        match &mut self.state {
            None => Vec::new(),
            Some(state) => {
                let n = if state.pending_pages.len() < chunk {
                    state.pending_pages.len()
                } else {
                    chunk
                };
                let mut taken = state.pending_pages.split_off(n);
                std::mem::swap(&mut taken, &mut state.pending_pages);
                taken
            },
        }
    }

    /// Add the matches found on searched pages: all matches are put in page
    /// order (stably), and the current match index is kept within the matches
    /// (zero when there are none). Nothing changes when there is no search
    /// state.
    pub fn merge_matches(&mut self, found: Vec<SearchMatch<R>>)
        ensures
            match old(self).state {
                Some(s) => {
                    let all = sorted_matches(s.matches@ + found@);
                    &&& final(self).state matches Some(t) && {
                        &&& t.query == s.query
                        &&& t.pending_pages == s.pending_pages
                        &&& t.matches@ == all
                        &&& t.current_match == if all.len() == 0 {
                            0
                        } else if s.current_match < all.len() - 1 {
                            s.current_match as int
                        } else {
                            all.len() - 1
                        }
                    }
                },
                None => final(self).state.is_none(),
            },
            final(self).chunk_size == old(self).chunk_size,
            final(self).open == old(self).open,
            final(self).focus_input_on_next_frame == old(self).focus_input_on_next_frame,
            final(self).match_color == old(self).match_color,
            final(self).current_match_color == old(self).current_match_color,
            final(self).query_input == old(self).query_input,
    {
        let taken = self.state.take();
        match taken {
            None => {},
            Some(mut state) => {
                let mut all: Vec<SearchMatch<R>> = Vec::new();
                std::mem::swap(&mut all, &mut state.matches);
                let mut found = found;
                all.append(&mut found);
                let sorted = sort_matches(all);
                proof {
                    lemma_sorted_matches(old(self).state.unwrap().matches@ + found@);
                }
                state.matches = sorted;
                let len = state.matches.len();
                if len == 0 {
                    state.current_match = 0;
                } else if state.current_match >= len - 1 {
                    state.current_match = len - 1;
                }
                self.state = Some(state);
            },
        }
    }
}

impl<R> SearchState<R> {
    /// The navigation label, e.g. "2 of 7", or "2 of 7+" while pages are
    /// still waiting to be searched.
    pub fn navigation_label(&self) -> (label: String)
        requires
            self.matches@.len() > 0 ==> self.current_match < usize::MAX,
        ensures
            label@ == navigation_text(*self),
    {
        let current: usize = if self.matches.len() == 0 {
            0
        } else {
            self.current_match + 1
        };
        let mut label = String::new();
        push_decimal(&mut label, current);
        push_char(&mut label, ' ');
        push_char(&mut label, 'o');
        push_char(&mut label, 'f');
        push_char(&mut label, ' ');
        push_decimal(&mut label, self.matches.len());
        if self.pending_pages.len() > 0 {
            push_char(&mut label, '+');
        }
        proof {
            if self.pending_pages@.len() > 0 {
                assert(label@ =~= navigation_text(*self));
            } else {
                assert(label@ =~= navigation_text(*self));
            }
        }
        label
    }
}

impl<R> Default for SearchPlugin<R> {
    fn default() -> (plugin: SearchPlugin<R>)
        ensures
            plugin.state.is_none(),
            !plugin.open,
            plugin.chunk_size == SEARCH_CHUNK_SIZE,
    {
        SearchPlugin::new()
    }
}

/// Stepping to the next match and back to the previous one returns to the
/// match that was current, and the other way round, whenever the current
/// index lies within the matches.
pub proof fn lemma_next_prev_inverse(current: int, len: int)
    requires
        0 <= current < len,
    ensures
        prev_index(next_index(current, len), len) == current,
        next_index(prev_index(current, len), len) == current,
        0 <= next_index(current, len) < len,
        0 <= prev_index(current, len) < len,
{
    if current + 1 < len {
        vstd::arithmetic::div_mod::lemma_small_mod((current + 1) as nat, len as nat);
    } else {
        vstd::arithmetic::div_mod::lemma_mod_self_0(len);
    }
    if current > 0 {
        vstd::arithmetic::div_mod::lemma_small_mod(current as nat, len as nat);
    } else {
        vstd::arithmetic::div_mod::lemma_mod_self_0(len);
    }
}

/// After new matches are merged, the matches are in page order, hold exactly
/// the old and the new matches, and the current index lies within them.
pub proof fn lemma_merge_sorted<R>(old_matches: Seq<SearchMatch<R>>, found: Seq<SearchMatch<R>>)
    ensures
        matches_sorted(sorted_matches(old_matches + found)),
        sorted_matches(old_matches + found).to_multiset() == old_matches.to_multiset().add(
            found.to_multiset(),
        ),
        sorted_matches(old_matches + found).len() == old_matches.len() + found.len(),
{
    lemma_sorted_matches(old_matches + found);
    vstd::seq_lib::lemma_multiset_commutative(old_matches, found);
}

} // verus!
