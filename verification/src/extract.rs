//! Decisions of text extraction that do not depend on geometry: which
//! characters are kept, how search hits become character spans, and how the
//! glyphs of a line are grouped into words.

use vstd::prelude::*;

use crate::types::{CharSpan, PageIndex};

verus! {

/// A control character (Unicode general category Cc).
pub open spec fn is_control_char(c: char) -> bool {
    (c as u32) <= 0x1f || (0x7f <= (c as u32) && (c as u32) <= 0x9f)
}

/// Whether an extracted character is kept as a glyph: control characters
/// are dropped, except the tab.
pub open spec fn keeps_glyph(c: char) -> bool {
    !is_control_char(c) || c == ' ' || c == '\t'
}

/// Whether an extracted character is kept as a glyph: control characters
/// are dropped, except the tab.
pub fn keeps_char(c: char) -> (keep: bool)
    ensures
        keep == keeps_glyph(c),
{
    let code = c as u32;
    let control = code <= 0x1f || (0x7f <= code && code <= 0x9f);
    !control || c == ' ' || c == '\t'
}

/// The span of a search hit made of `segments[..n]`, each segment given by the
/// first and last character it covers (`None` for a segment whose characters
/// cannot be had): from the smallest first character to one past the largest
/// last character. A hit with an unreadable segment has no span.
pub open spec fn segments_span_upto(page: PageIndex, segments: Seq<Option<(usize, usize)>>, n: int) -> Option<
    CharSpan,
>
    decreases n,
{
    if n <= 0 {
        None
    } else {
        match segments[n - 1] {
            None => None,
            Some(seg) => {
                let end = if seg.1 == usize::MAX { usize::MAX } else { (seg.1 + 1) as usize };
                if n == 1 {
                    Some(CharSpan { page, start: seg.0, end })
                } else {
                    match segments_span_upto(page, segments, n - 1) {
                        None => None,
                        Some(s) => Some(
                            CharSpan {
                                page,
                                start: if seg.0 < s.start { seg.0 } else { s.start },
                                end: if end > s.end { end } else { s.end },
                            },
                        ),
                    }
                }
            },
        }
    }
}

/// The span of a search hit made of all `segments`; a hit without segments
/// has no span.
pub open spec fn segments_span(page: PageIndex, segments: Seq<Option<(usize, usize)>>) -> Option<CharSpan> {
    segments_span_upto(page, segments, segments.len() as int)
}

/// The character span covered by a search hit on `page`.
pub fn hit_span(page: PageIndex, segments: &Vec<Option<(usize, usize)>>) -> (span: Option<CharSpan>)
    ensures
        span == segments_span(page, segments@),
{
    let mut acc: Option<CharSpan> = None;
    let mut i: usize = 0;
    while i < segments.len()
        invariant
            i <= segments@.len(),
            acc == segments_span_upto(page, segments@, i as int),
        decreases segments.len() - i,
    {
        match segments[i] {
            None => {
                proof {
                    lemma_span_none_persists(page, segments@, i as int + 1, segments@.len() as int);
                }
                return None;
            },
            Some(seg) => {
                let end = seg.1.saturating_add(1);
                if i == 0 {
                    acc = Some(CharSpan { page, start: seg.0, end });
                } else {
                    match acc {
                        None => {
                            proof {
                                lemma_span_none_persists(page, segments@, i as int, segments@.len() as int);
                            }
                            return None;
                        },
                        Some(s) => {
                            acc = Some(
                                CharSpan {
                                    page,
                                    start: if seg.0 < s.start { seg.0 } else { s.start },
                                    end: if end > s.end { end } else { s.end },
                                },
                            );
                        },
                    }
                }
            },
        }
        i += 1;
    }
    acc
}


/// A search hit's span covers every one of its segments, and a hit has a
/// span exactly when it has segments and all of them can be read.
pub proof fn lemma_hit_span_covers(page: PageIndex, segments: Seq<Option<(usize, usize)>>, n: int)
    requires
        0 <= n <= segments.len(),
    ensures
        segments_span_upto(page, segments, n).is_some() == (n > 0 && forall|k: int|
            0 <= k < n ==> (#[trigger] segments[k]).is_some()),
        segments_span_upto(page, segments, n) matches Some(span) ==> {
            &&& span.page == page
            &&& forall|k: int|
                0 <= k < n ==> span.start <= (#[trigger] segments[k]).unwrap().0 && (
                segments[k].unwrap().1 < span.end || span.end == usize::MAX)
        },
    decreases n,
{
    if n > 0 {
        lemma_hit_span_covers(page, segments, n - 1);
        if segments[n - 1].is_none() {
            assert(!(forall|k: int| 0 <= k < n ==> (#[trigger] segments[k]).is_some()));
        }
    }
}

proof fn lemma_span_none_persists(page: PageIndex, segments: Seq<Option<(usize, usize)>>, k: int, n: int)
    requires
        1 <= k <= n <= segments.len(),
        segments_span_upto(page, segments, k) is None,
    ensures
        segments_span_upto(page, segments, n) is None,
    decreases n - k,
{
    if k < n {
        lemma_span_none_persists(page, segments, k + 1, n);
    }
}

/// The words of one line, scanning glyphs `g..end` with a word possibly open
/// since `open`: a whitespace glyph closes the open word, a large gap before
/// a glyph closes it and starts a new one, any other glyph opens a word if
/// none is open; the end of the line closes the open word. A closed word is
/// kept only if it covers at least one glyph.
pub open spec fn scan_words(
    page: PageIndex,
    line_start: int,
    g: int,
    end: int,
    open: Option<int>,
    space: Seq<bool>,
    gap_before: Seq<bool>,
) -> Seq<CharSpan>
    decreases end - g,
{
    if g >= end {
        close_word(page, open, end)
    } else if space[g] {
        close_word(page, open, g) + scan_words(page, line_start, g + 1, end, None, space, gap_before)
    } else if g >= 1 && g - 1 >= line_start && gap_before[g] {
        close_word(page, open, g) + scan_words(page, line_start, g + 1, end, Some(g), space, gap_before)
    } else {
        let next_open = if open.is_some() { open } else { Some(g) };
        scan_words(page, line_start, g + 1, end, next_open, space, gap_before)
    }
}

/// The word `[start, end)` if one is open and it covers a glyph.
pub open spec fn close_word(page: PageIndex, open: Option<int>, end: int) -> Seq<CharSpan> {
    match open {
        Some(start) => if start < end {
            seq![CharSpan { page, start: start as usize, end: end as usize }]
        } else {
            Seq::empty()
        },
        None => Seq::empty(),
    }
}

/// The words of the lines `lines[..n]`, line after line.
pub open spec fn words_of_lines(
    page: PageIndex,
    lines: Seq<CharSpan>,
    n: int,
    space: Seq<bool>,
    gap_before: Seq<bool>,
) -> Seq<CharSpan>
    decreases n,
{
    if n <= 0 {
        Seq::empty()
    } else {
        words_of_lines(page, lines, n - 1, space, gap_before) + scan_words(
            page,
            lines[n - 1].start as int,
            lines[n - 1].start as int,
            lines[n - 1].end as int,
            None,
            space,
            gap_before,
        )
    }
}


/// A word spans a run of glyphs from `lo` to `hi`: it covers at least one
/// glyph, none of them whitespace, with no large gap between two of them.
pub open spec fn is_word_run(w: CharSpan, lo: int, hi: int, space: Seq<bool>, gap_before: Seq<bool>) -> bool {
    &&& lo <= w.start < w.end <= hi
    &&& forall|k: int| w.start <= k < w.end ==> !(#[trigger] space[k])
    &&& forall|k: int| w.start < k < w.end ==> !(#[trigger] gap_before[k])
}

/// Every word of a line is a run of non-whitespace glyphs of that line with
/// no large gap inside.
#[verifier::spinoff_prover]
pub proof fn lemma_scan_words_runs(
    page: PageIndex,
    line_start: int,
    g: int,
    end: int,
    open: Option<int>,
    space: Seq<bool>,
    gap_before: Seq<bool>,
)
    requires
        0 <= line_start <= g <= end <= space.len() == gap_before.len(),
        end <= usize::MAX,
        open matches Some(o) ==> {
            &&& line_start <= o < g
            &&& forall|k: int| o <= k < g ==> !(#[trigger] space[k])
            &&& forall|k: int| o < k < g ==> !(#[trigger] gap_before[k])
        },
    ensures
        forall|i: int|
            0 <= i < scan_words(page, line_start, g, end, open, space, gap_before).len() ==> is_word_run(
                #[trigger] scan_words(page, line_start, g, end, open, space, gap_before)[i],
                line_start,
                end,
                space,
                gap_before,
            ) && scan_words(page, line_start, g, end, open, space, gap_before)[i].page == page,
    decreases end - g,
{
    let r = scan_words(page, line_start, g, end, open, space, gap_before);
    let c = close_word(page, open, g);
    if g < end {
        if space[g] || (g >= 1 && g - 1 >= line_start && gap_before[g]) {
            let next_open = if space[g] { None } else { Some(g) };
            lemma_scan_words_runs(page, line_start, g + 1, end, next_open, space, gap_before);
            let rest = scan_words(page, line_start, g + 1, end, next_open, space, gap_before);
            assert(r == c + rest);
            assert forall|i: int| 0 <= i < r.len() implies is_word_run(
                #[trigger] r[i],
                line_start,
                end,
                space,
                gap_before,
            ) && r[i].page == page by {
                if i >= c.len() {
                    assert(r[i] == rest[i - c.len()]);
                } else {
                    let o = open.unwrap();
                    assert(r[i] == c[i]);
                    assert(c[i] == CharSpan { page, start: o as usize, end: g as usize });
                }
            }
        } else {
            let next_open = if open.is_some() { open } else { Some(g) };
            lemma_scan_words_runs(page, line_start, g + 1, end, next_open, space, gap_before);
            assert(r == scan_words(page, line_start, g + 1, end, next_open, space, gap_before));
        }
    } else {
        if let Some(o) = open {
            if o < end {
                assert(r[0] == CharSpan { page, start: o as usize, end: end as usize });
            }
        }
    }
}

/// Some word of `words` covers glyph `k`.
pub open spec fn covered(words: Seq<CharSpan>, k: int) -> bool {
    exists|i: int| 0 <= i < words.len() && (#[trigger] words[i]).start <= k < words[i].end
}

proof fn lemma_covered_concat(a: Seq<CharSpan>, b: Seq<CharSpan>, k: int)
    ensures
        covered(a, k) ==> covered(a + b, k),
        covered(b, k) ==> covered(a + b, k),
{
    if covered(a, k) {
        let i = choose|i: int| 0 <= i < a.len() && (#[trigger] a[i]).start <= k < a[i].end;
        assert((a + b)[i] == a[i]);
    }
    if covered(b, k) {
        let i = choose|i: int| 0 <= i < b.len() && (#[trigger] b[i]).start <= k < b[i].end;
        assert((a + b)[a.len() + i] == b[i]);
    }
}

proof fn lemma_close_word_covers(page: PageIndex, o: int, end: int, k: int)
    requires
        0 <= o <= k < end <= usize::MAX,
    ensures
        covered(close_word(page, Some(o), end), k),
{
    assert(close_word(page, Some(o), end)[0] == CharSpan { page, start: o as usize, end: end as usize });
}

/// Scanning a line from `g` with a word open since `open` covers every glyph
/// of the open word and every non-whitespace glyph from `g` to the line's end.
#[verifier::spinoff_prover]
proof fn lemma_scan_words_cover(
    page: PageIndex,
    line_start: int,
    g: int,
    end: int,
    open: Option<int>,
    space: Seq<bool>,
    gap_before: Seq<bool>,
    k: int,
)
    requires
        0 <= g <= end <= usize::MAX,
        open matches Some(o) ==> 0 <= o < g,
        (open matches Some(o) && o <= k < g) || (g <= k < end && !space[k]),
    ensures
        covered(scan_words(page, line_start, g, end, open, space, gap_before), k),
    decreases end - g,
{
    let c = close_word(page, open, g);
    if g >= end {
        lemma_close_word_covers(page, open.unwrap(), end, k);
    } else if space[g] {
        let rest = scan_words(page, line_start, g + 1, end, None, space, gap_before);
        if k < g {
            lemma_close_word_covers(page, open.unwrap(), g, k);
        } else {
            lemma_scan_words_cover(page, line_start, g + 1, end, None, space, gap_before, k);
        }
        lemma_covered_concat(c, rest, k);
    } else if g >= 1 && g - 1 >= line_start && gap_before[g] {
        let rest = scan_words(page, line_start, g + 1, end, Some(g), space, gap_before);
        if k < g {
            lemma_close_word_covers(page, open.unwrap(), g, k);
        } else {
            lemma_scan_words_cover(page, line_start, g + 1, end, Some(g), space, gap_before, k);
        }
        lemma_covered_concat(c, rest, k);
    } else {
        let next_open = if open.is_some() { open } else { Some(g) };
        lemma_scan_words_cover(page, line_start, g + 1, end, next_open, space, gap_before, k);
    }
}

/// Every non-whitespace glyph of every line lies in one of the line's words:
/// grouping loses no text.
pub proof fn lemma_words_cover_lines(
    page: PageIndex,
    lines: Seq<CharSpan>,
    n: int,
    space: Seq<bool>,
    gap_before: Seq<bool>,
    j: int,
    k: int,
)
    requires
        0 <= j < n <= lines.len(),
        lines[j].start <= k < lines[j].end,
        !space[k],
    ensures
        covered(words_of_lines(page, lines, n, space, gap_before), k),
    decreases n,
{
    let prev = words_of_lines(page, lines, n - 1, space, gap_before);
    let last = scan_words(
        page,
        lines[n - 1].start as int,
        lines[n - 1].start as int,
        lines[n - 1].end as int,
        None,
        space,
        gap_before,
    );
    if j < n - 1 {
        lemma_words_cover_lines(page, lines, n - 1, space, gap_before, j, k);
    } else {
        lemma_scan_words_cover(
            page,
            lines[n - 1].start as int,
            lines[n - 1].start as int,
            lines[n - 1].end as int,
            None,
            space,
            gap_before,
            k,
        );
    }
    lemma_covered_concat(prev, last, k);
}

/// The words come in order and do not overlap: each ends no later than the
/// next one starts.
pub open spec fn words_ordered(words: Seq<CharSpan>) -> bool {
    forall|i: int, j: int| 0 <= i < j < words.len() ==> (#[trigger] words[i]).end <= (#[trigger] words[j]).start
}

/// Word `a` of `words` covers glyph `k`.
pub open spec fn in_word(words: Seq<CharSpan>, a: int, k: int) -> bool {
    0 <= a < words.len() && words[a].start <= k < words[a].end
}

/// The lines come in order and do not overlap, and none ends before it starts.
pub open spec fn lines_ordered(lines: Seq<CharSpan>) -> bool {
    &&& forall|a: int| 0 <= a < lines.len() ==> (#[trigger] lines[a]).start <= lines[a].end
    &&& forall|a: int, b: int| 0 <= a < b < lines.len() ==> (#[trigger] lines[a]).end <= (#[trigger] lines[b]).start
}

proof fn lemma_ordered_concat(a: Seq<CharSpan>, b: Seq<CharSpan>, bound: int)
    requires
        words_ordered(a),
        words_ordered(b),
        forall|i: int| 0 <= i < a.len() ==> (#[trigger] a[i]).end <= bound,
        forall|j: int| 0 <= j < b.len() ==> bound <= (#[trigger] b[j]).start,
    ensures
        words_ordered(a + b),
{
    let c = a + b;
    assert forall|i: int, j: int| 0 <= i < j < c.len() implies (#[trigger] c[i]).end <= (#[trigger] c[j]).start by {
        if j < a.len() {
            assert(c[i] == a[i] && c[j] == a[j]);
        } else if i >= a.len() {
            assert(c[i] == b[i - a.len()] && c[j] == b[j - a.len()]);
        } else {
            assert(c[i] == a[i] && c[j] == b[j - a.len()]);
        }
    }
}

/// The words of a line scan come in order, each covers at least one glyph,
/// none starts before the open word (or the scan position) and none ends
/// after the line.
#[verifier::spinoff_prover]
proof fn lemma_scan_words_ordered(
    page: PageIndex,
    line_start: int,
    g: int,
    end: int,
    open: Option<int>,
    space: Seq<bool>,
    gap_before: Seq<bool>,
)
    requires
        0 <= g <= end <= usize::MAX,
        open matches Some(o) ==> 0 <= o < g,
    ensures
        ({
            let r = scan_words(page, line_start, g, end, open, space, gap_before);
            let lo = match open {
                Some(o) => o,
                None => g,
            };
            &&& words_ordered(r)
            &&& forall|i: int|
                0 <= i < r.len() ==> lo <= (#[trigger] r[i]).start < r[i].end && r[i].end <= end
        }),
    decreases end - g,
{
    let r = scan_words(page, line_start, g, end, open, space, gap_before);
    let c = close_word(page, open, g);
    if g >= end {
        if let Some(o) = open {
            assert(r.len() == 1 && r[0] == CharSpan { page, start: o as usize, end: end as usize });
        }
    } else if space[g] || (g >= 1 && g - 1 >= line_start && gap_before[g]) {
        let next_open = if space[g] { None } else { Some(g) };
        lemma_scan_words_ordered(page, line_start, g + 1, end, next_open, space, gap_before);
        let rest = scan_words(page, line_start, g + 1, end, next_open, space, gap_before);
        assert(r == c + rest);
        if let Some(o) = open {
            if o < g {
                assert(c.len() == 1 && c[0] == CharSpan { page, start: o as usize, end: g as usize });
            }
        }
        lemma_ordered_concat(c, rest, g);
        assert forall|i: int| 0 <= i < r.len() implies ({
            let lo = match open {
                Some(o) => o,
                None => g,
            };
            lo <= (#[trigger] r[i]).start < r[i].end && r[i].end <= end
        }) by {
            if i >= c.len() {
                assert(r[i] == rest[i - c.len()]);
            } else {
                assert(r[i] == c[i]);
            }
        }
    } else {
        let next_open = if open.is_some() { open } else { Some(g) };
        lemma_scan_words_ordered(page, line_start, g + 1, end, next_open, space, gap_before);
    }
}

/// The words of `lines[..n]` come in order and none ends after line `n - 1`.
proof fn lemma_words_of_lines_ordered(
    page: PageIndex,
    lines: Seq<CharSpan>,
    n: int,
    space: Seq<bool>,
    gap_before: Seq<bool>,
)
    requires
        0 <= n <= lines.len(),
        lines_ordered(lines),
    ensures
        words_ordered(words_of_lines(page, lines, n, space, gap_before)),
        n >= 1 ==> forall|i: int|
            0 <= i < words_of_lines(page, lines, n, space, gap_before).len() ==> (#[trigger] words_of_lines(
                page,
                lines,
                n,
                space,
                gap_before,
            )[i]).end <= lines[n - 1].end,
    decreases n,
{
    if n > 0 {
        lemma_words_of_lines_ordered(page, lines, n - 1, space, gap_before);
        let prev = words_of_lines(page, lines, n - 1, space, gap_before);
        let l = lines[n - 1];
        lemma_scan_words_ordered(page, l.start as int, l.start as int, l.end as int, None, space, gap_before);
        let last = scan_words(page, l.start as int, l.start as int, l.end as int, None, space, gap_before);
        if n >= 2 {
            assert(lines[n - 2].end <= lines[n - 1].start);
        }
        lemma_ordered_concat(prev, last, l.start as int);
        let all = prev + last;
        assert forall|i: int| 0 <= i < all.len() implies (#[trigger] all[i]).end <= l.end by {
            if i < prev.len() {
                assert(all[i] == prev[i]);
            } else {
                assert(all[i] == last[i - prev.len()]);
            }
        }
    }
}

/// With ordered lines, the words of all lines come in order without overlap,
/// and every non-whitespace glyph of a line lies in exactly one word.
pub proof fn lemma_words_partition(
    page: PageIndex,
    lines: Seq<CharSpan>,
    space: Seq<bool>,
    gap_before: Seq<bool>,
)
    requires
        lines_ordered(lines),
    ensures
        words_ordered(words_of_lines(page, lines, lines.len() as int, space, gap_before)),
        forall|j: int, k: int|
            0 <= j < lines.len() && (#[trigger] lines[j]).start <= k < lines[j].end && !(#[trigger] space[k])
                ==> covered(words_of_lines(page, lines, lines.len() as int, space, gap_before), k),
        forall|k: int, a: int, b: int|
            #[trigger] in_word(words_of_lines(page, lines, lines.len() as int, space, gap_before), a, k)
                && #[trigger] in_word(words_of_lines(page, lines, lines.len() as int, space, gap_before), b, k)
                ==> a == b,
{
    let n = lines.len() as int;
    lemma_words_of_lines_ordered(page, lines, n, space, gap_before);
    assert forall|j: int, k: int|
        0 <= j < lines.len() && (#[trigger] lines[j]).start <= k < lines[j].end && !(#[trigger] space[k])
        implies covered(words_of_lines(page, lines, n, space, gap_before), k) by {
        lemma_words_cover_lines(page, lines, n, space, gap_before, j, k);
    }
}

/// Group the glyphs of each line into words. `space[g]` tells whether glyph
/// `g` is whitespace and `gap_before[g]` whether a large horizontal gap
/// separates glyph `g` from the glyph before it.
pub fn group_words(page: PageIndex, lines: &Vec<CharSpan>, space: &Vec<bool>, gap_before: &Vec<bool>) -> (words: Vec<
    CharSpan,
>)
    requires
        space@.len() == gap_before@.len(),
        forall|i: int| 0 <= i < lines@.len() ==> (#[trigger] lines@[i]).end <= space@.len(),
    ensures
        words@ == words_of_lines(page, lines@, lines@.len() as int, space@, gap_before@),
{
    let mut words: Vec<CharSpan> = Vec::new();
    let mut li: usize = 0;
    while li < lines.len()
        invariant
            li <= lines@.len(),
            space@.len() == gap_before@.len(),
            forall|i: int| 0 <= i < lines@.len() ==> (#[trigger] lines@[i]).end <= space@.len(),
            words@ == words_of_lines(page, lines@, li as int, space@, gap_before@),
        decreases lines.len() - li,
    {
        let line = lines[li];
        let ghost before = words@;
        let ghost full = scan_words(
            page,
            line.start as int,
            line.start as int,
            line.end as int,
            None,
            space@,
            gap_before@,
        );
        assert(line.end <= space@.len());
        if line.start < line.end {
            let mut open: Option<usize> = None;
            let mut g: usize = line.start;
            while g < line.end
                invariant
                    line.start <= g <= line.end,
                    line.end <= space@.len(),
                    space@.len() == gap_before@.len(),
                    open matches Some(o) ==> o < g,
                    before + full == words@ + scan_words(
                        page,
                        line.start as int,
                        g as int,
                        line.end as int,
                        match open {
                            Some(o) => Some(o as int),
                            None => None,
                        },
                        space@,
                        gap_before@,
                    ),
                decreases line.end - g,
            {
                let ghost w0 = words@;
                let ghost o0: Option<int> = match open {
                    Some(o) => Some(o as int),
                    None => None,
                };
                if space[g] || (g >= 1 && g - 1 >= line.start && gap_before[g]) {
                    if let Some(o) = open {
                        words.push(CharSpan { page, start: o, end: g });
                    }
                    assert(words@ =~= w0 + close_word(page, o0, g as int));
                    open = if space[g] {
                        None
                    } else {
                        Some(g)
                    };
                } else if open.is_none() {
                    open = Some(g);
                }
                g += 1;
                proof {
                    let o1: Option<int> = match open {
                        Some(o) => Some(o as int),
                        None => None,
                    };
                    let rest = scan_words(
                        page,
                        line.start as int,
                        g as int,
                        line.end as int,
                        o1,
                        space@,
                        gap_before@,
                    );
                    if space@[g - 1] || (g - 1 >= 1 && g - 2 >= line.start && gap_before@[g - 1]) {
                        assert(w0 + (close_word(page, o0, g - 1) + rest) =~= words@ + rest);
                    }
                }
            }
            let ghost w1 = words@;
            let ghost o2: Option<int> = match open {
                Some(o) => Some(o as int),
                None => None,
            };
            if let Some(o) = open {
                words.push(CharSpan { page, start: o, end: line.end });
            }
            assert(words@ =~= w1 + close_word(page, o2, line.end as int));
        } else {
            assert(full =~= Seq::<CharSpan>::empty());
        }
        assert(words@ =~= before + full);
        li += 1;
    }
    words
}

/// The glyph ranges to highlight on each of the lines `lines[..n]`: the part
/// of the line that lies within `[lo, hi)`, kept when it covers a glyph and
/// ends within the page's `glyph_count` glyphs. With `page` given, only lines
/// of that page count.
pub open spec fn clipped_ranges(
    lines: Seq<CharSpan>,
    n: int,
    page: Option<PageIndex>,
    lo: usize,
    hi: usize,
    glyph_count: usize,
) -> Seq<(usize, usize)>
    decreases n,
{
    if n <= 0 {
        Seq::empty()
    } else {
        let line = lines[n - 1];
        let s = if line.start > lo { line.start } else { lo };
        let e = if line.end < hi { line.end } else { hi };
        let keep = (page.is_none() || line.page == page.unwrap()) && s < e && e <= glyph_count;
        clipped_ranges(lines, n - 1, page, lo, hi, glyph_count) + if keep {
            seq![(s, e)]
        } else {
            Seq::empty()
        }
    }
}

/// Every clipped range is nonempty, lies within `[lo, hi)` and within the
/// page's glyphs, and comes from a line of the page asked for; and every line
/// of that page whose part within `[lo, hi)` is nonempty and within the
/// glyphs yields exactly that part.
pub proof fn lemma_clipped_ranges(
    lines: Seq<CharSpan>,
    n: int,
    page: Option<PageIndex>,
    lo: usize,
    hi: usize,
    glyph_count: usize,
)
    requires
        0 <= n <= lines.len(),
    ensures
        forall|j: int|
            0 <= j < clipped_ranges(lines, n, page, lo, hi, glyph_count).len() ==> {
                let r = #[trigger] clipped_ranges(lines, n, page, lo, hi, glyph_count)[j];
                lo <= r.0 < r.1 <= hi && r.1 <= glyph_count && exists|i: int|
                    0 <= i < n && (page.is_none() || (#[trigger] lines[i]).page == page.unwrap())
                        && lines[i].start <= r.0 && r.1 <= lines[i].end
            },
        forall|i: int|
            0 <= i < n && (page.is_none() || (#[trigger] lines[i]).page == page.unwrap()) && ({
                let s = if lines[i].start > lo { lines[i].start } else { lo };
                let e = if lines[i].end < hi { lines[i].end } else { hi };
                s < e && e <= glyph_count
            }) ==> clipped_ranges(lines, n, page, lo, hi, glyph_count).contains(
                (
                    if lines[i].start > lo { lines[i].start } else { lo },
                    if lines[i].end < hi { lines[i].end } else { hi },
                ),
            ),
    decreases n,
{
    if n > 0 {
        lemma_clipped_ranges(lines, n - 1, page, lo, hi, glyph_count);
        let prev = clipped_ranges(lines, n - 1, page, lo, hi, glyph_count);
        let r = clipped_ranges(lines, n, page, lo, hi, glyph_count);
        let line = lines[n - 1];
        let s = if line.start > lo { line.start } else { lo };
        let e = if line.end < hi { line.end } else { hi };
        assert forall|j: int| 0 <= j < r.len() implies {
            let x = #[trigger] r[j];
            lo <= x.0 < x.1 <= hi && x.1 <= glyph_count && exists|i: int|
                0 <= i < n && (page.is_none() || (#[trigger] lines[i]).page == page.unwrap())
                    && lines[i].start <= x.0 && x.1 <= lines[i].end
        } by {
            if j < prev.len() {
                assert(r[j] == prev[j]);
                let x = prev[j];
                let i = choose|i: int|
                    0 <= i < n - 1 && (page.is_none() || (#[trigger] lines[i]).page == page.unwrap())
                        && lines[i].start <= x.0 && x.1 <= lines[i].end;
                assert(lines[i].start <= x.0);
            } else {
                assert(r[j] == (s, e));
                assert(lines[n - 1] == line);
            }
        }
        assert forall|i: int|
            0 <= i < n && (page.is_none() || (#[trigger] lines[i]).page == page.unwrap()) && ({
                let s = if lines[i].start > lo { lines[i].start } else { lo };
                let e = if lines[i].end < hi { lines[i].end } else { hi };
                s < e && e <= glyph_count
            }) implies r.contains(
                (
                    if lines[i].start > lo { lines[i].start } else { lo },
                    if lines[i].end < hi { lines[i].end } else { hi },
                ),
            ) by {
            if i < n - 1 {
                let x = (
                    if lines[i].start > lo { lines[i].start } else { lo },
                    if lines[i].end < hi { lines[i].end } else { hi },
                );
                let k = choose|k: int| 0 <= k < prev.len() && prev[k] == x;
                assert(r[k] == prev[k]);
            } else {
                assert(r[prev.len() as int] == (s, e));
            }
        }
    }
}

/// Every highlighted range of a search match lies within the match and within
/// the page's glyphs, and covers at least one glyph; every line's nonempty
/// part of the match is highlighted.
pub proof fn lemma_match_ranges_within_match(lines: Seq<CharSpan>, span: CharSpan, glyph_count: usize)
    ensures
        forall|j: int|
            0 <= j < match_ranges(lines, span, glyph_count).len() ==> {
                let r = #[trigger] match_ranges(lines, span, glyph_count)[j];
                span.start <= r.0 < r.1 <= span.end && r.1 <= glyph_count
            },
        forall|i: int|
            0 <= i < lines.len() && ({
                let s = if (#[trigger] lines[i]).start > span.start { lines[i].start } else { span.start };
                let e = if lines[i].end < span.end { lines[i].end } else { span.end };
                s < e && e <= glyph_count
            }) ==> match_ranges(lines, span, glyph_count).contains(
                (
                    if lines[i].start > span.start { lines[i].start } else { span.start },
                    if lines[i].end < span.end { lines[i].end } else { span.end },
                ),
            ),
{
    lemma_clipped_ranges(lines, lines.len() as int, None, span.start, span.end, glyph_count);
    let clipped = clipped_ranges(lines, lines.len() as int, None, span.start, span.end, glyph_count);
    assert forall|i: int|
        0 <= i < lines.len() && ({
            let s = if (#[trigger] lines[i]).start > span.start { lines[i].start } else { span.start };
            let e = if lines[i].end < span.end { lines[i].end } else { span.end };
            s < e && e <= glyph_count
        }) implies match_ranges(lines, span, glyph_count).contains(
            (
                if lines[i].start > span.start { lines[i].start } else { span.start },
                if lines[i].end < span.end { lines[i].end } else { span.end },
            ),
        ) by {
        let x = (
            if lines[i].start > span.start { lines[i].start } else { span.start },
            if lines[i].end < span.end { lines[i].end } else { span.end },
        );
        assert(clipped.contains(x));
        let k = choose|k: int| 0 <= k < clipped.len() && clipped[k] == x;
        assert(clipped.len() > 0);
    }
}

/// The glyph ranges of the lines that lie within `[lo, hi)`; see
/// [`clipped_ranges`].
pub fn clipped_line_ranges(lines: &Vec<CharSpan>, page: Option<PageIndex>, lo: usize, hi: usize, glyph_count: usize) -> (ranges:
    Vec<(usize, usize)>)
    ensures
        ranges@ == clipped_ranges(lines@, lines@.len() as int, page, lo, hi, glyph_count),
{
    let mut ranges: Vec<(usize, usize)> = Vec::new();
    let mut i: usize = 0;
    while i < lines.len()
        invariant
            i <= lines@.len(),
            ranges@ == clipped_ranges(lines@, i as int, page, lo, hi, glyph_count),
        decreases lines.len() - i,
    {
        let line = lines[i];
        let s = if line.start > lo { line.start } else { lo };
        let e = if line.end < hi { line.end } else { hi };
        let on_page = match page {
            None => true,
            Some(p) => line.page.0 == p.0,
        };
        if on_page && s < e && e <= glyph_count {
            ranges.push((s, e));
        }
        proof {
            assert(ranges@ =~= clipped_ranges(lines@, i + 1, page, lo, hi, glyph_count));
        }
        i += 1;
    }
    ranges
}

/// The glyph ranges whose boxes highlight a search match: its part on each
/// line; when no line holds any of it, the whole match if it covers glyphs
/// of the page.
pub open spec fn match_ranges(lines: Seq<CharSpan>, span: CharSpan, glyph_count: usize) -> Seq<(usize, usize)> {
    let r = clipped_ranges(lines, lines.len() as int, None, span.start, span.end, glyph_count);
    if r.len() == 0 && span.start < span.end && span.end <= glyph_count {
        seq![(span.start, span.end)]
    } else {
        r
    }
}

/// The glyph ranges whose boxes highlight a search match.
pub fn match_glyph_ranges(lines: &Vec<CharSpan>, span: CharSpan, glyph_count: usize) -> (ranges: Vec<(usize, usize)>)
    ensures
        ranges@ == match_ranges(lines@, span, glyph_count),
{
    let mut ranges = clipped_line_ranges(lines, None, span.start, span.end, glyph_count);
    if ranges.len() == 0 && span.start < span.end && span.end <= glyph_count {
        ranges.push((span.start, span.end));
        assert(ranges@ =~= seq![(span.start, span.end)]);
    }
    ranges
}

} // verus!
