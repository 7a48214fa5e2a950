use viewkai::extract::{group_words, hit_span, keeps_char};
use viewkai::{CharSpan, PageIndex};

fn span(start: usize, end: usize) -> CharSpan {
    CharSpan { page: PageIndex(0), start, end }
}

#[test]
fn control_characters_are_dropped_except_tab() {
    assert!(keeps_char('a'));
    assert!(keeps_char(' '));
    assert!(keeps_char('\t'));
    assert!(!keeps_char('\n'));
    assert!(!keeps_char('\u{7f}'));
    assert!(!keeps_char('\u{85}'));
    assert!(keeps_char('\u{a0}'));
}

#[test]
fn hit_span_covers_all_segments() {
    let page = PageIndex(3);
    assert_eq!(hit_span(page, &vec![]), None);
    assert_eq!(
        hit_span(page, &vec![Some((10, 14)), Some((2, 5))]),
        Some(CharSpan { page, start: 2, end: 15 })
    );
    assert_eq!(hit_span(page, &vec![Some((10, 14)), None]), None);
    assert_eq!(
        hit_span(page, &vec![Some((0, usize::MAX))]),
        Some(CharSpan { page, start: 0, end: usize::MAX })
    );
}

#[test]
fn words_split_at_spaces_and_gaps() {
    // "ab cd|ef" on one line, with a large gap before glyph 5; "gh" on a second line.
    let space = vec![false, false, true, false, false, false, false, false, false];
    let gap = vec![false, false, false, false, false, true, false, false, false];
    let lines = vec![span(0, 7), span(7, 9)];
    let words = group_words(PageIndex(0), &lines, &space, &gap);
    assert_eq!(words, vec![span(0, 2), span(3, 5), span(5, 7), span(7, 9)]);
}

#[test]
fn words_ignore_empty_and_whitespace_lines() {
    let space = vec![true, true, false];
    let gap = vec![false, false, true];
    let lines = vec![span(0, 2), span(2, 2), span(2, 3)];
    let words = group_words(PageIndex(0), &lines, &space, &gap);
    // the gap before glyph 2 does not split across a line start
    assert_eq!(words, vec![span(2, 3)]);
}

#[test]
fn every_non_space_glyph_lies_in_a_word() {
    // "ab cd|e f" : two lines, a large gap before 'd'.
    let text: Vec<char> = "ab cdef".chars().collect();
    let space: Vec<bool> = text.iter().map(|c| viewkai::session::is_white_space_char(*c)).collect();
    let mut gap = vec![false; text.len()];
    gap[4] = true;
    let lines = vec![span(0, 5), span(5, 7)];
    let words = group_words(PageIndex(0), &lines, &space, &gap);
    assert_eq!(words, vec![span(0, 2), span(3, 4), span(4, 5), span(5, 7)]);
    for k in 0..text.len() {
        if !space[k] {
            assert!(words.iter().any(|w| w.start <= k && k < w.end), "glyph {k}");
        }
    }
}

#[test]
fn words_are_ordered_and_each_glyph_in_one_word() {
    let text: Vec<char> = "ab cdef gh".chars().collect();
    let space: Vec<bool> = text.iter().map(|c| viewkai::session::is_white_space_char(*c)).collect();
    let mut gap = vec![false; text.len()];
    gap[4] = true;
    let lines = vec![span(0, 6), span(6, 10)];
    let words = group_words(PageIndex(0), &lines, &space, &gap);
    for pair in words.windows(2) {
        assert!(pair[0].end <= pair[1].start);
    }
    for k in 0..text.len() {
        let n = words.iter().filter(|w| w.start <= k && k < w.end).count();
        assert_eq!(n, usize::from(!space[k]), "glyph {k}");
    }
}

#[test]
fn spans_of_hits_keeps_hits_with_a_span_in_order() {
    let hits = vec![
        vec![Some((4, 6)), Some((1, 2))],
        vec![None],
        vec![],
        vec![Some((9, 9))],
    ];
    let spans = viewkai::pdf::spans_of_hits(PageIndex(0), &hits);
    assert_eq!(spans, vec![span(1, 7), span(9, 10)]);
}
