//! The viewer application's load lifecycle and navigation state, apart from
//! the viewer widget itself: what is shown while a document loads, what a
//! failure leaves behind, the page-number input and the sidebar tab.

use vstd::prelude::*;

use crate::strings::{decimal, digit_char, push_char, push_decimal};

verus! {

/// Current loading lifecycle of the application.
#[derive(Debug, Clone, PartialEq, Eq)]
pub enum LoadState {
    /// No document is loaded and no load is in progress.
    Idle,
    /// The app is currently fetching or opening document bytes.
    AcquiringBytes {
        /// Status label shown while bytes are being acquired.
        label: String,
    },
    /// A document loaded successfully.
    Loaded,
    /// Loading failed with a user-displayable message.
    Failed {
        /// User-facing error message describing the load failure.
        msg: String,
    },
}

/// Current loading lifecycle of the demo application.
pub type DemoLoadState = LoadState;

/// The sidebar panel shown when both are enabled.
#[derive(Debug, Clone, Copy, PartialEq, Eq, Structural)]
pub enum SidebarTab {
    /// The document outline.
    Outline,
    /// The page thumbnails.
    Thumbnails,
}

/// The application's state besides the viewer widget.
#[derive(Debug)]
pub struct AppSession {
    /// Loading lifecycle.
    pub load_state: LoadState,
    /// Description of the loaded document for the debug panel.
    pub debug_info: Option<String>,
    /// Text of the page-number input.
    pub page_input: String,
    /// Whether the page-number input takes focus on the next frame.
    pub page_input_focused: bool,
    /// Number of pages of the loaded document.
    pub total_pages: usize,
    /// The sidebar panel shown when both are enabled.
    pub sidebar_tab: SidebarTab,
}

/// Unicode white space, as `char::is_whitespace` defines it.
pub open spec fn is_white_space(c: char) -> bool {
    let u = c as u32;
    (0x09 <= u && u <= 0x0d) || u == 0x20 || u == 0x85 || u == 0xa0 || u == 0x1680 || (0x2000 <= u && u
        <= 0x200a) || u == 0x2028 || u == 0x2029 || u == 0x202f || u == 0x205f || u == 0x3000
}

/// Position of the first non-white-space character at or after `i`.
pub open spec fn trim_start_from(s: Seq<char>, i: int) -> int
    decreases s.len() - i,
{
    if i >= s.len() || i < 0 {
        s.len() as int
    } else if !is_white_space(s[i]) {
        i
    } else {
        trim_start_from(s, i + 1)
    }
}

/// One past the last non-white-space character before `n`.
pub open spec fn trim_end_upto(s: Seq<char>, n: int) -> int
    decreases n,
{
    if n <= 0 {
        0
    } else if !is_white_space(s[n - 1]) {
        n
    } else {
        trim_end_upto(s, n - 1)
    }
}

/// `s` without leading and trailing white space (`str::trim`).
pub open spec fn trimmed(s: Seq<char>) -> Seq<char> {
    let lo = trim_start_from(s, 0);
    if lo >= s.len() {
        Seq::empty()
    } else {
        s.subrange(lo, trim_end_upto(s, s.len() as int))
    }
}

/// An ASCII decimal digit.
pub open spec fn is_digit(c: char) -> bool {
    '0' <= c && c <= '9'
}

/// The number written by the decimal digits `d`.
pub open spec fn digits_value(d: Seq<char>) -> nat
    decreases d.len(),
{
    if d.len() == 0 {
        0
    } else {
        digits_value(d.drop_last()) * 10 + ((d.last() as u32) - ('0' as u32)) as nat
    }
}

/// The unsigned number written by `s`, as `str::parse::<usize>` reads it: an
/// optional `+`, then one or more decimal digits, with a value that fits in
/// a `usize`.
pub open spec fn parse_usize(s: Seq<char>) -> Option<usize> {
    digits_number(
        if s.len() > 0 && s[0] == '+' {
            s.drop_first()
        } else {
            s
        },
    )
}

/// The number written by one or more decimal digits, if it fits in a `usize`.
pub open spec fn digits_number(d: Seq<char>) -> Option<usize> {
    if d.len() == 0 || !(forall|i: int| 0 <= i < d.len() ==> is_digit(#[trigger] d[i])) {
        None
    } else if digits_value(d) > usize::MAX {
        None
    } else {
        Some(digits_value(d) as usize)
    }
}

/// The page (zero-based) the page-number input asks for: the trimmed input
/// read as a number from one to `total` (one-based).
pub open spec fn requested_page(input: Seq<char>, total: usize) -> Option<usize> {
    match parse_usize(trimmed(input)) {
        Some(n) => if 1 <= n && n <= total {
            Some((n - 1) as usize)
        } else {
            None
        },
        None => None,
    }
}

/// The debug description of a loaded document.
pub open spec fn description_text(page_count: usize, first_page_size: Seq<char>) -> Seq<char> {
    "PDF loaded: "@ + decimal(page_count as nat) + " pages. Page 1 size: "@ + first_page_size
        + " points."@
}

proof fn lemma_digits_value_prefix(d: Seq<char>, k: int)
    requires
        0 <= k <= d.len(),
        forall|i: int| 0 <= i < d.len() ==> is_digit(#[trigger] d[i]),
    ensures
        digits_value(d.take(k)) <= digits_value(d),
    decreases d.len() - k,
{
    if k < d.len() {
        lemma_digits_value_prefix(d, k + 1);
        assert(d.take(k + 1).drop_last() =~= d.take(k));
    } else {
        assert(d.take(k) =~= d);
    }
}

proof fn lemma_overflow_rejects(d: Seq<char>, k: int)
    requires
        0 < k <= d.len(),
        digits_value(d.take(k)) > usize::MAX,
    ensures
        !(forall|i: int| 0 <= i < d.len() ==> is_digit(#[trigger] d[i])) || digits_value(d) > usize::MAX,
{
    if forall|i: int| 0 <= i < d.len() ==> is_digit(#[trigger] d[i]) {
        lemma_digits_value_prefix(d, k);
    }
}


proof fn lemma_digit_char_value(k: nat)
    requires
        k < 10,
    ensures
        is_digit(digit_char(k)),
        (digit_char(k) as u32) - ('0' as u32) == k,
{
    assert(seq!['0', '1', '2', '3', '4', '5', '6', '7', '8', '9'][0] == '0');
    if k == 0 {
    } else if k == 1 {
    } else if k == 2 {
    } else if k == 3 {
    } else if k == 4 {
    } else if k == 5 {
    } else if k == 6 {
    } else if k == 7 {
    } else if k == 8 {
    } else {
        assert(k == 9);
    }
}

proof fn lemma_decimal_digits(n: nat)
    ensures
        decimal(n).len() > 0,
        forall|i: int| 0 <= i < decimal(n).len() ==> is_digit(#[trigger] decimal(n)[i]),
        digits_value(decimal(n)) == n,
    decreases n,
{
    lemma_digit_char_value(n % 10);
    if n < 10 {
        assert(n % 10 == n);
        let d = decimal(n);
        assert(d.drop_last() =~= Seq::<char>::empty());
        assert(digits_value(d.drop_last()) == 0);
        assert(d.last() == digit_char(n));
        assert(digits_value(d) == ((d.last() as u32) - ('0' as u32)) as nat);
    }
    if n >= 10 {
        vstd::arithmetic::div_mod::lemma_fundamental_div_mod(n as int, 10);
        lemma_decimal_digits(n / 10);
        let d = decimal(n);
        assert(d.drop_last() =~= decimal(n / 10));
        assert(d.last() == digit_char(n % 10));
        assert(digits_value(d) == digits_value(decimal(n / 10)) * 10 + ((d.last() as u32) - ('0' as u32)) as nat);
        assert(digits_value(d) == (n / 10) * 10 + n % 10);
        assert(n == 10 * (n / 10) + n % 10);
        assert forall|i: int| 0 <= i < d.len() implies is_digit(#[trigger] d[i]) by {
            if i < d.len() - 1 {
                assert(d[i] == decimal(n / 10)[i]);
            }
        }
    }
}

/// A page number written in decimal reads back as the same number, with or
/// without surrounding white space: the page input that a load fills in
/// ("1") asks for the first page.
pub proof fn lemma_decimal_parses_back(n: usize)
    ensures
        parse_usize(trimmed(decimal(n as nat))) == Some(n),
        n >= 1 ==> requested_page(decimal(n as nat), n) == Some((n - 1) as usize),
{
    let d = decimal(n as nat);
    lemma_decimal_digits(n as nat);
    assert(!is_white_space(d[0]));
    assert(trim_start_from(d, 0) == 0);
    assert(!is_white_space(d[d.len() - 1]));
    assert(trim_end_upto(d, d.len() as int) == d.len());
    assert(trimmed(d) =~= d);
    assert(d[0] != '+');
}

/// Whether `c` is Unicode white space, as `char::is_whitespace` tells.
pub fn is_white_space_char(c: char) -> (ws: bool)
    ensures
        ws == is_white_space(c),
{
    let u = c as u32;
    (0x09 <= u && u <= 0x0d) || u == 0x20 || u == 0x85 || u == 0xa0 || u == 0x1680 || (0x2000 <= u
        && u <= 0x200a) || u == 0x2028 || u == 0x2029 || u == 0x202f || u == 0x205f || u == 0x3000
}

/// Reads an unsigned decimal number from a string the way `str::trim`
/// followed by `str::parse::<usize>` does.
pub fn parse_trimmed_usize(s: &str) -> (n: Option<usize>)
    ensures
        n == parse_usize(trimmed(s@)),
{
    let len = s.unicode_len();
    let mut lo: usize = 0;
    while lo < len && is_white_space_char(s.get_char(lo))
        invariant
            len == s@.len(),
            lo <= len,
            trim_start_from(s@, 0) == trim_start_from(s@, lo as int),
        decreases len - lo,
    {
        lo += 1;
    }
    if lo >= len {
        assert(trimmed(s@) =~= Seq::<char>::empty());
        return None;
    }
    let mut hi: usize = len;
    while hi > lo && is_white_space_char(s.get_char(hi - 1))
        invariant
            len == s@.len(),
            lo < len,
            lo < hi <= len,
            lo == trim_start_from(s@, 0),
            !is_white_space(s@[lo as int]),
            trim_end_upto(s@, len as int) == trim_end_upto(s@, hi as int),
        decreases hi,
    {
        hi -= 1;
    }
    let ghost t = s@.subrange(lo as int, hi as int);
    assert(t == trimmed(s@));
    assert(t.len() > 0);
    assert(t[0] == s@[lo as int]);
    let mut i: usize = lo;
    if s.get_char(lo) == '+' {
        i = lo + 1;
    }
    let ghost d = if t[0] == '+' {
        t.drop_first()
    } else {
        t
    };
    assert(d =~= s@.subrange(i as int, hi as int));
    assert(d == (if trimmed(s@).len() > 0 && trimmed(s@)[0] == '+' {
        trimmed(s@).drop_first()
    } else {
        trimmed(s@)
    }));
    if i >= hi {
        return None;
    }
    let start = i;
    let mut acc: usize = 0;
    while i < hi
        invariant
            len == s@.len(),
            start <= i <= hi <= len,
            d =~= s@.subrange(start as int, hi as int),
            parse_usize(trimmed(s@)) == digits_number(d),
            forall|k: int| start <= k < i ==> is_digit(#[trigger] s@[k]),
            acc == digits_value(s@.subrange(start as int, i as int)),
        decreases hi - i,
    {
        let c = s.get_char(i);
        if !('0' <= c && c <= '9') {
            assert(!is_digit(d[i - start]));
            return None;
        }
        let digit = (c as u32 - '0' as u32) as usize;
        assert(s@.subrange(start as int, i + 1).drop_last() =~= s@.subrange(start as int, i as int));
        let ghost k = i - start + 1;
        assert(s@.subrange(start as int, i + 1) =~= d.take(k));
        assert(digits_value(d.take(k)) == acc * 10 + digit);
        let next = acc.checked_mul(10);
        match next {
            None => {
                proof {
                    lemma_overflow_rejects(d, k);
                }
                return None;
            },
            Some(m) => {
                match m.checked_add(digit) {
                    None => {
                        proof {
                            lemma_overflow_rejects(d, k);
                        }
                        return None;
                    },
                    Some(v) => {
                        acc = v;
                    },
                }
            },
        }
        i += 1;
    }
    assert(s@.subrange(start as int, i as int) =~= d);
    Some(acc)
}

impl AppSession {
    /// A session with nothing loaded: idle, no pages, empty page input, the
    /// outline tab preferred.
    pub fn new() -> (session: AppSession)
        ensures
            session.load_state == LoadState::Idle,
            session.debug_info.is_none(),
            session.page_input@ == Seq::<char>::empty(),
            !session.page_input_focused,
            session.total_pages == 0,
            session.sidebar_tab == SidebarTab::Outline,
    {
        AppSession {
            load_state: LoadState::Idle,
            debug_info: None,
            page_input: String::new(),
            page_input_focused: false,
            total_pages: 0,
            sidebar_tab: SidebarTab::Outline,
        }
    }

    /// Bytes of a document arrived from `source_label` and are being opened.
    pub fn begin_load(&mut self, source_label: String)
        ensures
            final(self).load_state == (LoadState::AcquiringBytes { label: source_label }),
            final(self).debug_info == old(self).debug_info,
            final(self).page_input == old(self).page_input,
            final(self).total_pages == old(self).total_pages,
            final(self).sidebar_tab == old(self).sidebar_tab,
            final(self).page_input_focused == old(self).page_input_focused,
    {
        self.load_state = LoadState::AcquiringBytes { label: source_label };
    }

    /// A document with `page_count` pages was opened: the page input shows
    /// page 1 (empty for a document without pages), the debug panel shows its
    /// description (or why there is none), and the state is `Loaded`.
    pub fn load_succeeded(&mut self, page_count: usize, description: Result<String, String>)
        ensures
            final(self).load_state == LoadState::Loaded,
            final(self).total_pages == page_count,
            final(self).page_input@ == if page_count > 0 {
                seq!['1']
            } else {
                Seq::<char>::empty()
            },
            final(self).debug_info matches Some(info) && info@ == match description {
                Ok(d) => d@,
                Err(e) => "PDF loaded; debug info unavailable: "@ + e@,
            },
            final(self).sidebar_tab == old(self).sidebar_tab,
            final(self).page_input_focused == old(self).page_input_focused,
    {
        self.total_pages = page_count;
        let mut input = String::new();
        if page_count > 0 {
            push_char(&mut input, '1');
        }
        self.page_input = input;
        let info = match description {
            Ok(d) => d,
            Err(e) => {
                let mut m = String::from_str("PDF loaded; debug info unavailable: ");
                m.append(e.as_str());
                m
            },
        };
        self.debug_info = Some(info);
        self.load_state = LoadState::Loaded;
    }

    /// Opening the document failed: no description, no pages, an empty page
    /// input, and the failure message is shown.
    pub fn load_failed(&mut self, message: String)
        ensures
            final(self).load_state == (LoadState::Failed { msg: message }),
            final(self).debug_info.is_none(),
            final(self).total_pages == 0,
            final(self).page_input@ == Seq::<char>::empty(),
            final(self).sidebar_tab == old(self).sidebar_tab,
            final(self).page_input_focused == old(self).page_input_focused,
    {
        self.debug_info = None;
        self.total_pages = 0;
        self.page_input = String::new();
        self.load_state = LoadState::Failed { msg: message };
    }

    /// The document's bytes could not be had (a file could not be read or a
    /// download failed): no description, and the failure message is shown.
    pub fn acquire_failed(&mut self, message: String)
        ensures
            final(self).load_state == (LoadState::Failed { msg: message }),
            final(self).debug_info.is_none(),
            final(self).total_pages == old(self).total_pages,
            final(self).page_input == old(self).page_input,
            final(self).sidebar_tab == old(self).sidebar_tab,
            final(self).page_input_focused == old(self).page_input_focused,
    {
        self.debug_info = None;
        self.load_state = LoadState::Failed { msg: message };
    }

    /// Opening was cancelled before any bytes arrived.
    pub fn cancel_load(&mut self)
        ensures
            final(self).load_state == LoadState::Idle,
            final(self).debug_info == old(self).debug_info,
            final(self).total_pages == old(self).total_pages,
            final(self).page_input == old(self).page_input,
            final(self).sidebar_tab == old(self).sidebar_tab,
            final(self).page_input_focused == old(self).page_input_focused,
    {
        self.load_state = LoadState::Idle;
    }

    /// Dismiss a failure or close the document: back to idle with nothing
    /// loaded.
    pub fn reset(&mut self)
        ensures
            final(self).load_state == LoadState::Idle,
            final(self).debug_info.is_none(),
            final(self).total_pages == 0,
            final(self).page_input@ == Seq::<char>::empty(),
            final(self).sidebar_tab == old(self).sidebar_tab,
            final(self).page_input_focused == old(self).page_input_focused,
    {
        self.load_state = LoadState::Idle;
        self.debug_info = None;
        self.total_pages = 0;
        self.page_input = String::new();
    }

    /// The outcome of a load: `Ok` when a document is loaded, the failure
    /// message when it failed, and an error for any other state.
    pub fn load_outcome(&self) -> (outcome: Result<(), String>)
        ensures
            match self.load_state {
                LoadState::Loaded => outcome is Ok,
                LoadState::Failed { msg } => outcome matches Err(e) && e@ == msg@,
                _ => outcome matches Err(e) && e@ == "unexpected state after load"@,
            },
    {
        match &self.load_state {
            LoadState::Loaded => Ok(()),
            LoadState::Failed { msg } => Err(msg.clone()),
            _ => Err(String::from_str("unexpected state after load")),
        }
    }

    /// The page (zero-based) the page-number input asks to jump to, if it
    /// holds a page number of the document.
    pub fn requested_page(&self) -> (page: Option<usize>)
        ensures
            page == requested_page(self.page_input@, self.total_pages),
    {
        match parse_trimmed_usize(self.page_input.as_str()) {
            Some(n) => if 1 <= n && n <= self.total_pages {
                Some(n - 1)
            } else {
                None
            },
            None => None,
        }
    }

    /// Ask for the page-number input to take focus on the next frame.
    pub fn focus_page_input(&mut self)
        ensures
            final(self).page_input_focused,
            final(self).load_state == old(self).load_state,
            final(self).page_input == old(self).page_input,
            final(self).total_pages == old(self).total_pages,
    {
        self.page_input_focused = true;
    }

    /// Take the request to focus the page-number input.
    pub fn take_page_input_focus(&mut self) -> (requested: bool)
        ensures
            requested == old(self).page_input_focused,
            !final(self).page_input_focused,
            final(self).load_state == old(self).load_state,
            final(self).page_input == old(self).page_input,
            final(self).total_pages == old(self).total_pages,
    {
        let requested = self.page_input_focused;
        self.page_input_focused = false;
        requested
    }

    /// The sidebar panel to show: the only enabled one, the preferred tab
    /// when both are enabled, none when neither is.
    pub fn active_sidebar_tab(&self, outline_visible: bool, thumbnails_visible: bool) -> (tab: Option<SidebarTab>)
        ensures
            tab == if outline_visible && thumbnails_visible {
                Some(self.sidebar_tab)
            } else if outline_visible {
                Some(SidebarTab::Outline)
            } else if thumbnails_visible {
                Some(SidebarTab::Thumbnails)
            } else {
                None
            },
    {
        match (outline_visible, thumbnails_visible) {
            (false, false) => None,
            (true, false) => Some(SidebarTab::Outline),
            (false, true) => Some(SidebarTab::Thumbnails),
            (true, true) => Some(self.sidebar_tab),
        }
    }

    /// Toggle a sidebar panel that is currently `visible`: returns its new
    /// visibility; a panel that becomes visible becomes the preferred tab.
    pub fn toggle_panel(&mut self, tab: SidebarTab, visible: bool) -> (now_visible: bool)
        ensures
            now_visible == !visible,
            final(self).sidebar_tab == if now_visible {
                tab
            } else {
                old(self).sidebar_tab
            },
            final(self).load_state == old(self).load_state,
            final(self).page_input == old(self).page_input,
            final(self).total_pages == old(self).total_pages,
    {
        let now_visible = !visible;
        if now_visible {
            self.sidebar_tab = tab;
        }
        now_visible
    }
}

/// The debug description of a loaded document with `page_count` pages whose
/// first page measures `first_page_size` ("unknown" when it cannot be had).
pub fn describe_document(page_count: usize, first_page_size: &str) -> (text: String)
    ensures
        text@ == description_text(page_count, first_page_size@),
{
    let mut text = String::from_str("PDF loaded: ");
    push_decimal(&mut text, page_count);
    text.append(" pages. Page 1 size: ");
    text.append(first_page_size);
    text.append(" points.");
    text
}

} // verus!
