//! Shared view helpers: navigation state, flash messages, pagination and
//! small HTML fragments.
use vstd::prelude::*;

use crate::error::AppError;
use crate::text::{chars_of, dec_int, extend_chars, extend_str, push_dec_i64, string_of};

verus! {

/// The navigation section highlighted in the sidebar.
#[derive(Clone, Copy, Debug, PartialEq, Eq, Structural)]
pub enum NavActive {
    /// No section is highlighted.
    NoSection,
    Hooks,
    Approvals,
    Scripts,
    Admin,
}

impl Default for NavActive {
    fn default() -> (n: Self)
        ensures
            n == NavActive::NoSection,
    {
        NavActive::NoSection
    }
}

/// One-shot messages shown at the top of a page.
#[derive(Clone, Copy, Debug)]
pub struct FlashMessages<'a> {
    pub success: Option<&'a str>,
    pub error: Option<&'a str>,
}

impl<'a> Default for FlashMessages<'a> {
    fn default() -> (f: Self)
        ensures
            f.success is None,
            f.error is None,
    {
        FlashMessages { success: None, error: None }
    }
}

/// Visual kind of a status tag.
#[derive(Clone, Copy, Debug, PartialEq, Eq, Structural)]
pub enum StatusKind {
    Neutral,
    /// A good outcome (shown in the "ok" colour).
    Success,
    Info,
    Warn,
    Error,
}

/// Visual kind of an action button.
#[derive(Clone, Copy, Debug, PartialEq, Eq, Structural)]
pub enum ActionKind {
    Default,
    Primary,
    Danger,
}

/// The HTML-escaped form of one character, as the template engine writes
/// it: `&`, `<`, `>`, `"` and `'` become numeric character references.
pub open spec fn template_escape_char(c: char) -> Seq<char> {
    if c == '&' {
        seq!['&', '#', '3', '8', ';']
    } else if c == '<' {
        seq!['&', '#', '6', '0', ';']
    } else if c == '>' {
        seq!['&', '#', '6', '2', ';']
    } else if c == '"' {
        seq!['&', '#', '3', '4', ';']
    } else if c == '\'' {
        seq!['&', '#', '3', '9', ';']
    } else {
        seq![c]
    }
}

/// `s` escaped for HTML text and attribute values.
pub open spec fn template_escaped(s: Seq<char>) -> Seq<char>
    decreases s.len(),
{
    if s.len() == 0 {
        seq![]
    } else {
        template_escaped(s.drop_last()) + template_escape_char(s.last())
    }
}

fn push_template_escaped(out: &mut Vec<char>, s: &[char])
    ensures
        final(out)@ == old(out)@ + template_escaped(s@),
{
    let ghost start = out@;
    let mut i: usize = 0;
    while i < s.len()
        invariant
            i <= s@.len(),
            out@ == start + template_escaped(s@.take(i as int)),
        decreases s@.len() - i,
    {
        let c = s[i];
        let piece: Vec<char> = if c == '&' {
            vec!['&', '#', '3', '8', ';']
        } else if c == '<' {
            vec!['&', '#', '6', '0', ';']
        } else if c == '>' {
            vec!['&', '#', '6', '2', ';']
        } else if c == '"' {
            vec!['&', '#', '3', '4', ';']
        } else if c == '\'' {
            vec!['&', '#', '3', '9', ';']
        } else {
            vec![c]
        };
        assert(piece@ == template_escape_char(c));
        extend_chars(out, piece.as_slice());
        assert(s@.take(i + 1).drop_last() == s@.take(i as int));
        i = i + 1;
    }
    assert(s@.take(s@.len() as int) == s@);
}

/// A timestamp as `<span data-ts="VALUE">VALUE</span>`, escaped in both
/// places, for the browser to localise.
pub fn render_date_span(value: &str) -> (r: Result<String, AppError>)
    ensures
        r matches Ok(s) && s@ == "<span data-ts=\""@ + template_escaped(value@) + "\">"@
            + template_escaped(value@) + "</span>"@,
{
    let vc = chars_of(value);
    let mut m: Vec<char> = Vec::new();
    extend_str(&mut m, "<span data-ts=\"");
    push_template_escaped(&mut m, vc.as_slice());
    extend_str(&mut m, "\">");
    push_template_escaped(&mut m, vc.as_slice());
    extend_str(&mut m, "</span>");
    Ok(string_of(m.as_slice()))
}

/// The upper-case form of `c`, as `char::to_uppercase` gives it (one or
/// more characters).
pub uninterp spec fn upper_case_of(c: char) -> Seq<char>;

/// `char::to_uppercase`, collected into a string. Claims only the named
/// result.
#[verifier::external_body]
pub(crate) fn upper_case(c: char) -> (s: String)
    ensures
        s@ == upper_case_of(c),
{
    c.to_uppercase().collect()
}

/// The letter shown in a user's avatar: the first character of the name,
/// upper-cased, or `S` for an empty name.
pub fn avatar_initial(username: &str) -> (r: String)
    ensures
        username@.len() == 0 ==> r@ == "S"@,
        username@.len() > 0 ==> r@ == upper_case_of(username@[0]),
{
    let cs = chars_of(username);
    if cs.len() == 0 {
        "S".to_owned()
    } else {
        upper_case(cs[0])
    }
}

/// The number of pages `total` items fill, `per_page` to a page (at least
/// one page).
pub open spec fn pages_for(total: int, per_page: int) -> int {
    if total == 0 {
        1
    } else {
        (total + per_page - 1) / per_page
    }
}

/// `x` limited to `lo..=hi`.
pub open spec fn clamped(x: int, lo: int, hi: int) -> int {
    if x < lo {
        lo
    } else if x > hi {
        hi
    } else {
        x
    }
}

/// Where a list page stands: its number, size, the total number of items
/// and how many are on this page.
#[derive(Clone, Copy, Debug, PartialEq, Eq, Structural)]
pub struct PaginationState {
    pub page: i64,
    pub per_page: i64,
    pub total: i64,
    pub item_count: i64,
}

impl PaginationState {
    /// A consistent state: at least one item per page, the page among the
    /// existing pages, and no more items than fit on a page.
    pub open spec fn well_formed(&self) -> bool {
        &&& 1 <= self.per_page
        &&& 0 <= self.total
        &&& self.total + self.per_page - 1 <= i64::MAX
        &&& 1 <= self.page <= pages_for(self.total as int, self.per_page as int)
        &&& 0 <= self.item_count <= self.per_page
    }

    /// Index (1-based) of the first item on the page; 0 when it is empty.
    pub open spec fn first_index(&self) -> int {
        if self.total == 0 || self.item_count == 0 {
            0
        } else {
            (self.page - 1) * self.per_page + 1
        }
    }

    /// Index of the last item on the page; 0 when it is empty.
    pub open spec fn last_index(&self) -> int {
        if self.total == 0 || self.item_count == 0 {
            0
        } else {
            let e = self.first_index() + self.item_count - 1;
            if e < self.total {
                e
            } else {
                self.total as int
            }
        }
    }

    /// The state of page `page` of `total` items, `per_page` to a page,
    /// with `item_count` items shown: the page size is at least one, the
    /// total at least zero, the page number limited to the existing pages
    /// and the item count to the page size.
    pub fn new(page: i64, per_page: i64, total: i64, item_count: i64) -> (s: Self)
        requires
            (if total < 0 { 0 } else { total as int }) + (if per_page < 1 { 1 } else { per_page as int }) - 1
                <= i64::MAX,
        ensures
            s.well_formed(),
            s.per_page == if per_page < 1 { 1 } else { per_page },
            s.total == if total < 0 { 0 } else { total },
            s.page == clamped(page as int, 1, pages_for(s.total as int, s.per_page as int)),
            s.item_count == clamped(item_count as int, 0, s.per_page as int),
    {
        let per_page = if per_page < 1 { 1 } else { per_page };
        let total = if total < 0 { 0 } else { total };
        let total_pages = if total == 0 { 1 } else { (total + (per_page - 1)) / per_page };
        proof {
            if total > 0 {
                assert((total + per_page - 1) / (per_page as int) >= 1) by (nonlinear_arith)
                    requires
                        total >= 1,
                        per_page >= 1,
                ;
            }
        }
        let page = if page < 1 { 1 } else if page > total_pages { total_pages } else { page };
        let item_count = if item_count < 0 { 0 } else if item_count > per_page { per_page } else { item_count };
        PaginationState { page, per_page, total, item_count }
    }

    /// The number of pages (at least one).
    pub fn total_pages(&self) -> (n: i64)
        requires
            self.well_formed(),
        ensures
            n == pages_for(self.total as int, self.per_page as int),
    {
        if self.total == 0 {
            1
        } else {
            (self.total + (self.per_page - 1)) / self.per_page
        }
    }

    /// Index (1-based) of the first item on the page; 0 when it is empty.
    pub fn start_index(&self) -> (n: i64)
        requires
            self.well_formed(),
        ensures
            n == self.first_index(),
    {
        if self.total == 0 || self.item_count == 0 {
            0
        } else {
            proof {
                lemma_page_start_within(self.page as int, self.per_page as int, self.total as int);
            }
            (self.page - 1) * self.per_page + 1
        }
    }

    /// Index of the last item on the page, never past the total; 0 when
    /// the page is empty.
    pub fn end_index(&self) -> (n: i64)
        requires
            self.well_formed(),
        ensures
            n == self.last_index(),
    {
        if self.total == 0 || self.item_count == 0 {
            0
        } else {
            proof {
                lemma_page_start_within(self.page as int, self.per_page as int, self.total as int);
            }
            let e = self.start_index() + (self.item_count - 1);
            if e < self.total {
                e
            } else {
                self.total
            }
        }
    }

    /// Whether a page comes before this one.
    pub fn has_previous(&self) -> (b: bool)
        ensures
            b == (self.page > 1),
    {
        self.page > 1
    }

    /// Whether a page comes after this one.
    pub fn has_next(&self) -> (b: bool)
        requires
            self.well_formed(),
        ensures
            b == (self.page < pages_for(self.total as int, self.per_page as int)),
    {
        self.page < self.total_pages()
    }

    /// `"<start>-<end> OF <total>"`.
    pub fn summary_label(&self) -> (s: String)
        requires
            self.well_formed(),
        ensures
            s@ == dec_int(self.first_index()) + seq!['-'] + dec_int(self.last_index()) + " OF "@
                + dec_int(self.total as int),
    {
        let mut m: Vec<char> = Vec::new();
        push_dec_i64(&mut m, self.start_index());
        m.push('-');
        push_dec_i64(&mut m, self.end_index());
        extend_str(&mut m, " OF ");
        push_dec_i64(&mut m, self.total);
        string_of(m.as_slice())
    }
}

proof fn lemma_page_start_within(page: int, per_page: int, total: int)
    requires
        1 <= per_page,
        1 <= total,
        1 <= page <= (total + per_page - 1) / per_page,
    ensures
        0 <= (page - 1) * per_page < total,
{
    assert((page - 1) * per_page < total) by (nonlinear_arith)
        requires
            1 <= per_page,
            1 <= total,
            1 <= page,
            page <= (total + per_page - 1) / per_page,
    ;
    assert(0 <= (page - 1) * per_page) by (nonlinear_arith)
        requires
            1 <= per_page,
            1 <= page,
    ;
}

/// On a consistent page, the shown items lie within the total, the first
/// before or at the last; an empty page shows none.
pub proof fn pagination_indices_within_total(s: PaginationState)
    requires
        s.well_formed(),
    ensures
        0 <= s.first_index() <= s.last_index() <= s.total,
        s.first_index() == 0 <==> s.last_index() == 0,
        s.first_index() == 0 <==> (s.total == 0 || s.item_count == 0),
{
    if s.total > 0 && s.item_count > 0 {
        lemma_page_start_within(s.page as int, s.per_page as int, s.total as int);
    }
}

} // verus!
