//! Text that the screen shows, computed from the state.
use vstd::prelude::*;
use vstd::utf8::encode_utf8;

use crate::app::{tree, verse_count, App, AppView, Mode, TreeItem, TreeItemView, flags_cover};
use crate::text::{decimal, decimal_string, string_of, to_uppercase, uppercase};

verus! {

/// How many characters of a verse a search hit shows.
pub open spec fn preview_chars() -> int {
    40
}

/// The text shown for a search hit: a verse longer than 40 bytes (in UTF-8)
/// is cut to its first 40 characters and followed by `...`.
pub open spec fn preview(t: Seq<char>) -> Seq<char> {
    if encode_utf8(t).len() > preview_chars() {
        t.take(if t.len() < preview_chars() { t.len() as int } else { preview_chars() }) + "..."@
    } else {
        t
    }
}

/// The text shown for a search hit.
pub fn verse_preview(text: &str) -> (r: String)
    ensures
        r@ == preview(text@),
{
    let bytes = text.as_bytes().len();
    if bytes > 40 {
        let n = text.unicode_len();
        let k = if n < 40 { n } else { 40 };
        let head = text.substring_char(0, k);
        let mut r = head.to_owned();
        r.append("...");
        r
    } else {
        text.to_owned()
    }
}

/// The name of a mode on the status bar.
pub open spec fn mode_name(m: Mode) -> Seq<char> {
    match m {
        Mode::Menu => "MENU"@,
        Mode::Normal => "NORMAL"@,
        Mode::Search => "SEARCH"@,
    }
}

/// The name of a mode on the status bar.
pub fn mode_label(m: Mode) -> (r: &'static str)
    ensures
        r@ == mode_name(m),
{
    match m {
        Mode::Menu => "MENU",
        Mode::Normal => "NORMAL",
        Mode::Search => "SEARCH",
    }
}

/// The message the search box shows in place of hits: none while there are
/// hits; a prompt while the query is empty; otherwise that nothing was found.
pub fn search_message(app: &App) -> (m: Option<&'static str>)
    ensures
        m is Some <==> app.search_results@.len() == 0,
        m is Some ==> m->0@ == if app.search_query@.len() == 0 {
            "Type to search all verses..."@
        } else {
            "No results found"@
        },
{
    if app.search_results.len() == 0 {
        if app.search_query.as_str().is_empty() {
            Some("Type to search all verses...")
        } else {
            Some("No results found")
        }
    } else {
        None
    }
}

/// The head line of the hits: how many there are.
pub fn result_count_header(n: usize) -> (h: String)
    ensures
        h@ == " "@ + decimal(n as nat) + " result(s) "@,
{
    let mut h = String::new();
    h.append(" ");
    let digits = decimal_string(n as u64);
    h.append(digits.as_str());
    h.append(" result(s) ");
    h
}

/// One hit as the search box lists it.
pub struct SearchRow {
    /// `" Book  chapter:verse "`, by the chapter's and the verse's numbers.
    pub reference: String,
    pub preview: String,
    /// The row is under the cursor.
    pub selected: bool,
}

/// A hit as a mathematical value.
pub struct SearchRowView {
    pub reference: Seq<char>,
    pub preview: Seq<char>,
    pub selected: bool,
}

impl View for SearchRow {
    type V = SearchRowView;

    open spec fn view(&self) -> SearchRowView {
        SearchRowView { reference: self.reference@, preview: self.preview@, selected: self.selected }
    }
}

/// The reference of a verse: `" Book  chapter:verse "`.
pub open spec fn reference_text(name: Seq<char>, chapter: u32, verse: u32) -> Seq<char> {
    " "@ + name + "  "@ + decimal(chapter as nat) + ":"@ + decimal(verse as nat) + " "@
}

/// The rows for the first `k` search results: each result that names an
/// existing verse gives a row, marked when it is under the cursor.
pub open spec fn search_rows_upto(s: AppView, k: int) -> Seq<SearchRowView>
    decreases k,
{
    if k <= 0 {
        Seq::empty()
    } else {
        let t = s.search_results[k - 1];
        search_rows_upto(s, k - 1) + match verse_count(s.books, t.0 as int, t.1 as int) {
            Some(n) => if (t.2 as int) < n {
                let c = s.books[t.0 as int].chapters@[t.1 as int];
                let v = c.verses@[t.2 as int];
                seq![
                    SearchRowView {
                        reference: reference_text(s.books[t.0 as int].name@, c.number, v.number),
                        preview: preview(v.text@),
                        selected: k - 1 == s.search_cursor,
                    },
                ]
            } else {
                Seq::empty()
            },
            None => Seq::empty(),
        }
    }
}

/// The rows of the search box.
pub open spec fn search_rows_spec(s: AppView) -> Seq<SearchRowView> {
    search_rows_upto(s, s.search_results.len() as int)
}

/// The rows of the search box, in the order of the results.
pub fn search_rows(app: &App) -> (rows: Vec<SearchRow>)
    ensures
        rows@.map_values(|r: SearchRow| r@) == search_rows_spec(app@),
{
    let mut rows: Vec<SearchRow> = Vec::new();
    let mut i: usize = 0;
    while i < app.search_results.len()
        invariant
            i <= app.search_results@.len(),
            rows@.map_values(|r: SearchRow| r@) == search_rows_upto(app@, i as int),
        decreases app.search_results@.len() - i,
    {
        let (bi, ci, vi) = app.search_results[i];
        let ghost before = rows@;
        if bi < app.books.len() {
            let book = &app.books[bi];
            if ci < book.chapters.len() {
                let chapter = &book.chapters[ci];
                if vi < chapter.verses.len() {
                    let verse = &chapter.verses[vi];
                    let mut reference = String::new();
                    reference.append(" ");
                    reference.append(book.name.as_str());
                    reference.append("  ");
                    let cn = decimal_string(chapter.number as u64);
                    reference.append(cn.as_str());
                    reference.append(":");
                    let vn = decimal_string(verse.number as u64);
                    reference.append(vn.as_str());
                    reference.append(" ");
                    let row = SearchRow {
                        reference,
                        preview: verse_preview(verse.text.as_str()),
                        selected: i == app.search_cursor,
                    };
                    rows.push(row);
                    assert(rows@.map_values(|r: SearchRow| r@) =~= before.map_values(
                        |r: SearchRow| r@,
                    ).push(rows@.last()@));
                }
            }
        }
        assert(rows@.map_values(|r: SearchRow| r@) =~= search_rows_upto(app@, i + 1));
        i += 1;
    }
    rows
}

/// One row of the book tree as the tree pane shows it.
pub enum TreeRowText {
    /// `"  OLD TESTAMENT"`: the testament's name in upper case.
    Heading { text: String },
    /// `" \u{25bc} "` (unfolded) or `" \u{25b6} "`, the book's name, and
    /// `" n"`, its number of chapters; `long_name` where the name is longer
    /// than five bytes.
    Book { arrow: String, name: String, count: String, long_name: bool, selected: bool },
    /// `"   \u{2502} "` (a chapter follows) or `"   \u{2514} "` (the last
    /// chapter), and `"Ch n"`; `open` where it is the chapter in the reader.
    Chapter { connector: String, label: String, selected: bool, open: bool },
}

/// A row of the tree pane as a mathematical value.
pub enum TreeRowView {
    Heading { text: Seq<char> },
    Book { arrow: Seq<char>, name: Seq<char>, count: Seq<char>, long_name: bool, selected: bool },
    Chapter { connector: Seq<char>, label: Seq<char>, selected: bool, open: bool },
}

impl View for TreeRowText {
    type V = TreeRowView;

    open spec fn view(&self) -> TreeRowView {
        match self {
            TreeRowText::Heading { text } => TreeRowView::Heading { text: text@ },
            TreeRowText::Book { arrow, name, count, long_name, selected } => TreeRowView::Book {
                arrow: arrow@,
                name: name@,
                count: count@,
                long_name: *long_name,
                selected: *selected,
            },
            TreeRowText::Chapter { connector, label, selected, open } => TreeRowView::Chapter {
                connector: connector@,
                label: label@,
                selected: *selected,
                open: *open,
            },
        }
    }
}

/// How row `r` of the tree of state `s` is shown.
pub open spec fn row_text(s: AppView, r: int) -> TreeRowView {
    match tree(s)[r] {
        TreeItemView::Testament(name) => TreeRowView::Heading { text: "  "@ + uppercase(name) },
        TreeItemView::Book { book_idx, expanded } => {
            let b = s.books[book_idx as int];
            TreeRowView::Book {
                arrow: if expanded {
                    " \u{25bc} "@
                } else {
                    " \u{25b6} "@
                },
                name: b.name@,
                count: " "@ + decimal(b.chapters@.len()),
                long_name: encode_utf8(b.name@).len() > 5,
                selected: r == s.tree_selected,
            }
        },
        TreeItemView::Chapter { book_idx, chapter_idx } => {
            let b = s.books[book_idx as int];
            TreeRowView::Chapter {
                connector: if chapter_idx + 1 < b.chapters@.len() {
                    "   \u{2502} "@
                } else {
                    "   \u{2514} "@
                },
                label: "Ch "@ + decimal(b.chapters@[chapter_idx as int].number as nat),
                selected: r == s.tree_selected,
                open: book_idx == s.selected_book && chapter_idx == s.selected_chapter,
            }
        },
    }
}

/// The rows of the tree pane, one for each row of the book tree.
pub fn tree_row_texts(app: &App) -> (rows: Vec<TreeRowText>)
    requires
        flags_cover(app@),
    ensures
        rows@.len() == tree(app@).len(),
        forall|i: int| 0 <= i < rows@.len() ==> #[trigger] rows@[i]@ == row_text(app@, i),
{
    let items = app.flat_tree();
    let nb = app.books.len();
    proof {
        crate::app::law_tree_rows_in_range(app.books@, app.expanded_books@, app.books@.len() as int);
    }
    let mut rows: Vec<TreeRowText> = Vec::new();
    let mut idx: usize = 0;
    while idx < items.len()
        invariant
            nb == app.books@.len(),
            idx <= items@.len(),
            crate::app::items_view(items@) == tree(app@),
            forall|r: int|
                0 <= r < tree(app@).len() ==> #[trigger] crate::app::row_in_range(
                    app.books@,
                    tree(app@)[r],
                ),
            rows@.len() == idx,
            forall|i: int| 0 <= i < idx ==> #[trigger] rows@[i]@ == row_text(app@, i),
        decreases items@.len() - idx,
    {
        assert(items@[idx as int]@ == tree(app@)[idx as int]);
        assert(crate::app::row_in_range(app.books@, tree(app@)[idx as int]));
        let row = match &items[idx] {
            TreeItem::Testament(name) => {
                let upper = to_uppercase(name.as_str());
                let mut text = String::new();
                text.append("  ");
                text.append(upper.as_str());
                TreeRowText::Heading { text }
            },
            TreeItem::Book { book_idx, expanded } => {
                let book = &app.books[*book_idx];
                let arrow = if *expanded {
                    " \u{25bc} ".to_owned()
                } else {
                    " \u{25b6} ".to_owned()
                };
                let mut count = String::new();
                count.append(" ");
                let digits = decimal_string(book.chapters.len() as u64);
                count.append(digits.as_str());
                TreeRowText::Book {
                    arrow,
                    name: book.name.clone(),
                    count,
                    long_name: book.name.as_str().as_bytes().len() > 5,
                    selected: idx == app.tree_selected,
                }
            },
            TreeItem::Chapter { book_idx, chapter_idx } => {
                let book = &app.books[*book_idx];
                let n = book.chapters.len();
                let connector = if *chapter_idx + 1 < n {
                    "   \u{2502} ".to_owned()
                } else {
                    "   \u{2514} ".to_owned()
                };
                let mut label = String::new();
                label.append("Ch ");
                let digits = decimal_string(book.chapters[*chapter_idx].number as u64);
                label.append(digits.as_str());
                TreeRowText::Chapter {
                    connector,
                    label,
                    selected: idx == app.tree_selected,
                    open: *book_idx == app.selected_book && *chapter_idx == app.selected_chapter,
                }
            },
        };
        rows.push(row);
        idx += 1;
    }
    rows
}

/// One line of the open chapter as the reader shows it: a verse (its
/// number, right-aligned in three places and followed by a space, and its
/// text) or the blank line after a verse.
pub enum ReaderLine {
    Verse { number: String, text: String, selected: bool },
    Blank,
}

/// A line of the reader as a mathematical value.
pub enum ReaderLineView {
    Verse { number: Seq<char>, text: Seq<char>, selected: bool },
    Blank,
}

impl View for ReaderLine {
    type V = ReaderLineView;

    open spec fn view(&self) -> ReaderLineView {
        match self {
            ReaderLine::Verse { number, text, selected } => ReaderLineView::Verse {
                number: number@,
                text: text@,
                selected: *selected,
            },
            ReaderLine::Blank => ReaderLineView::Blank,
        }
    }
}

/// What the reader pane shows of the open chapter.
pub struct ReaderText {
    /// `" Book \u{2014} Chapter n "`.
    pub title: String,
    /// `"Book, Chapter n"`.
    pub heading: String,
    /// The lines that fit, from the scroll position on.
    pub lines: Vec<ReaderLine>,
}

/// `s` right-aligned in three places (`{:>3}`).
pub open spec fn pad3(s: Seq<char>) -> Seq<char> {
    if s.len() >= 3 {
        s
    } else {
        Seq::new((3 - s.len()) as nat, |i: int| ' ') + s
    }
}

/// The lines of the first `k` verses: each verse line, marked when it is the
/// selected verse, followed by a blank line.
pub open spec fn chapter_lines(verses: Seq<crate::bible::Verse>, selected: int, k: int) -> Seq<ReaderLineView>
    decreases k,
{
    if k <= 0 {
        Seq::empty()
    } else {
        chapter_lines(verses, selected, k - 1) + seq![
            ReaderLineView::Verse {
                number: pad3(decimal(verses[k - 1].number as nat)) + " "@,
                text: verses[k - 1].text@,
                selected: k - 1 == selected,
            },
            ReaderLineView::Blank,
        ]
    }
}

/// The smaller of two numbers.
pub open spec fn min(a: int, b: int) -> int {
    if a < b {
        a
    } else {
        b
    }
}

/// The lines shown: from line `skip` on, at most `height` of them.
pub open spec fn window_of(lines: Seq<ReaderLineView>, skip: int, height: int) -> Seq<ReaderLineView> {
    lines.subrange(min(skip, lines.len() as int), min(skip + height, lines.len() as int))
}

/// The title of the reader pane.
pub open spec fn reader_title(name: Seq<char>, chapter: u32) -> Seq<char> {
    " "@ + name + " \u{2014} Chapter "@ + decimal(chapter as nat) + " "@
}

/// The heading above the verses.
pub open spec fn reader_heading(name: Seq<char>, chapter: u32) -> Seq<char> {
    name + ", Chapter "@ + decimal(chapter as nat)
}

/// The verse number as the reader shows it.
fn verse_number_text(n: u32) -> (r: String)
    ensures
        r@ == pad3(decimal(n as nat)) + " "@,
{
    let digits = decimal_string(n as u64);
    let mut r = String::new();
    if n < 10 {
        r.append("  ");
    } else if n < 100 {
        r.append(" ");
    }
    proof {
        lemma_decimal_len(n as nat);
        reveal_strlit("  ");
        reveal_strlit(" ");
    }
    let ghost start = r@;
    r.append(digits.as_str());
    r.append(" ");
    proof {
        let d = decimal(n as nat);
        if d.len() < 3 {
            assert(start =~= Seq::new((3 - d.len()) as nat, |i: int| ' '));
        } else {
            assert(start =~= Seq::<char>::empty());
        }
    }
    assert(r@ =~= pad3(decimal(n as nat)) + " "@);
    r
}

/// A number below ten takes one digit, below a hundred two, else at least
/// three.
proof fn lemma_decimal_len(n: nat)
    ensures
        n < 10 ==> decimal(n).len() == 1,
        10 <= n < 100 ==> decimal(n).len() == 2,
        n >= 100 ==> decimal(n).len() >= 3,
    decreases n,
{
    if n >= 10 {
        lemma_decimal_len(n / 10);
    }
}

/// What the reader pane shows for a pane `height` lines high: nothing where
/// the open chapter does not exist; otherwise the title, the heading, and
/// the chapter's lines from twice the scroll position on.
pub fn reader_text(app: &App, height: usize) -> (r: Option<ReaderText>)
    ensures
        r is None <==> verse_count(app.books@, app.selected_book as int, app.selected_chapter as int) is None,
        r matches Some(t) ==> {
            let book = app.books@[app.selected_book as int];
            let chapter = book.chapters@[app.selected_chapter as int];
            &&& t.title@ == reader_title(book.name@, chapter.number)
            &&& t.heading@ == reader_heading(book.name@, chapter.number)
            &&& t.lines@.map_values(|l: ReaderLine| l@) == window_of(
                chapter_lines(chapter.verses@, app.selected_verse as int, chapter.verses@.len() as int),
                2 * app.scroll_offset,
                height as int,
            )
        },
{
    if app.selected_book >= app.books.len() {
        return None;
    }
    let book = &app.books[app.selected_book];
    if app.selected_chapter >= book.chapters.len() {
        return None;
    }
    let chapter = &book.chapters[app.selected_chapter];
    let number = decimal_string(chapter.number as u64);
    let mut title = String::new();
    title.append(" ");
    title.append(book.name.as_str());
    title.append(" \u{2014} Chapter ");
    title.append(number.as_str());
    title.append(" ");
    let mut heading = String::new();
    heading.append(book.name.as_str());
    heading.append(", Chapter ");
    heading.append(number.as_str());
    let ghost all = chapter_lines(chapter.verses@, app.selected_verse as int, chapter.verses@.len() as int);
    let skip: u128 = 2 * (app.scroll_offset as u128);
    let end: u128 = skip + height as u128;
    let mut lines: Vec<ReaderLine> = Vec::new();
    let mut vi: usize = 0;
    while vi < chapter.verses.len()
        invariant
            vi <= chapter.verses@.len(),
            skip == 2 * app.scroll_offset,
            end == skip + height,
            lines@.map_values(|l: ReaderLine| l@) == window_of(
                chapter_lines(chapter.verses@, app.selected_verse as int, vi as int),
                skip as int,
                height as int,
            ),
        decreases chapter.verses@.len() - vi,
    {
        let ghost prev = chapter_lines(chapter.verses@, app.selected_verse as int, vi as int);
        let ghost next = chapter_lines(chapter.verses@, app.selected_verse as int, vi + 1);
        proof {
            lemma_chapter_lines_len(chapter.verses@, app.selected_verse as int, vi as int);
        }
        let ghost shown = lines@.map_values(|l: ReaderLine| l@);
        let at: u128 = 2 * (vi as u128);
        let verse = &chapter.verses[vi];
        if skip <= at && at < end {
            let line = ReaderLine::Verse {
                number: verse_number_text(verse.number),
                text: verse.text.clone(),
                selected: vi == app.selected_verse,
            };
            lines.push(line);
        }
        if skip <= at + 1 && at + 1 < end {
            lines.push(ReaderLine::Blank);
        }
        proof {
            let a = ReaderLineView::Verse {
                number: pad3(decimal(verse.number as nat)) + " "@,
                text: verse.text@,
                selected: vi == app.selected_verse,
            };
            let mid = prev.push(a);
            assert(next =~= mid.push(ReaderLineView::Blank));
            lemma_window_push(prev, a, skip as int, height as int);
            lemma_window_push(mid, ReaderLineView::Blank, skip as int, height as int);
        }
        assert(lines@.map_values(|l: ReaderLine| l@) =~= window_of(next, skip as int, height as int));
        vi += 1;
    }
    Some(ReaderText { title, heading, lines })
}

/// One more line shows in the window exactly when its place is in the window.
proof fn lemma_window_push(lines: Seq<ReaderLineView>, x: ReaderLineView, skip: int, height: int)
    requires
        skip >= 0,
        height >= 0,
    ensures
        window_of(lines.push(x), skip, height) == window_of(lines, skip, height) + if skip
            <= lines.len() < skip + height {
            seq![x]
        } else {
            Seq::empty()
        },
{
    let n = lines.len() as int;
    let w = window_of(lines, skip, height);
    let w2 = window_of(lines.push(x), skip, height);
    if skip <= n && n < skip + height {
        assert(w2 =~= w.push(x));
    } else {
        assert(w2 =~= w);
    }
}

/// The lines of `k` verses are twice as many.
proof fn lemma_chapter_lines_len(verses: Seq<crate::bible::Verse>, selected: int, k: int)
    requires
        k >= 0,
    ensures
        chapter_lines(verses, selected, k).len() == 2 * k,
    decreases k,
{
    if k > 0 {
        lemma_chapter_lines_len(verses, selected, k - 1);
    }
}

} // verus!
