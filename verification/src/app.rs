//! The reader's state: the book tree, the reading position, the search, and
//! how each key changes them.
use vstd::prelude::*;

use crate::bible::{Book, Chapter, Testament};
use crate::text::{
    chars_of, contains_chars, contains_seq, lowercase, pop_char, push_char, to_lowercase,
};

verus! {

/// The pane that has the focus.
#[derive(Debug, Clone, Copy, PartialEq, Eq, Structural)]
pub enum Pane {
    Tree,
    Reader,
}

/// What the keys do at the moment.
#[derive(Debug, Clone, Copy, PartialEq, Eq, Structural)]
pub enum Mode {
    Menu,
    Normal,
    Search,
}

/// The whole state of the reader.
pub struct App {
    pub books: Vec<Book>,
    pub active_pane: Pane,
    pub mode: Mode,
    // Tree state
    pub tree_selected: usize,
    pub expanded_books: Vec<bool>,
    // Reader state
    pub selected_book: usize,
    pub selected_chapter: usize,
    pub selected_verse: usize,
    pub scroll_offset: usize,
    // Search
    pub search_query: String,
    /// (book index, chapter index, verse index) of each hit.
    pub search_results: Vec<(usize, usize, usize)>,
    pub search_cursor: usize,
    pub search_navigating: bool,
    pub should_quit: bool,
    pub search_origin: Mode,
}

/// One row of the book tree.
#[derive(Debug, Clone)]
pub enum TreeItem {
    Testament(String),
    Book { book_idx: usize, expanded: bool },
    Chapter { book_idx: usize, chapter_idx: usize },
}

/// A row of the book tree as a mathematical value.
pub enum TreeItemView {
    Testament(Seq<char>),
    Book { book_idx: usize, expanded: bool },
    Chapter { book_idx: usize, chapter_idx: usize },
}

impl View for TreeItem {
    type V = TreeItemView;

    open spec fn view(&self) -> TreeItemView {
        match self {
            TreeItem::Testament(s) => TreeItemView::Testament(s@),
            TreeItem::Book { book_idx, expanded } => TreeItemView::Book {
                book_idx: *book_idx,
                expanded: *expanded,
            },
            TreeItem::Chapter { book_idx, chapter_idx } => TreeItemView::Chapter {
                book_idx: *book_idx,
                chapter_idx: *chapter_idx,
            },
        }
    }
}

/// The views of a sequence of tree rows.
pub open spec fn items_view(v: Seq<TreeItem>) -> Seq<TreeItemView> {
    v.map_values(|x: TreeItem| x@)
}

/// The state of the reader as a mathematical value.
#[verifier::ext_equal]
pub struct AppView {
    pub books: Seq<Book>,
    pub active_pane: Pane,
    pub mode: Mode,
    pub tree_selected: usize,
    pub expanded_books: Seq<bool>,
    pub selected_book: usize,
    pub selected_chapter: usize,
    pub selected_verse: usize,
    pub scroll_offset: usize,
    pub search_query: Seq<char>,
    pub search_results: Seq<(usize, usize, usize)>,
    pub search_cursor: usize,
    pub search_navigating: bool,
    pub should_quit: bool,
    pub search_origin: Mode,
}

impl View for App {
    type V = AppView;

    open spec fn view(&self) -> AppView {
        AppView {
            books: self.books@,
            active_pane: self.active_pane,
            mode: self.mode,
            tree_selected: self.tree_selected,
            expanded_books: self.expanded_books@,
            selected_book: self.selected_book,
            selected_chapter: self.selected_chapter,
            selected_verse: self.selected_verse,
            scroll_offset: self.scroll_offset,
            search_query: self.search_query@,
            search_results: self.search_results@,
            search_cursor: self.search_cursor,
            search_navigating: self.search_navigating,
            should_quit: self.should_quit,
            search_origin: self.search_origin,
        }
    }
}

// ---------------------------------------------------------------------------
// The book tree
// ---------------------------------------------------------------------------

/// The heading row of a testament.
pub open spec fn testament_label(t: Testament) -> Seq<char> {
    if t == Testament::Old {
        "Old Testament"@
    } else {
        "New Testament"@
    }
}

/// The rows of book `i`: a testament heading where the testament changes,
/// the book row, and the chapter rows when the book is expanded.
pub open spec fn book_rows(books: Seq<Book>, expanded: Seq<bool>, i: int) -> Seq<TreeItemView> {
    let heading = if i == 0 || books[i - 1].testament != books[i].testament {
        seq![TreeItemView::Testament(testament_label(books[i].testament))]
    } else {
        Seq::empty()
    };
    let chapters = if expanded[i] {
        Seq::new(
            books[i].chapters@.len(),
            |c: int| TreeItemView::Chapter { book_idx: i as usize, chapter_idx: c as usize },
        )
    } else {
        Seq::empty()
    };
    heading + seq![TreeItemView::Book { book_idx: i as usize, expanded: expanded[i] }] + chapters
}

/// The rows of the first `k` books.
pub open spec fn tree_rows(books: Seq<Book>, expanded: Seq<bool>, k: int) -> Seq<TreeItemView>
    decreases k,
{
    if k <= 0 {
        Seq::empty()
    } else {
        tree_rows(books, expanded, k - 1) + book_rows(books, expanded, k - 1)
    }
}

/// The visible rows of the book tree.
pub open spec fn tree_of(books: Seq<Book>, expanded: Seq<bool>) -> Seq<TreeItemView> {
    tree_rows(books, expanded, books.len() as int)
}

/// The book tree of state `s`.
pub open spec fn tree(s: AppView) -> Seq<TreeItemView> {
    tree_of(s.books, s.expanded_books)
}

/// Every count of books, chapters and verses fits in a `usize`, as the
/// lengths of vectors do.
pub open spec fn sizes_fit(books: Seq<Book>) -> bool {
    &&& books.len() <= usize::MAX
    &&& forall|b: int| 0 <= b < books.len() ==> #[trigger] books[b].chapters@.len() <= usize::MAX
    &&& forall|b: int, c: int|
        0 <= b < books.len() && 0 <= c < books[b].chapters@.len()
            ==> #[trigger] books[b].chapters@[c].verses@.len() <= usize::MAX
}

/// Every book has its expansion flag.
pub open spec fn flags_cover(s: AppView) -> bool {
    s.expanded_books.len() >= s.books.len()
}

// ---------------------------------------------------------------------------
// The state changes, as functions of the state
// ---------------------------------------------------------------------------

/// Moves the tree selection one row down, unless it is on the last row.
pub open spec fn tree_down_spec(s: AppView) -> AppView {
    if s.tree_selected + 1 < tree(s).len() {
        AppView { tree_selected: (s.tree_selected + 1) as usize, ..s }
    } else {
        s
    }
}

/// Moves the tree selection one row up, unless it is on the first row.
pub open spec fn tree_up_spec(s: AppView) -> AppView {
    if s.tree_selected > 0 {
        AppView { tree_selected: (s.tree_selected - 1) as usize, ..s }
    } else {
        s
    }
}

/// Acts on the selected row: a book row folds or unfolds the book, a chapter
/// row opens the chapter in the reader.
pub open spec fn tree_enter_spec(s: AppView) -> AppView {
    if s.tree_selected < tree(s).len() {
        match tree(s)[s.tree_selected as int] {
            TreeItemView::Book { book_idx, .. } => AppView {
                expanded_books: s.expanded_books.update(
                    book_idx as int,
                    !s.expanded_books[book_idx as int],
                ),
                ..s
            },
            TreeItemView::Chapter { book_idx, chapter_idx } => AppView {
                selected_book: book_idx,
                selected_chapter: chapter_idx,
                selected_verse: 0,
                scroll_offset: 0,
                active_pane: Pane::Reader,
                ..s
            },
            TreeItemView::Testament(_) => s,
        }
    } else {
        s
    }
}

/// The number of verses of chapter `c` of book `b`, where both exist.
pub open spec fn verse_count(books: Seq<Book>, b: int, c: int) -> Option<int> {
    if 0 <= b < books.len() && 0 <= c < books[b].chapters@.len() {
        Some(books[b].chapters@[c].verses@.len() as int)
    } else {
        None
    }
}

/// How far past the scroll position the selected verse may move before the
/// reader scrolls (the scroll window; what fits on screen depends on the
/// terminal's height).
pub open spec fn window() -> int {
    10
}

/// Moves to the next verse of the open chapter, scrolling when it would
/// leave the scroll window.
pub open spec fn reader_down_spec(s: AppView) -> AppView {
    match verse_count(s.books, s.selected_book as int, s.selected_chapter as int) {
        Some(n) => if s.selected_verse + 1 < n {
            let v = s.selected_verse + 1;
            AppView {
                selected_verse: v as usize,
                scroll_offset: if v >= s.scroll_offset + window() {
                    (s.scroll_offset + 1) as usize
                } else {
                    s.scroll_offset
                },
                ..s
            }
        } else {
            s
        },
        None => s,
    }
}

/// Moves to the previous verse, scrolling back when it would go above the
/// scroll position.
pub open spec fn reader_up_spec(s: AppView) -> AppView {
    if s.selected_verse > 0 {
        let v = (s.selected_verse - 1) as usize;
        AppView {
            selected_verse: v,
            scroll_offset: if v < s.scroll_offset {
                v
            } else {
                s.scroll_offset
            },
            ..s
        }
    } else {
        s
    }
}

/// Opens the next chapter, or the first chapter of the next book.
pub open spec fn next_chapter_spec(s: AppView) -> AppView {
    if s.selected_book < s.books.len() {
        if s.selected_chapter + 1 < s.books[s.selected_book as int].chapters@.len() {
            AppView {
                selected_chapter: (s.selected_chapter + 1) as usize,
                selected_verse: 0,
                scroll_offset: 0,
                ..s
            }
        } else if s.selected_book + 1 < s.books.len() {
            AppView {
                selected_book: (s.selected_book + 1) as usize,
                selected_chapter: 0,
                selected_verse: 0,
                scroll_offset: 0,
                ..s
            }
        } else {
            s
        }
    } else {
        s
    }
}

/// Opens the previous chapter, or the last chapter of the previous book.
pub open spec fn prev_chapter_spec(s: AppView) -> AppView {
    if s.selected_chapter > 0 {
        AppView {
            selected_chapter: (s.selected_chapter - 1) as usize,
            selected_verse: 0,
            scroll_offset: 0,
            ..s
        }
    } else if s.selected_book > 0 {
        let b = s.selected_book - 1;
        AppView {
            selected_book: b as usize,
            selected_chapter: if b < s.books.len() {
                let n = s.books[b].chapters@.len();
                if n > 0 {
                    (n - 1) as usize
                } else {
                    0
                }
            } else {
                s.selected_chapter
            },
            selected_verse: 0,
            scroll_offset: 0,
            ..s
        }
    } else {
        s
    }
}

/// The hits among the first `k` verses of chapter `ci` of book `bi`.
pub open spec fn verse_hits(verses: Seq<crate::bible::Verse>, bi: int, ci: int, q: Seq<char>, k: int) -> Seq<
    (usize, usize, usize),
>
    decreases k,
{
    if k <= 0 {
        Seq::empty()
    } else {
        verse_hits(verses, bi, ci, q, k - 1) + if contains_seq(lowercase(verses[k - 1].text@), q) {
            seq![(bi as usize, ci as usize, (k - 1) as usize)]
        } else {
            Seq::empty()
        }
    }
}

/// The hits among the first `k` chapters of book `bi`.
pub open spec fn chapter_hits(chapters: Seq<Chapter>, bi: int, q: Seq<char>, k: int) -> Seq<
    (usize, usize, usize),
>
    decreases k,
{
    if k <= 0 {
        Seq::empty()
    } else {
        chapter_hits(chapters, bi, q, k - 1) + verse_hits(
            chapters[k - 1].verses@,
            bi,
            k - 1,
            q,
            chapters[k - 1].verses@.len() as int,
        )
    }
}

/// The hits among the first `k` books.
pub open spec fn book_hits(books: Seq<Book>, q: Seq<char>, k: int) -> Seq<(usize, usize, usize)>
    decreases k,
{
    if k <= 0 {
        Seq::empty()
    } else {
        book_hits(books, q, k - 1) + chapter_hits(
            books[k - 1].chapters@,
            k - 1,
            q,
            books[k - 1].chapters@.len() as int,
        )
    }
}

/// Every verse whose lower-cased text holds `q`, in reading order.
pub open spec fn search_hits(books: Seq<Book>, q: Seq<char>) -> Seq<(usize, usize, usize)> {
    book_hits(books, q, books.len() as int)
}

/// Runs the search for the query: no hits for an empty (lower-cased)
/// query, and the cursor goes back to the first hit.
pub open spec fn search_spec(s: AppView) -> AppView {
    let q = lowercase(s.search_query);
    AppView {
        search_results: if q.len() == 0 {
            Seq::empty()
        } else {
            search_hits(s.books, q)
        },
        search_cursor: 0,
        ..s
    }
}

/// `n - k`, or 0 where `k` is larger.
pub open spec fn saturating_sub(n: int, k: int) -> int {
    if n >= k {
        n - k
    } else {
        0
    }
}

/// Opens the hit under the cursor in the reader.
pub open spec fn jump_spec(s: AppView) -> AppView {
    if s.search_cursor < s.search_results.len() {
        let hit = s.search_results[s.search_cursor as int];
        AppView {
            selected_book: hit.0,
            selected_chapter: hit.1,
            selected_verse: hit.2,
            scroll_offset: saturating_sub(hit.2 as int, 4) as usize,
            active_pane: Pane::Reader,
            mode: Mode::Normal,
            ..s
        }
    } else {
        s
    }
}

/// The state in which `books` is opened: the menu, with every book folded.
pub open spec fn initial_state(books: Seq<Book>) -> AppView {
    AppView {
        books,
        active_pane: Pane::Tree,
        mode: Mode::Menu,
        tree_selected: 1,
        expanded_books: Seq::new(books.len(), |i: int| false),
        selected_book: 0,
        selected_chapter: 0,
        selected_verse: 0,
        scroll_offset: 0,
        search_query: Seq::empty(),
        search_results: Seq::empty(),
        search_cursor: 0,
        search_navigating: false,
        should_quit: false,
        search_origin: Mode::Menu,
    }
}

impl App {
    /// A reader over `books`, on the menu, with the first book row selected.
    pub fn new(books: Vec<Book>) -> (app: App)
        ensures
            app@ == initial_state(books@),
    {
        let count = books.len();
        let app = App {
            books,
            active_pane: Pane::Tree,
            mode: Mode::Menu,
            tree_selected: 1,
            expanded_books: vec![false; count],
            selected_book: 0,
            selected_chapter: 0,
            selected_verse: 0,
            scroll_offset: 0,
            search_query: String::new(),
            search_navigating: false,
            search_results: Vec::new(),
            search_cursor: 0,
            search_origin: Mode::Menu,
            should_quit: false,
        };
        assert(app@.expanded_books =~= Seq::new(count as nat, |i: int| false));
        app
    }

    /// The visible rows of the book tree: a heading where the testament
    /// changes, each book, and the chapters of each expanded book.
    pub fn flat_tree(&self) -> (items: Vec<TreeItem>)
        requires
            flags_cover(self@),
        ensures
            items_view(items@) == tree(self@),
    {
        let mut items: Vec<TreeItem> = Vec::new();
        let mut last_testament: Option<Testament> = None;
        let n = self.books.len();
        let mut book_idx: usize = 0;
        while book_idx < n
            invariant
                n == self.books@.len(),
                flags_cover(self@),
                book_idx <= n,
                items_view(items@) == tree_rows(self.books@, self.expanded_books@, book_idx as int),
                last_testament == (if book_idx == 0 {
                    None
                } else {
                    Some(self.books@[book_idx - 1].testament)
                }),
            decreases n - book_idx,
        {
            let book = &self.books[book_idx];
            let t = book.testament;
            let ghost start = items_view(items@);
            let new_heading = match last_testament {
                Some(l) => l != t,
                None => true,
            };
            if new_heading {
                let label = if t == Testament::Old {
                    "Old Testament".to_owned()
                } else {
                    "New Testament".to_owned()
                };
                items.push(TreeItem::Testament(label));
                last_testament = Some(t);
            }
            let ghost heading = items_view(items@).subrange(start.len() as int, items@.len() as int);
            assert(items_view(items@) =~= start + heading);
            let expanded = self.expanded_books[book_idx];
            items.push(TreeItem::Book { book_idx, expanded });
            let ghost with_book = items_view(items@);
            assert(with_book =~= start + heading + seq![TreeItemView::Book { book_idx, expanded }]);
            if expanded {
                let count = book.chapters.len();
                let mut chapter_idx: usize = 0;
                while chapter_idx < count
                    invariant
                        chapter_idx <= count,
                        count == book.chapters@.len(),
                        items_view(items@) == with_book + Seq::new(
                            chapter_idx as nat,
                            |c: int|
                                TreeItemView::Chapter {
                                    book_idx: book_idx as usize,
                                    chapter_idx: c as usize,
                                },
                        ),
                    decreases count - chapter_idx,
                {
                    let ghost prev = items@;
                    items.push(TreeItem::Chapter { book_idx, chapter_idx });
                    assert(items@ =~= prev.push(TreeItem::Chapter { book_idx, chapter_idx }));
                    assert(items_view(items@) =~= items_view(prev).push(
                        TreeItemView::Chapter { book_idx, chapter_idx },
                    ));
                    assert(items_view(items@) =~= with_book + Seq::new(
                        (chapter_idx + 1) as nat,
                        |c: int|
                            TreeItemView::Chapter {
                                book_idx: book_idx as usize,
                                chapter_idx: c as usize,
                            },
                    ));
                    chapter_idx += 1;
                }
            }
            assert(items_view(items@) =~= tree_rows(
                self.books@,
                self.expanded_books@,
                book_idx + 1,
            ));
            last_testament = Some(t);
            book_idx += 1;
        }
        items
    }

    /// Moves the tree selection one row down, unless it is on the last row.
    pub fn tree_down(&mut self)
        requires
            flags_cover(old(self)@),
        ensures
            final(self)@ == tree_down_spec(old(self)@),
    {
        let len = self.flat_tree().len();
        if len > 0 && self.tree_selected < len - 1 {
            self.tree_selected += 1;
        }
    }

    /// Moves the tree selection one row up, unless it is on the first row.
    pub fn tree_up(&mut self)
        ensures
            final(self)@ == tree_up_spec(old(self)@),
    {
        if self.tree_selected > 0 {
            self.tree_selected -= 1;
        }
    }

    /// Acts on the selected row: a book row folds or unfolds the book, a
    /// chapter row opens the chapter in the reader.
    pub fn tree_enter(&mut self)
        requires
            flags_cover(old(self)@),
        ensures
            final(self)@ == tree_enter_spec(old(self)@),
    {
        let items = self.flat_tree();
        if self.tree_selected < items.len() {
            let ghost row = items@[self.tree_selected as int];
            assert(row@ == tree(self@)[self.tree_selected as int]);
            match &items[self.tree_selected] {
                TreeItem::Book { book_idx, .. } => {
                    let b = *book_idx;
                    let nb = self.books.len();
                    proof {
                        law_tree_rows_in_range(
                            self.books@,
                            self.expanded_books@,
                            self.books@.len() as int,
                        );
                        assert(row_in_range(self.books@, tree(self@)[self.tree_selected as int]));
                    }
                    let flag = self.expanded_books[b];
                    self.expanded_books.set(b, !flag);
                },
                TreeItem::Chapter { book_idx, chapter_idx } => {
                    self.selected_book = *book_idx;
                    self.selected_chapter = *chapter_idx;
                    self.selected_verse = 0;
                    self.scroll_offset = 0;
                    self.active_pane = Pane::Reader;
                },
                TreeItem::Testament(_) => {},
            }
        }
    }

    /// Moves to the next verse of the open chapter, scrolling when it would
    /// leave the scroll window.
    pub fn reader_down(&mut self)
        ensures
            final(self)@ == reader_down_spec(old(self)@),
    {
        if self.selected_book < self.books.len() {
            let book = &self.books[self.selected_book];
            if self.selected_chapter < book.chapters.len() {
                let n = book.chapters[self.selected_chapter].verses.len();
                if n > 0 && self.selected_verse < n - 1 {
                    self.selected_verse += 1;
                    if self.selected_verse >= 10 && self.selected_verse - 10 >= self.scroll_offset {
                        self.scroll_offset += 1;
                    }
                }
            }
        }
    }

    /// Moves to the previous verse, scrolling back when it would go above
    /// the scroll position.
    pub fn reader_up(&mut self)
        ensures
            final(self)@ == reader_up_spec(old(self)@),
    {
        if self.selected_verse > 0 {
            self.selected_verse -= 1;
            if self.selected_verse < self.scroll_offset {
                self.scroll_offset = self.selected_verse;
            }
        }
    }

    /// Opens the next chapter, or the first chapter of the next book.
    pub fn next_chapter(&mut self)
        ensures
            final(self)@ == next_chapter_spec(old(self)@),
    {
        if self.selected_book < self.books.len() {
            let count = self.books[self.selected_book].chapters.len();
            if count > 0 && self.selected_chapter < count - 1 {
                self.selected_chapter += 1;
                self.selected_verse = 0;
                self.scroll_offset = 0;
            } else if self.selected_book < self.books.len() - 1 {
                self.selected_book += 1;
                self.selected_chapter = 0;
                self.selected_verse = 0;
                self.scroll_offset = 0;
            }
        }
    }

    /// Opens the previous chapter, or the last chapter of the previous book.
    pub fn prev_chapter(&mut self)
        ensures
            final(self)@ == prev_chapter_spec(old(self)@),
    {
        if self.selected_chapter > 0 {
            self.selected_chapter -= 1;
            self.selected_verse = 0;
            self.scroll_offset = 0;
        } else if self.selected_book > 0 {
            self.selected_book -= 1;
            if self.selected_book < self.books.len() {
                let count = self.books[self.selected_book].chapters.len();
                self.selected_chapter = if count > 0 { count - 1 } else { 0 };
            }
            self.selected_verse = 0;
            self.scroll_offset = 0;
        }
    }

    /// Searches every verse for the query, ignoring case; an empty query
    /// finds nothing. The cursor goes back to the first hit.
    pub fn search_execute(&mut self)
        ensures
            final(self)@ == search_spec(old(self)@),
            old(self).search_query@.len() == 0 ==> final(self).search_results@.len() == 0,
    {
        self.search_cursor = 0;
        let query = to_lowercase(self.search_query.as_str());
        let q = chars_of(query.as_str());
        if q.len() == 0 {
            self.search_results = Vec::new();
            return;
        }
        self.search_results = search_books(&self.books, &q);
    }

    /// Opens the hit under the cursor in the reader.
    pub fn jump_to_search_result(&mut self)
        ensures
            final(self)@ == jump_spec(old(self)@),
    {
        if self.search_cursor < self.search_results.len() {
            let (bi, ci, vi) = self.search_results[self.search_cursor];
            self.selected_book = bi;
            self.selected_chapter = ci;
            self.selected_verse = vi;
            self.scroll_offset = if vi >= 4 { vi - 4 } else { 0 };
            self.active_pane = Pane::Reader;
            self.mode = Mode::Normal;
        }
    }

    /// The name of the open book, or a dash where there is none.
    pub fn current_book_name(&self) -> (name: &str)
        ensures
            name@ == if self.selected_book < self.books@.len() {
                self.books@[self.selected_book as int].name@
            } else {
                "\u{2014}"@
            },
    {
        if self.selected_book < self.books.len() {
            self.books[self.selected_book].name.as_str()
        } else {
            "\u{2014}"
        }
    }

    /// The number of the open chapter, or 0 where there is none.
    pub fn current_chapter_num(&self) -> (n: u32)
        ensures
            n == match verse_count(self.books@, self.selected_book as int, self.selected_chapter as int) {
                Some(_) => self.books@[self.selected_book as int].chapters@[self.selected_chapter as int].number,
                None => 0,
            },
    {
        if self.selected_book < self.books.len() {
            let book = &self.books[self.selected_book];
            if self.selected_chapter < book.chapters.len() {
                return book.chapters[self.selected_chapter].number;
            }
        }
        0
    }
}

/// A key press, as far as the reader tells keys apart.
#[derive(Debug, Clone, Copy, PartialEq, Eq, Structural)]
pub enum Key {
    Char(char),
    Up,
    Down,
    Enter,
    Tab,
    Esc,
    Backspace,
    Other,
}

/// Opens the search box, remembering the mode to go back to.
pub open spec fn open_search_spec(s: AppView, origin: Mode) -> AppView {
    AppView {
        search_origin: origin,
        mode: Mode::Search,
        search_query: Seq::empty(),
        search_results: Seq::empty(),
        search_navigating: false,
        ..s
    }
}

/// The other pane.
pub open spec fn other_pane(p: Pane) -> Pane {
    if p == Pane::Tree {
        Pane::Reader
    } else {
        Pane::Tree
    }
}

/// The query without its last character (an empty query stays empty).
pub open spec fn drop_last_char(q: Seq<char>) -> Seq<char> {
    if q.len() > 0 {
        q.drop_last()
    } else {
        q
    }
}

/// Whether key `k` ends the session in state `s`.
pub open spec fn quits(s: AppView, k: Key) -> bool {
    s.mode == Mode::Menu && k == Key::Char('q')
}

/// The state after key `k` in state `s`.
pub open spec fn key_step(s: AppView, k: Key) -> AppView {
    match s.mode {
        Mode::Menu => {
            if k == Key::Char('f') || k == Key::Char('r') {
                open_search_spec(s, Mode::Menu)
            } else if k == Key::Char('c') {
                AppView { mode: Mode::Normal, active_pane: Pane::Reader, ..s }
            } else {
                s
            }
        },
        Mode::Normal => {
            if k == Key::Char('q') {
                AppView { mode: Mode::Menu, ..s }
            } else if k == Key::Char('j') || k == Key::Down {
                if s.active_pane == Pane::Tree {
                    tree_down_spec(s)
                } else {
                    reader_down_spec(s)
                }
            } else if k == Key::Char('k') || k == Key::Up {
                if s.active_pane == Pane::Tree {
                    tree_up_spec(s)
                } else {
                    reader_up_spec(s)
                }
            } else if k == Key::Enter {
                tree_enter_spec(s)
            } else if k == Key::Char('n') {
                next_chapter_spec(s)
            } else if k == Key::Char('p') {
                prev_chapter_spec(s)
            } else if k == Key::Char('/') {
                open_search_spec(s, Mode::Normal)
            } else if k == Key::Tab {
                AppView { active_pane: other_pane(s.active_pane), ..s }
            } else {
                s
            }
        },
        Mode::Search => {
            if k == Key::Esc {
                AppView {
                    mode: s.search_origin,
                    search_query: Seq::empty(),
                    search_navigating: false,
                    ..s
                }
            } else if k == Key::Tab {
                AppView { search_navigating: !s.search_navigating, ..s }
            } else if k == Key::Enter {
                AppView { search_navigating: false, ..jump_spec(s) }
            } else if (k == Key::Char('j') || k == Key::Down) && s.search_navigating {
                if s.search_cursor + 1 < s.search_results.len() {
                    AppView { search_cursor: (s.search_cursor + 1) as usize, ..s }
                } else {
                    s
                }
            } else if (k == Key::Char('k') || k == Key::Up) && s.search_navigating {
                if s.search_cursor > 0 {
                    AppView { search_cursor: (s.search_cursor - 1) as usize, ..s }
                } else {
                    s
                }
            } else if k is Char && !s.search_navigating {
                search_spec(AppView { search_query: s.search_query.push(k->Char_0), ..s })
            } else if k == Key::Backspace {
                search_spec(AppView { search_query: drop_last_char(s.search_query), ..s })
            } else {
                s
            }
        },
    }
}

impl App {
    /// Opens the search box, remembering the mode to go back to.
    fn open_search(&mut self, origin: Mode)
        ensures
            final(self)@ == open_search_spec(old(self)@, origin),
    {
        self.search_origin = origin;
        self.mode = Mode::Search;
        self.search_query = String::new();
        self.search_results = Vec::new();
        self.search_navigating = false;
    }

    /// Handles one key press; returns whether the session ends.
    pub fn handle_key(&mut self, key: Key) -> (quit: bool)
        requires
            flags_cover(old(self)@),
        ensures
            quit == quits(old(self)@, key),
            final(self)@ == key_step(old(self)@, key),
    {
        match self.mode {
            Mode::Menu => match key {
                Key::Char('q') => {
                    return true;
                },
                Key::Char('f') | Key::Char('r') => self.open_search(Mode::Menu),
                Key::Char('c') => {
                    self.mode = Mode::Normal;
                    self.active_pane = Pane::Reader;
                },
                _ => {},
            },
            Mode::Normal => match key {
                Key::Char('q') => self.mode = Mode::Menu,
                Key::Char('j') | Key::Down => {
                    if self.active_pane == Pane::Tree {
                        self.tree_down();
                    } else {
                        self.reader_down();
                    }
                },
                Key::Char('k') | Key::Up => {
                    if self.active_pane == Pane::Tree {
                        self.tree_up();
                    } else {
                        self.reader_up();
                    }
                },
                Key::Enter => self.tree_enter(),
                Key::Char('n') => self.next_chapter(),
                Key::Char('p') => self.prev_chapter(),
                Key::Char('/') => self.open_search(Mode::Normal),
                Key::Tab => {
                    self.active_pane = if self.active_pane == Pane::Tree {
                        Pane::Reader
                    } else {
                        Pane::Tree
                    };
                },
                _ => {},
            },
            Mode::Search => {
                let down = key == Key::Char('j') || key == Key::Down;
                let up = key == Key::Char('k') || key == Key::Up;
                if key == Key::Esc {
                    self.mode = self.search_origin;
                    self.search_query = String::new();
                    self.search_navigating = false;
                } else if key == Key::Tab {
                    self.search_navigating = !self.search_navigating;
                } else if key == Key::Enter {
                    self.jump_to_search_result();
                    self.search_navigating = false;
                } else if down && self.search_navigating {
                    let n = self.search_results.len();
                    if n > 0 && self.search_cursor < n - 1 {
                        self.search_cursor += 1;
                    }
                } else if up && self.search_navigating {
                    if self.search_cursor > 0 {
                        self.search_cursor -= 1;
                    }
                } else if key == Key::Backspace {
                    pop_char(&mut self.search_query);
                    self.search_execute();
                } else {
                    match key {
                        Key::Char(c) => {
                            if !self.search_navigating {
                                push_char(&mut self.search_query, c);
                                self.search_execute();
                            }
                        },
                        _ => {},
                    }
                }
            },
        }
        false
    }
}

/// Every verse of `books` whose lower-cased text holds `q`, in reading order.
fn search_books(books: &Vec<Book>, q: &Vec<char>) -> (hits: Vec<(usize, usize, usize)>)
    ensures
        hits@ == search_hits(books@, q@),
{
    let mut hits: Vec<(usize, usize, usize)> = Vec::new();
    let mut bi: usize = 0;
    while bi < books.len()
        invariant
            bi <= books@.len(),
            hits@ == book_hits(books@, q@, bi as int),
        decreases books@.len() - bi,
    {
        let chapters = &books[bi].chapters;
        let ghost before_book = hits@;
        let mut ci: usize = 0;
        while ci < chapters.len()
            invariant
                bi < books@.len(),
                *chapters == books@[bi as int].chapters,
                ci <= chapters@.len(),
                before_book == book_hits(books@, q@, bi as int),
                hits@ == before_book + chapter_hits(chapters@, bi as int, q@, ci as int),
            decreases chapters@.len() - ci,
        {
            let verses = &chapters[ci].verses;
            let ghost before_chapter = hits@;
            let mut vi: usize = 0;
            while vi < verses.len()
                invariant
                    ci < chapters@.len(),
                    *verses == chapters@[ci as int].verses,
                    vi <= verses@.len(),
                    before_chapter == before_book + chapter_hits(chapters@, bi as int, q@, ci as int),
                    hits@ == before_chapter + verse_hits(verses@, bi as int, ci as int, q@, vi as int),
                decreases verses@.len() - vi,
            {
                let lower = to_lowercase(verses[vi].text.as_str());
                let text = chars_of(lower.as_str());
                let ghost prev = hits@;
                if contains_chars(&text, q) {
                    hits.push((bi, ci, vi));
                }
                assert(hits@ =~= before_chapter + verse_hits(verses@, bi as int, ci as int, q@, vi + 1));
                vi += 1;
            }
            assert(hits@ =~= before_book + chapter_hits(chapters@, bi as int, q@, ci + 1));
            ci += 1;
        }
        assert(hits@ =~= book_hits(books@, q@, bi + 1));
        bi += 1;
    }
    hits
}

/// Every row of the tree of the first `k` books names an existing book, and
/// a chapter row names an existing chapter of it.
pub proof fn law_tree_rows_in_range(books: Seq<Book>, expanded: Seq<bool>, k: int)
    requires
        0 <= k <= books.len(),
        books.len() <= usize::MAX,
        expanded.len() >= books.len(),
    ensures
        forall|r: int|
            0 <= r < tree_rows(books, expanded, k).len() ==> #[trigger] row_in_range(
                books,
                tree_rows(books, expanded, k)[r],
            ),
    decreases k,
{
    if k > 0 {
        law_tree_rows_in_range(books, expanded, k - 1);
        let prev = tree_rows(books, expanded, k - 1);
        let rows = book_rows(books, expanded, k - 1);
        assert forall|r: int| 0 <= r < tree_rows(books, expanded, k).len() implies #[trigger] row_in_range(
            books,
            tree_rows(books, expanded, k)[r],
        ) by {
            if r < prev.len() {
                assert(tree_rows(books, expanded, k)[r] == prev[r]);
            } else {
                assert(tree_rows(books, expanded, k)[r] == rows[r - prev.len()]);
                lemma_book_rows_in_range(books, expanded, k - 1, r - prev.len());
            }
        }
    }
}

/// Row `j` of the rows of book `i` names an existing book (and chapter).
proof fn lemma_book_rows_in_range(books: Seq<Book>, expanded: Seq<bool>, i: int, j: int)
    requires
        0 <= i < books.len(),
        books.len() <= usize::MAX,
        expanded.len() >= books.len(),
        0 <= j < book_rows(books, expanded, i).len(),
    ensures
        row_in_range(books, book_rows(books, expanded, i)[j]),
{
    let heading = if i == 0 || books[i - 1].testament != books[i].testament {
        seq![TreeItemView::Testament(testament_label(books[i].testament))]
    } else {
        Seq::empty()
    };
    let chapters = if expanded[i] {
        Seq::new(
            books[i].chapters@.len(),
            |c: int| TreeItemView::Chapter { book_idx: i as usize, chapter_idx: c as usize },
        )
    } else {
        Seq::empty()
    };
    let book = seq![TreeItemView::Book { book_idx: i as usize, expanded: expanded[i] }];
    let rows = book_rows(books, expanded, i);
    assert(rows == heading + book + chapters);
    if j < heading.len() {
        assert(rows[j] == heading[j]);
    } else if j == heading.len() {
        assert(rows[j] == book[0]);
        lemma_index_cast(i, books.len() as int);
    } else {
        assert(rows[j] == chapters[j - heading.len() - 1]);
        lemma_index_cast(i, books.len() as int);
        lemma_index_cast(j - heading.len() - 1, books[i].chapters@.len() as int);
    }
}

/// An index below a length stays below it as a `usize`.
proof fn lemma_index_cast(x: int, n: int)
    requires
        0 <= x < n,
    ensures
        (x as usize) < n,
        x <= usize::MAX ==> x as usize == x,
{
}

/// Row `row` names an existing book (and chapter).
pub open spec fn row_in_range(books: Seq<Book>, row: TreeItemView) -> bool {
    match row {
        TreeItemView::Book { book_idx, .. } => book_idx < books.len(),
        TreeItemView::Chapter { book_idx, chapter_idx } => book_idx < books.len()
            && chapter_idx < books[book_idx as int].chapters@.len(),
        TreeItemView::Testament(_) => true,
    }
}

} // verus!
