//! What holds of the reader across operations and over every state.
use vstd::prelude::*;

use crate::app::{
    book_rows, flags_cover, initial_state, jump_spec, key_step, law_tree_rows_in_range, quits, next_chapter_spec,
    prev_chapter_spec, reader_down_spec, reader_up_spec, row_in_range, search_hits, sizes_fit,
    testament_label, tree, tree_down_spec, tree_enter_spec, tree_of, tree_rows, tree_up_spec,
    verse_count, window, AppView, Key, Mode, Pane, TreeItemView,
};
use crate::bible::{bible_of, books_view, Book, JsonValue};
use crate::bible_laws::law_loaded_bible_well_formed;
use crate::search_laws::law_search_finds_exactly_the_hits;
use crate::text::lowercase;

verus! {

/// Moving the tree selection down and then up again returns to the row one
/// started from, whenever the move down moved.
pub proof fn law_tree_up_undoes_down(s: AppView)
    requires
        s.tree_selected + 1 < tree(s).len(),
        tree(s).len() <= usize::MAX,
    ensures
        tree_up_spec(tree_down_spec(s)) == s,
{
    assert(tree_up_spec(tree_down_spec(s)) =~= s);
}

/// Moving the tree selection up and then down again returns to the row one
/// started from, whenever the move up moved from a row of the tree.
pub proof fn law_tree_down_undoes_up(s: AppView)
    requires
        0 < s.tree_selected < tree(s).len(),
    ensures
        tree_down_spec(tree_up_spec(s)) == s,
{
}

/// Moving the tree selection never takes it off the tree.
pub proof fn law_tree_moves_stay_on_tree(s: AppView)
    requires
        s.tree_selected < tree(s).len(),
    ensures
        tree_down_spec(s).tree_selected < tree(tree_down_spec(s)).len(),
        tree_up_spec(s).tree_selected < tree(tree_up_spec(s)).len(),
{
}

/// Moving to the previous verse undoes a move to the next verse, as far as
/// the selected verse goes; nothing else but the scroll position changes.
pub proof fn law_reader_up_undoes_down(s: AppView)
    requires
        sizes_fit(s.books),
        reader_down_spec(s).selected_verse != s.selected_verse,
    ensures
        reader_up_spec(reader_down_spec(s)) == (AppView {
            scroll_offset: reader_up_spec(reader_down_spec(s)).scroll_offset,
            ..s
        }),
{
    let t = reader_up_spec(reader_down_spec(s));
    let n = verse_count(s.books, s.selected_book as int, s.selected_chapter as int)->0;
    assert(n <= usize::MAX);
    assert(t =~= (AppView { scroll_offset: t.scroll_offset, ..s }));
}

/// The selected verse lies in the scroll window: at or after the scroll
/// position and less than ten verses past it.
pub open spec fn verse_visible(s: AppView) -> bool {
    s.scroll_offset <= s.selected_verse < s.scroll_offset + window()
}

/// Every key keeps the selected verse in the scroll window.
pub proof fn law_key_step_keeps_verse_visible(s: AppView, k: Key)
    requires
        sizes_fit(s.books),
        verse_visible(s),
    ensures
        verse_visible(key_step(s, k)),
{
}

/// A reader that has just been opened shows its selected verse.
pub proof fn law_initial_state_valid(books: Seq<Book>)
    ensures
        verse_visible(initial_state(books)),
        flags_cover(initial_state(books)),
{
}

/// No key changes the books or the number of expansion flags.
pub proof fn law_key_step_keeps_books(s: AppView, k: Key)
    requires
        sizes_fit(s.books),
        flags_cover(s),
    ensures
        key_step(s, k).books == s.books,
        key_step(s, k).expanded_books.len() == s.expanded_books.len(),
        flags_cover(key_step(s, k)),
{
    if s.tree_selected < tree(s).len() {
        law_tree_rows_in_range(s.books, s.expanded_books, s.books.len() as int);
        assert(row_in_range(s.books, tree(s)[s.tree_selected as int]));
    }
}

/// The open position names an existing chapter.
pub open spec fn position_valid(s: AppView) -> bool {
    verse_count(s.books, s.selected_book as int, s.selected_chapter as int) is Some
}

/// Going back a chapter undoes going forward one, from an existing chapter,
/// whenever going forward moved; the verse and the scroll position start over.
pub proof fn law_prev_undoes_next(s: AppView)
    requires
        sizes_fit(s.books),
        position_valid(s),
        next_chapter_spec(s) != s,
    ensures
        prev_chapter_spec(next_chapter_spec(s)) == (AppView {
            selected_verse: 0,
            scroll_offset: 0,
            ..s
        }),
{
}

/// Going forward a chapter undoes going back one, from an existing chapter,
/// whenever going back moved; the verse and the scroll position start over.
pub proof fn law_next_undoes_prev(s: AppView)
    requires
        sizes_fit(s.books),
        position_valid(s),
        prev_chapter_spec(s) != s,
    ensures
        next_chapter_spec(prev_chapter_spec(s)) == (AppView {
            selected_verse: 0,
            scroll_offset: 0,
            ..s
        }),
{
}

/// The rows of the first `k` books depend on the expansion flags of those
/// books only.
proof fn lemma_rows_ignore_later_flags(books: Seq<Book>, e1: Seq<bool>, e2: Seq<bool>, k: int)
    requires
        0 <= k <= books.len(),
        forall|i: int| 0 <= i < k ==> e1[i] == e2[i],
    ensures
        tree_rows(books, e1, k) == tree_rows(books, e2, k),
    decreases k,
{
    if k > 0 {
        lemma_rows_ignore_later_flags(books, e1, e2, k - 1);
        assert(book_rows(books, e1, k - 1) =~= book_rows(books, e2, k - 1));
    }
}

/// Folding or unfolding book `b` leaves the row of book `b` where it was.
proof fn lemma_toggle_keeps_book_row(books: Seq<Book>, e: Seq<bool>, k: int, r: int, b: int)
    requires
        0 <= k <= books.len(),
        books.len() <= usize::MAX,
        e.len() >= books.len(),
        0 <= b < books.len(),
        0 <= r < tree_rows(books, e, k).len(),
        tree_rows(books, e, k)[r] is Book,
        tree_rows(books, e, k)[r]->Book_book_idx == b as usize,
    ensures
        r < tree_rows(books, e.update(b, !e[b]), k).len(),
        tree_rows(books, e.update(b, !e[b]), k)[r] is Book,
        tree_rows(books, e.update(b, !e[b]), k)[r]->Book_book_idx == b as usize,
    decreases k,
{
    let e2 = e.update(b, !e[b]);
    let prev = tree_rows(books, e, k - 1);
    let rows = book_rows(books, e, k - 1);
    assert(tree_rows(books, e, k) == prev + rows);
    if r < prev.len() {
        assert(tree_rows(books, e, k)[r] == prev[r]);
        lemma_toggle_keeps_book_row(books, e, k - 1, r, b);
        assert(tree_rows(books, e2, k) == tree_rows(books, e2, k - 1) + book_rows(books, e2, k - 1));
    } else {
        let i = k - 1;
        let j = r - prev.len();
        assert(rows[j] == tree_rows(books, e, k)[r]);
        let heading = if i == 0 || books[i - 1].testament != books[i].testament {
            seq![TreeItemView::Testament(testament_label(books[i].testament))]
        } else {
            Seq::empty()
        };
        let chapters = if e[i] {
            Seq::new(
                books[i].chapters@.len(),
                |c: int| TreeItemView::Chapter { book_idx: i as usize, chapter_idx: c as usize },
            )
        } else {
            Seq::empty()
        };
        let book = seq![TreeItemView::Book { book_idx: i as usize, expanded: e[i] }];
        assert(rows == heading + book + chapters);
        if j < heading.len() {
            assert(rows[j] == heading[j]);
        } else if j > heading.len() {
            assert(rows[j] == chapters[j - heading.len() - 1]);
        }
        assert(j == heading.len());
        assert(b == i);
        lemma_rows_ignore_later_flags(books, e, e2, k - 1);
        let rows2 = book_rows(books, e2, i);
        let chapters2 = if e2[i] {
            Seq::new(
                books[i].chapters@.len(),
                |c: int| TreeItemView::Chapter { book_idx: i as usize, chapter_idx: c as usize },
            )
        } else {
            Seq::empty()
        };
        let book2 = seq![TreeItemView::Book { book_idx: i as usize, expanded: e2[i] }];
        assert(rows2 == heading + book2 + chapters2);
        assert(rows2[j] == book2[0]);
        assert(tree_rows(books, e2, k) == prev + rows2);
        assert(tree_rows(books, e2, k)[r] == rows2[j]);
    }
}

/// In the search box, Esc goes back to the mode the search was opened from,
/// empties the query and stops navigating; the hits and the rest stay.
pub proof fn law_search_escape_returns(s: AppView)
    requires
        s.mode == Mode::Search,
    ensures
        key_step(s, Key::Esc).mode == s.search_origin,
        key_step(s, Key::Esc).search_query.len() == 0,
        !key_step(s, Key::Esc).search_navigating,
        key_step(s, Key::Esc).search_results == s.search_results,
        key_step(s, Key::Esc).selected_book == s.selected_book,
        key_step(s, Key::Esc).selected_chapter == s.selected_chapter,
        key_step(s, Key::Esc).selected_verse == s.selected_verse,
        !quits(s, Key::Esc),
{
}

/// While navigating the hits, Down (or `j`) moves the cursor to the next hit
/// whenever there is one, and leaves it on the last hit otherwise; the hits
/// and the query stay.
pub proof fn law_search_cursor_down(s: AppView, k: Key)
    requires
        s.mode == Mode::Search,
        s.search_navigating,
        s.search_results.len() <= usize::MAX,
        k == Key::Down || k == Key::Char('j'),
    ensures
        s.search_cursor + 1 < s.search_results.len() ==> key_step(s, k).search_cursor
            == s.search_cursor + 1,
        s.search_cursor + 1 >= s.search_results.len() ==> key_step(s, k).search_cursor
            == s.search_cursor,
        key_step(s, k).search_results == s.search_results,
        key_step(s, k).search_query == s.search_query,
        key_step(s, k).mode == Mode::Search,
{
}

/// While navigating the hits, Up (or `k`) moves the cursor to the previous
/// hit, and leaves it on the first one.
pub proof fn law_search_cursor_up(s: AppView, k: Key)
    requires
        s.mode == Mode::Search,
        s.search_navigating,
        k == Key::Up || k == Key::Char('k'),
    ensures
        s.search_cursor > 0 ==> key_step(s, k).search_cursor == s.search_cursor - 1,
        s.search_cursor == 0 ==> key_step(s, k).search_cursor == 0,
        key_step(s, k).search_results == s.search_results,
        key_step(s, k).search_query == s.search_query,
{
}

/// Down then Up while navigating returns the cursor to the hit it was on,
/// whenever Down moved it.
pub proof fn law_search_cursor_up_undoes_down(s: AppView)
    requires
        s.mode == Mode::Search,
        s.search_navigating,
        s.search_results.len() <= usize::MAX,
        s.search_cursor + 1 < s.search_results.len(),
    ensures
        key_step(key_step(s, Key::Down), Key::Up).search_cursor == s.search_cursor,
{
}

/// Tab in the search box switches between typing and navigating the hits.
pub proof fn law_search_tab_switches(s: AppView)
    requires
        s.mode == Mode::Search,
    ensures
        key_step(s, Key::Tab).search_navigating == !s.search_navigating,
        key_step(key_step(s, Key::Tab), Key::Tab) == s,
{
    assert(key_step(key_step(s, Key::Tab), Key::Tab) =~= s);
}

/// Typing a character into the search box appends it to the query and
/// searches again: the hits are the verses that hold the new lower-cased
/// query (none for an empty one), and the cursor is on the first hit.
pub proof fn law_search_typing(s: AppView, c: char)
    requires
        s.mode == Mode::Search,
        !s.search_navigating,
    ensures
        key_step(s, Key::Char(c)).search_query == s.search_query.push(c),
        key_step(s, Key::Char(c)).search_cursor == 0,
        lowercase(s.search_query.push(c)).len() > 0 ==> key_step(s, Key::Char(c)).search_results
            == search_hits(s.books, lowercase(s.search_query.push(c))),
        key_step(s, Key::Char(c)).mode == Mode::Search,
{
}

/// Backspace in the search box drops the last character of the query (an
/// empty query stays empty) and searches again.
pub proof fn law_search_backspace(s: AppView)
    requires
        s.mode == Mode::Search,
    ensures
        s.search_query.len() > 0 ==> key_step(s, Key::Backspace).search_query
            == s.search_query.drop_last(),
        s.search_query.len() == 0 ==> key_step(s, Key::Backspace).search_query.len() == 0,
        key_step(s, Key::Backspace).search_cursor == 0,
{
}

/// Enter in the search box opens the hit under the cursor (when there is
/// one) in the reader, back in normal mode, and stops navigating.
pub proof fn law_search_enter_opens_hit(s: AppView)
    requires
        s.mode == Mode::Search,
        s.search_cursor < s.search_results.len(),
    ensures
        key_step(s, Key::Enter).selected_book == s.search_results[s.search_cursor as int].0,
        key_step(s, Key::Enter).selected_chapter == s.search_results[s.search_cursor as int].1,
        key_step(s, Key::Enter).selected_verse == s.search_results[s.search_cursor as int].2,
        key_step(s, Key::Enter).mode == Mode::Normal,
        key_step(s, Key::Enter).active_pane == Pane::Reader,
        !key_step(s, Key::Enter).search_navigating,
{
}

/// Opening the search box from the menu (`f` or `r`) or from reading (`/`)
/// starts an empty search that remembers where it came from.
pub proof fn law_open_search(s: AppView, k: Key)
    requires
        (s.mode == Mode::Menu && (k == Key::Char('f') || k == Key::Char('r'))) || (s.mode
            == Mode::Normal && k == Key::Char('/')),
    ensures
        key_step(s, k).mode == Mode::Search,
        key_step(s, k).search_origin == s.mode,
        key_step(s, k).search_query.len() == 0,
        key_step(s, k).search_results.len() == 0,
        !key_step(s, k).search_navigating,
        !quits(s, k),
{
}

/// On the menu, `q` ends the session and `c` goes to reading in the reader
/// pane; no other key ends it, in any mode.
pub proof fn law_menu_keys(s: AppView, k: Key)
    ensures
        quits(s, k) <==> (s.mode == Mode::Menu && k == Key::Char('q')),
        s.mode == Mode::Menu && k == Key::Char('c') ==> key_step(s, k).mode == Mode::Normal
            && key_step(s, k).active_pane == Pane::Reader,
{
}

/// In reading mode, `q` goes back to the menu and Tab switches the pane;
/// the moves act on the focused pane only.
pub proof fn law_normal_keys(s: AppView)
    requires
        s.mode == Mode::Normal,
        tree(s).len() <= usize::MAX,
    ensures
        key_step(s, Key::Char('q')).mode == Mode::Menu,
        key_step(s, Key::Tab).active_pane != s.active_pane,
        key_step(s, Key::Tab).mode == Mode::Normal,
        s.active_pane == Pane::Reader ==> key_step(s, Key::Down).tree_selected == s.tree_selected
            && key_step(s, Key::Up).tree_selected == s.tree_selected,
        s.active_pane == Pane::Tree ==> key_step(s, Key::Down).selected_verse == s.selected_verse
            && key_step(s, Key::Up).selected_verse == s.selected_verse,
        s.active_pane == Pane::Tree && s.tree_selected + 1 < tree(s).len() ==> key_step(
            s,
            Key::Down,
        ).tree_selected == s.tree_selected + 1,
        s.active_pane == Pane::Tree && s.tree_selected > 0 ==> key_step(s, Key::Up).tree_selected
            == s.tree_selected - 1,
        key_step(s, Key::Enter) == tree_enter_spec(s),
        key_step(s, Key::Char('n')) == next_chapter_spec(s),
        key_step(s, Key::Char('p')) == prev_chapter_spec(s),
        s.active_pane == Pane::Reader ==> key_step(s, Key::Down) == reader_down_spec(s)
            && key_step(s, Key::Char('j')) == reader_down_spec(s) && key_step(s, Key::Up)
            == reader_up_spec(s) && key_step(s, Key::Char('k')) == reader_up_spec(s),
        s.active_pane == Pane::Tree ==> key_step(s, Key::Down) == tree_down_spec(s) && key_step(
            s,
            Key::Char('j'),
        ) == tree_down_spec(s) && key_step(s, Key::Up) == tree_up_spec(s) && key_step(
            s,
            Key::Char('k'),
        ) == tree_up_spec(s),
{
}

/// Moving down in the reader goes to the next verse of the open chapter when
/// there is one, and stays in the same chapter.
pub proof fn law_reader_down_next_verse(s: AppView)
    requires
        sizes_fit(s.books),
        verse_count(s.books, s.selected_book as int, s.selected_chapter as int) is Some,
        s.selected_verse + 1 < verse_count(
            s.books,
            s.selected_book as int,
            s.selected_chapter as int,
        )->0,
    ensures
        reader_down_spec(s).selected_verse == s.selected_verse + 1,
        reader_down_spec(s).selected_book == s.selected_book,
        reader_down_spec(s).selected_chapter == s.selected_chapter,
{
}

/// Moving down in the reader scrolls by one line exactly when the new verse
/// would be ten or more verses past the scroll position; moving up scrolls
/// back to the new verse exactly when it would be above the scroll position.
pub proof fn law_reader_scrolling(s: AppView)
    requires
        sizes_fit(s.books),
    ensures
        reader_down_spec(s).selected_verse == s.selected_verse + 1 ==> reader_down_spec(
            s,
        ).scroll_offset == if s.selected_verse + 1 >= s.scroll_offset + 10 {
            s.scroll_offset + 1
        } else {
            s.scroll_offset as int
        },
        reader_down_spec(s).selected_verse == s.selected_verse ==> reader_down_spec(s) == s,
        s.selected_verse > 0 ==> reader_up_spec(s).selected_verse == s.selected_verse - 1
            && reader_up_spec(s).scroll_offset == if s.selected_verse - 1 < s.scroll_offset {
            s.selected_verse - 1
        } else {
            s.scroll_offset as int
        },
        s.selected_verse == 0 ==> reader_up_spec(s) == s,
{
}

/// Going to the next chapter from an existing chapter opens the following
/// chapter of the same book, or else the first chapter of the next book, or
/// else stays; going to the previous chapter opens the chapter before, or
/// else the last chapter of the previous book, or else stays. Each move
/// starts at the first verse, unscrolled.
pub proof fn law_chapter_moves(s: AppView)
    requires
        sizes_fit(s.books),
        position_valid(s),
    ensures
        ({
            let t = next_chapter_spec(s);
            let n = s.books[s.selected_book as int].chapters@.len();
            if s.selected_chapter + 1 < n {
                t.selected_book == s.selected_book && t.selected_chapter == s.selected_chapter + 1
                    && t.selected_verse == 0 && t.scroll_offset == 0
            } else if s.selected_book + 1 < s.books.len() {
                t.selected_book == s.selected_book + 1 && t.selected_chapter == 0
                    && t.selected_verse == 0 && t.scroll_offset == 0
            } else {
                t == s
            }
        }),
        ({
            let t = prev_chapter_spec(s);
            if s.selected_chapter > 0 {
                t.selected_book == s.selected_book && t.selected_chapter == s.selected_chapter - 1
                    && t.selected_verse == 0 && t.scroll_offset == 0
            } else if s.selected_book > 0 {
                &&& t.selected_book == s.selected_book - 1
                &&& t.selected_verse == 0
                &&& t.scroll_offset == 0
                &&& if s.books[s.selected_book - 1].chapters@.len() > 0 {
                    t.selected_chapter + 1 == s.books[s.selected_book - 1].chapters@.len()
                } else {
                    t.selected_chapter == 0
                }
            } else {
                t == s
            }
        }),
{
}

/// Opening the hit under the cursor scrolls so that it is the fifth verse
/// shown (or from the top, for the first four verses).
pub proof fn law_jump_scrolls_to_hit(s: AppView)
    requires
        s.search_cursor < s.search_results.len(),
    ensures
        jump_spec(s).scroll_offset == if s.search_results[s.search_cursor as int].2 >= 4 {
            s.search_results[s.search_cursor as int].2 - 4
        } else {
            0
        },
{
}

/// Enter on a book row folds or unfolds that book only; Enter on a chapter
/// row opens that chapter at its first verse in the reader; Enter on a
/// heading changes nothing. The tree selection stays.
pub proof fn law_tree_enter_acts_on_its_row(s: AppView)
    requires
        s.books.len() <= usize::MAX,
        flags_cover(s),
        s.tree_selected < tree(s).len(),
    ensures
        ({
            let t = tree_enter_spec(s);
            &&& t.tree_selected == s.tree_selected
            &&& t.expanded_books.len() == s.expanded_books.len()
            &&& match tree(s)[s.tree_selected as int] {
                TreeItemView::Book { book_idx, .. } => {
                    &&& t.expanded_books[book_idx as int] == !s.expanded_books[book_idx as int]
                    &&& forall|i: int|
                        0 <= i < s.expanded_books.len() && i != book_idx ==> #[trigger] t.expanded_books[i]
                            == s.expanded_books[i]
                    &&& t.selected_book == s.selected_book
                    &&& t.selected_chapter == s.selected_chapter
                },
                TreeItemView::Chapter { book_idx, chapter_idx } => {
                    &&& t.selected_book == book_idx
                    &&& t.selected_chapter == chapter_idx
                    &&& t.selected_verse == 0
                    &&& t.scroll_offset == 0
                    &&& t.active_pane == Pane::Reader
                    &&& t.expanded_books == s.expanded_books
                },
                TreeItemView::Testament(_) => t == s,
            }
        }),
{
    law_tree_rows_in_range(s.books, s.expanded_books, s.books.len() as int);
    assert(row_in_range(s.books, tree(s)[s.tree_selected as int]));
}

/// The rows of books `lo` up to (not including) `hi`.
pub open spec fn rows_between(books: Seq<Book>, e: Seq<bool>, lo: int, hi: int) -> Seq<TreeItemView>
    decreases hi - lo,
{
    if hi <= lo {
        Seq::empty()
    } else {
        rows_between(books, e, lo, hi - 1) + book_rows(books, e, hi - 1)
    }
}

/// The testament heading row in front of book `i`, where the testament
/// changes there.
pub open spec fn heading_rows(books: Seq<Book>, i: int) -> Seq<TreeItemView> {
    if i == 0 || books[i - 1].testament != books[i].testament {
        seq![TreeItemView::Testament(testament_label(books[i].testament))]
    } else {
        Seq::empty()
    }
}

/// The chapter rows of book `b`.
pub open spec fn chapter_rows(books: Seq<Book>, b: int) -> Seq<TreeItemView> {
    Seq::new(
        books[b].chapters@.len(),
        |c: int| TreeItemView::Chapter { book_idx: b as usize, chapter_idx: c as usize },
    )
}

/// The rows of the first `hi` books are those of the first `lo` and then
/// those of books `lo` to `hi`.
proof fn lemma_rows_split(books: Seq<Book>, e: Seq<bool>, lo: int, hi: int)
    requires
        0 <= lo <= hi,
    ensures
        tree_rows(books, e, hi) == tree_rows(books, e, lo) + rows_between(books, e, lo, hi),
    decreases hi - lo,
{
    if hi > lo {
        lemma_rows_split(books, e, lo, hi - 1);
        assert(tree_rows(books, e, hi) =~= tree_rows(books, e, lo) + rows_between(books, e, lo, hi));
    } else {
        assert(tree_rows(books, e, hi) =~= tree_rows(books, e, lo) + rows_between(books, e, lo, hi));
    }
}

/// The rows of books `lo` to `hi` depend on those books' flags only.
proof fn lemma_between_ignores_other_flags(
    books: Seq<Book>,
    e1: Seq<bool>,
    e2: Seq<bool>,
    lo: int,
    hi: int,
)
    requires
        forall|i: int| lo <= i < hi ==> e1[i] == e2[i],
    ensures
        rows_between(books, e1, lo, hi) == rows_between(books, e2, lo, hi),
    decreases hi - lo,
{
    if hi > lo {
        lemma_between_ignores_other_flags(books, e1, e2, lo, hi - 1);
        assert(book_rows(books, e1, hi - 1) =~= book_rows(books, e2, hi - 1));
    }
}

/// Unfolding a folded book changes its row to an unfolded one and inserts
/// its chapter rows, in order, right after it; every other row stays as and
/// where it was.
pub proof fn law_unfolding_inserts_chapter_rows(books: Seq<Book>, e: Seq<bool>, b: int)
    requires
        0 <= b < books.len(),
        e.len() >= books.len(),
        !e[b],
    ensures
        tree_of(books, e) == tree_rows(books, e, b) + heading_rows(books, b) + seq![
            TreeItemView::Book { book_idx: b as usize, expanded: false },
        ] + rows_between(books, e, b + 1, books.len() as int),
        tree_of(books, e.update(b, true)) == tree_rows(books, e, b) + heading_rows(books, b) + seq![
            TreeItemView::Book { book_idx: b as usize, expanded: true },
        ] + chapter_rows(books, b) + rows_between(books, e, b + 1, books.len() as int),
{
    let e2 = e.update(b, true);
    let n = books.len() as int;
    lemma_rows_split(books, e, b + 1, n);
    lemma_rows_split(books, e2, b + 1, n);
    lemma_rows_ignore_later_flags(books, e, e2, b);
    lemma_between_ignores_other_flags(books, e, e2, b + 1, n);
    assert(tree_rows(books, e, b + 1) =~= tree_rows(books, e, b) + heading_rows(books, b) + seq![
        TreeItemView::Book { book_idx: b as usize, expanded: false },
    ]);
    assert(tree_rows(books, e2, b + 1) =~= tree_rows(books, e, b) + heading_rows(books, b) + seq![
        TreeItemView::Book { book_idx: b as usize, expanded: true },
    ] + chapter_rows(books, b));
}

/// Pressing enter twice on a book row folds the book back as it was (or
/// unfolds it back): the second press finds the same book on the same row.
pub proof fn law_tree_enter_twice_on_book(s: AppView)
    requires
        s.books.len() <= usize::MAX,
        flags_cover(s),
        s.tree_selected < tree(s).len(),
        tree(s)[s.tree_selected as int] is Book,
    ensures
        tree_enter_spec(tree_enter_spec(s)) == s,
{
    let r = s.tree_selected as int;
    let b = tree(s)[r]->Book_book_idx;
    law_tree_rows_in_range(s.books, s.expanded_books, s.books.len() as int);
    assert(row_in_range(s.books, tree(s)[r]));
    let s1 = tree_enter_spec(s);
    assert(s1.expanded_books == s.expanded_books.update(b as int, !s.expanded_books[b as int]));
    lemma_toggle_keeps_book_row(s.books, s.expanded_books, s.books.len() as int, r, b as int);
    assert(tree(s1)[r] is Book && tree(s1)[r]->Book_book_idx == b);
    let s2 = tree_enter_spec(s1);
    assert(s2.expanded_books =~= s.expanded_books);
    assert(s2 =~= s);
}

/// Every book has a chapter and every chapter has a verse.
pub open spec fn no_empty_parts(books: Seq<Book>) -> bool {
    forall|b: int|
        0 <= b < books.len() ==> {
            &&& #[trigger] books[b].chapters@.len() > 0
            &&& forall|c: int|
                0 <= c < books[b].chapters@.len() ==> #[trigger] books[b].chapters@[c].verses@.len()
                    > 0
        }
}

/// Position `t` names an existing verse.
pub open spec fn verse_exists(books: Seq<Book>, t: (usize, usize, usize)) -> bool {
    match verse_count(books, t.0 as int, t.1 as int) {
        Some(n) => (t.2 as int) < n,
        None => false,
    }
}

/// The reader is on an existing verse.
pub open spec fn on_a_verse(s: AppView) -> bool {
    verse_exists(s.books, (s.selected_book, s.selected_chapter, s.selected_verse))
}

/// Every search result names an existing verse.
pub open spec fn results_exist(s: AppView) -> bool {
    forall|i: int| 0 <= i < s.search_results.len() ==> verse_exists(s.books, #[trigger] s.search_results[i])
}

/// A reader just opened on a Bible with no empty part is on its first verse,
/// with no search results.
pub proof fn law_initial_state_on_a_verse(books: Seq<Book>)
    requires
        books.len() > 0,
        no_empty_parts(books),
    ensures
        on_a_verse(initial_state(books)),
        results_exist(initial_state(books)),
{
    assert(books[0].chapters@.len() > 0);
    assert(books[0].chapters@[0].verses@.len() > 0);
}

/// Over a Bible with no empty part, no key takes the reader off an existing
/// verse, and every search result keeps naming an existing verse.
#[verifier::spinoff_prover]
#[verifier::rlimit(50)]
pub proof fn law_key_step_keeps_reader_on_a_verse(s: AppView, k: Key)
    requires
        sizes_fit(s.books),
        flags_cover(s),
        no_empty_parts(s.books),
        on_a_verse(s),
        results_exist(s),
    ensures
        on_a_verse(key_step(s, k)),
        results_exist(key_step(s, k)),
{
    let t = key_step(s, k);
    if s.tree_selected < tree(s).len() {
        law_tree_rows_in_range(s.books, s.expanded_books, s.books.len() as int);
        assert(row_in_range(s.books, tree(s)[s.tree_selected as int]));
    }
    let q = lowercase(t.search_query);
    law_search_finds_exactly_the_hits(s.books, q);
    if s.search_cursor < s.search_results.len() {
        assert(verse_exists(s.books, s.search_results[s.search_cursor as int]));
    }
    let sb = s.selected_book as int;
    if sb + 1 < s.books.len() {
        assert(s.books[sb + 1].chapters@.len() > 0);
        assert(s.books[sb + 1].chapters@[0].verses@.len() > 0);
    }
    if 0 < sb <= s.books.len() {
        let b = sb - 1;
        assert(s.books[b].chapters@.len() > 0);
        assert(s.books[b].chapters@[s.books[b].chapters@.len() - 1].verses@.len() > 0);
    }
    let sc = s.selected_chapter as int;
    if 0 <= sb < s.books.len() {
        assert(s.books[sb].chapters@.len() > 0);
        if 0 < sc <= s.books[sb].chapters@.len() {
            assert(s.books[sb].chapters@[sc - 1].verses@.len() > 0);
        }
        if 0 <= sc + 1 < s.books[sb].chapters@.len() {
            assert(s.books[sb].chapters@[sc + 1].verses@.len() > 0);
        }
    }
    assert forall|i: int| 0 <= i < t.search_results.len() implies verse_exists(
        t.books,
        #[trigger] t.search_results[i],
    ) by {
        if t.search_results != s.search_results {
            assert(search_hits(s.books, q).contains(t.search_results[i]));
        }
    }
}

/// The parts of a Bible read out of a document: none is empty.
pub proof fn law_loaded_books_have_no_empty_part(books: Seq<Book>, data: JsonValue)
    requires
        books_view(books) == bible_of(data),
    ensures
        no_empty_parts(books),
{
    law_loaded_bible_well_formed(data);
    let bv = bible_of(data);
    assert forall|b: int| 0 <= b < books.len() implies {
        &&& #[trigger] books[b].chapters@.len() > 0
        &&& forall|c: int|
            0 <= c < books[b].chapters@.len() ==> #[trigger] books[b].chapters@[c].verses@.len() > 0
    } by {
        assert(bv[b] == books[b]@);
        assert(bv[b].chapters.len() > 0);
        assert forall|c: int| 0 <= c < books[b].chapters@.len() implies #[trigger] books[b].chapters@[c].verses@.len() > 0 by {
            assert(bv[b].chapters[c] == books[b].chapters@[c]@);
            assert(bv[b].chapters[c].verses.len() > 0);
        }
    }
}

} // verus!
