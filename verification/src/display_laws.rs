//! What the screen shows, related to the state it is computed from.
use vstd::prelude::*;

use vstd::utf8::encode_utf8;

use crate::app::{book_rows, testament_label, tree, verse_count, AppView, Mode, TreeItemView};
use crate::bible::{Book, Testament, Verse};
use crate::display::{
    chapter_lines, mode_name, pad3, preview, reference_text, row_text, search_rows_spec,
    search_rows_upto, ReaderLineView, TreeRowView,
};
use crate::laws::results_exist;
use crate::text::{decimal, uppercase};

verus! {

/// Each row of the tree pane shows its row of the book tree: a heading for
/// a testament, the book's name and chapter count for a book, `Ch n` for a
/// chapter. Exactly the row under the tree selection is marked selected, and
/// a chapter row is marked open exactly when it names the chapter open in the
/// reader.
pub proof fn law_tree_rows_show_their_rows(s: AppView, r: int)
    requires
        0 <= r < tree(s).len(),
    ensures
        tree(s)[r] matches TreeItemView::Testament(name) ==> row_text(s, r) == (TreeRowView::Heading {
            text: "  "@ + uppercase(name),
        }),
        tree(s)[r] matches TreeItemView::Book { book_idx, .. } ==> (row_text(s, r) matches TreeRowView::Book {
            name,
            count,
            selected,
            ..
        } && name == s.books[book_idx as int].name@ && count == " "@ + decimal(
            s.books[book_idx as int].chapters@.len(),
        ) && (selected <==> r == s.tree_selected)),
        tree(s)[r] matches TreeItemView::Chapter { book_idx, chapter_idx } ==> (row_text(s, r) matches TreeRowView::Chapter {
            label,
            selected,
            open,
            ..
        } && label == "Ch "@ + decimal(
            s.books[book_idx as int].chapters@[chapter_idx as int].number as nat,
        ) && (selected <==> r == s.tree_selected) && (open <==> (book_idx == s.selected_book
            && chapter_idx == s.selected_chapter))),
{
}

/// A chapter row is marked open only where it names the book and the chapter
/// open in the reader.
pub proof fn law_only_the_reader_chapter_is_open(s: AppView, r: int)
    requires
        0 <= r < tree(s).len(),
        (row_text(s, r) matches TreeRowView::Chapter { open, .. } && open),
    ensures
        tree(s)[r] == (TreeItemView::Chapter {
            book_idx: s.selected_book,
            chapter_idx: s.selected_chapter,
        }),
{
}

/// The reader's lines for the first `k` verses: two per verse, the verse's
/// number and text and then a blank line; exactly the line of the selected
/// verse is marked selected.
pub proof fn law_reader_lines_mark_only_the_selected_verse(verses: Seq<Verse>, sel: int, k: int)
    requires
        0 <= k <= verses.len(),
    ensures
        chapter_lines(verses, sel, k).len() == 2 * k,
        forall|i: int|
            #![trigger chapter_lines(verses, sel, k)[2 * i]]
            0 <= i < k ==> (chapter_lines(verses, sel, k)[2 * i] matches ReaderLineView::Verse {
                number,
                text,
                selected,
            } && number == pad3(decimal(verses[i].number as nat)) + " "@ && text == verses[i].text@
                && (selected <==> i == sel)),
        forall|i: int|
            #![trigger chapter_lines(verses, sel, k)[2 * i + 1]]
            0 <= i < k ==> chapter_lines(verses, sel, k)[2 * i + 1] is Blank,
    decreases k,
{
    if k > 0 {
        law_reader_lines_mark_only_the_selected_verse(verses, sel, k - 1);
        let prev = chapter_lines(verses, sel, k - 1);
        let all = chapter_lines(verses, sel, k);
        assert forall|i: int| 0 <= i < k implies #[trigger] all[2 * i] == if i < k - 1 {
            prev[2 * i]
        } else {
            all[2 * (k - 1)]
        } by {}
        assert forall|i: int| 0 <= i < k implies #[trigger] all[2 * i + 1] == if i < k - 1 {
            prev[2 * i + 1]
        } else {
            all[2 * (k - 1) + 1]
        } by {}
    }
}

/// Where every result names an existing verse, the search box lists one row
/// per result, in order: the row of result `i` gives that verse's reference
/// and preview, and exactly the row under the cursor is marked selected.
pub proof fn law_search_rows_follow_the_results(s: AppView)
    requires
        results_exist(s),
    ensures
        search_rows_spec(s).len() == s.search_results.len(),
        forall|i: int|
            #![trigger search_rows_spec(s)[i]]
            0 <= i < s.search_results.len() ==> {
                let t = s.search_results[i];
                let c = s.books[t.0 as int].chapters@[t.1 as int];
                let v = c.verses@[t.2 as int];
                &&& search_rows_spec(s)[i].reference == reference_text(
                    s.books[t.0 as int].name@,
                    c.number,
                    v.number,
                )
                &&& search_rows_spec(s)[i].preview == preview(v.text@)
                &&& (search_rows_spec(s)[i].selected <==> i == s.search_cursor)
            },
{
    lemma_search_rows_upto(s, s.search_results.len() as int);
}

/// The rows for the first `k` results, where every result names a verse.
proof fn lemma_search_rows_upto(s: AppView, k: int)
    requires
        results_exist(s),
        0 <= k <= s.search_results.len(),
    ensures
        search_rows_upto(s, k).len() == k,
        forall|i: int|
            #![trigger search_rows_upto(s, k)[i]]
            0 <= i < k ==> {
                let t = s.search_results[i];
                let c = s.books[t.0 as int].chapters@[t.1 as int];
                let v = c.verses@[t.2 as int];
                &&& search_rows_upto(s, k)[i].reference == reference_text(
                    s.books[t.0 as int].name@,
                    c.number,
                    v.number,
                )
                &&& search_rows_upto(s, k)[i].preview == preview(v.text@)
                &&& (search_rows_upto(s, k)[i].selected <==> i == s.search_cursor)
            },
    decreases k,
{
    if k > 0 {
        lemma_search_rows_upto(s, k - 1);
        let t = s.search_results[k - 1];
        assert(crate::laws::verse_exists(s.books, t));
        assert(verse_count(s.books, t.0 as int, t.1 as int) is Some);
        let prev = search_rows_upto(s, k - 1);
        let all = search_rows_upto(s, k);
        assert forall|i: int| 0 <= i < k - 1 implies #[trigger] all[i] == prev[i] by {}
    }
}

/// A verse of at most 40 bytes is shown whole; a longer one is shown as its
/// first 40 characters (all of them, if it has fewer) followed by `...`.
pub proof fn law_preview_cuts_long_verses(t: Seq<char>)
    ensures
        encode_utf8(t).len() <= 40 ==> preview(t) == t,
        encode_utf8(t).len() > 40 ==> {
            let m = if t.len() < 40 { t.len() as int } else { 40 };
            &&& preview(t).len() == m + 3
            &&& preview(t).take(m) == t.take(m)
            &&& preview(t).skip(m) == "..."@
        },
{
    reveal_strlit("...");
    if encode_utf8(t).len() > 40 {
        let m = if t.len() < 40 { t.len() as int } else { 40 };
        assert(preview(t).take(m) =~= t.take(m));
        assert(preview(t).skip(m) =~= "..."@);
    }
}

/// The status bar names the modes MENU, NORMAL and SEARCH.
pub proof fn law_mode_names()
    ensures
        mode_name(Mode::Menu) == "MENU"@,
        mode_name(Mode::Normal) == "NORMAL"@,
        mode_name(Mode::Search) == "SEARCH"@,
{
}

/// The tree's headings read "Old Testament" and "New Testament", and one
/// stands in front of the first book and wherever the testament changes.
pub proof fn law_tree_headings(books: Seq<Book>, e: Seq<bool>, i: int)
    requires
        0 <= i < books.len(),
    ensures
        testament_label(Testament::Old) == "Old Testament"@,
        testament_label(Testament::New) == "New Testament"@,
        (i == 0 || books[i - 1].testament != books[i].testament) ==> book_rows(books, e, i)[0]
            == TreeItemView::Testament(testament_label(books[i].testament)),
        !(i == 0 || books[i - 1].testament != books[i].testament) ==> book_rows(books, e, i)[0]
            == (TreeItemView::Book { book_idx: i as usize, expanded: e[i] }),
{
}

} // verus!
