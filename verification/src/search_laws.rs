//! What the search finds: exactly the verses that hold the query.
use vstd::prelude::*;

use crate::app::{
    book_hits, chapter_hits, jump_spec, search_hits, search_spec, sizes_fit, verse_hits, AppView, Mode, Pane,
};
use crate::bible::{Book, Chapter, Verse};
use crate::text::{contains_seq, lowercase};

verus! {

/// Verse `t` exists and its lower-cased text holds `q`.
pub open spec fn is_hit(books: Seq<Book>, q: Seq<char>, t: (usize, usize, usize)) -> bool {
    &&& (t.0 as int) < books.len()
    &&& (t.1 as int) < books[t.0 as int].chapters@.len()
    &&& (t.2 as int) < books[t.0 as int].chapters@[t.1 as int].verses@.len()
    &&& contains_seq(lowercase(books[t.0 as int].chapters@[t.1 as int].verses@[t.2 as int].text@), q)
}

/// An element of a concatenation is an element of one of its parts.
proof fn lemma_concat_contains<A>(a: Seq<A>, b: Seq<A>, x: A)
    ensures
        (a + b).contains(x) <==> a.contains(x) || b.contains(x),
{
    if (a + b).contains(x) {
        let i = choose|i: int| 0 <= i < (a + b).len() && (a + b)[i] == x;
        if i < a.len() {
            assert(a[i] == x);
        } else {
            assert(b[i - a.len()] == x);
        }
    }
    if a.contains(x) {
        let i = choose|i: int| 0 <= i < a.len() && a[i] == x;
        assert((a + b)[i] == x);
    }
    if b.contains(x) {
        let i = choose|i: int| 0 <= i < b.len() && b[i] == x;
        assert((a + b)[a.len() + i] == x);
    }
}

/// The hits among the first `k` verses of a chapter.
proof fn lemma_verse_hits(verses: Seq<Verse>, bi: int, ci: int, q: Seq<char>, k: int)
    requires
        0 <= k <= verses.len(),
        verses.len() <= usize::MAX,
    ensures
        forall|t: (usize, usize, usize)|
            #[trigger] verse_hits(verses, bi, ci, q, k).contains(t) <==> (t.0 == bi as usize
                && t.1 == ci as usize && (t.2 as int) < k && contains_seq(
                lowercase(verses[t.2 as int].text@),
                q,
            )),
    decreases k,
{
    if k > 0 {
        lemma_verse_hits(verses, bi, ci, q, k - 1);
        let prev = verse_hits(verses, bi, ci, q, k - 1);
        let extra = if contains_seq(lowercase(verses[k - 1].text@), q) {
            seq![(bi as usize, ci as usize, (k - 1) as usize)]
        } else {
            Seq::empty()
        };
        assert(verse_hits(verses, bi, ci, q, k) == prev + extra);
        assert forall|t: (usize, usize, usize)|
            #[trigger] verse_hits(verses, bi, ci, q, k).contains(t) <==> (t.0 == bi as usize
                && t.1 == ci as usize && (t.2 as int) < k && contains_seq(
                lowercase(verses[t.2 as int].text@),
                q,
            )) by {
            lemma_concat_contains(prev, extra, t);
            if extra.len() > 0 {
                assert(extra.contains(t) <==> t == (bi as usize, ci as usize, (k - 1) as usize))
                    by {
                    if extra.contains(t) {
                        let i = choose|i: int| 0 <= i < extra.len() && extra[i] == t;
                    }
                    if t == (bi as usize, ci as usize, (k - 1) as usize) {
                        assert(extra[0] == t);
                    }
                }
            }
        }
    }
}

/// The hits among the first `k` chapters of a book.
proof fn lemma_chapter_hits(chapters: Seq<Chapter>, bi: int, q: Seq<char>, k: int)
    requires
        0 <= k <= chapters.len(),
        chapters.len() <= usize::MAX,
        forall|c: int| 0 <= c < chapters.len() ==> #[trigger] chapters[c].verses@.len() <= usize::MAX,
    ensures
        forall|t: (usize, usize, usize)|
            #[trigger] chapter_hits(chapters, bi, q, k).contains(t) <==> (t.0 == bi as usize
                && (t.1 as int) < k && (t.2 as int) < chapters[t.1 as int].verses@.len()
                && contains_seq(lowercase(chapters[t.1 as int].verses@[t.2 as int].text@), q)),
    decreases k,
{
    if k > 0 {
        lemma_chapter_hits(chapters, bi, q, k - 1);
        let vs = chapters[k - 1].verses@;
        lemma_verse_hits(vs, bi, k - 1, q, vs.len() as int);
        let prev = chapter_hits(chapters, bi, q, k - 1);
        let extra = verse_hits(vs, bi, k - 1, q, vs.len() as int);
        assert(chapter_hits(chapters, bi, q, k) == prev + extra);
        assert forall|t: (usize, usize, usize)|
            #[trigger] chapter_hits(chapters, bi, q, k).contains(t) <==> (t.0 == bi as usize
                && (t.1 as int) < k && (t.2 as int) < chapters[t.1 as int].verses@.len()
                && contains_seq(lowercase(chapters[t.1 as int].verses@[t.2 as int].text@), q)) by {
            lemma_concat_contains(prev, extra, t);
            assert(extra.contains(t) <==> (t.0 == bi as usize && t.1 == (k - 1) as usize && (t.2 as int)
                < vs.len() && contains_seq(lowercase(vs[t.2 as int].text@), q)));
        }
    }
}

/// The hits among the first `k` books.
proof fn lemma_book_hits(books: Seq<Book>, q: Seq<char>, k: int)
    requires
        0 <= k <= books.len(),
        sizes_fit(books),
    ensures
        forall|t: (usize, usize, usize)|
            #[trigger] book_hits(books, q, k).contains(t) <==> ((t.0 as int) < k && is_hit(books, q, t)),
    decreases k,
{
    if k > 0 {
        lemma_book_hits(books, q, k - 1);
        let cs = books[k - 1].chapters@;
        assert(cs.len() <= usize::MAX);
        assert forall|c: int| 0 <= c < cs.len() implies #[trigger] cs[c].verses@.len() <= usize::MAX by {
            assert(books[k - 1].chapters@[c].verses@.len() <= usize::MAX);
        }
        lemma_chapter_hits(cs, k - 1, q, cs.len() as int);
        let prev = book_hits(books, q, k - 1);
        let extra = chapter_hits(cs, k - 1, q, cs.len() as int);
        assert(book_hits(books, q, k) == prev + extra);
        assert forall|t: (usize, usize, usize)|
            #[trigger] book_hits(books, q, k).contains(t) <==> ((t.0 as int) < k && is_hit(books, q, t)) by {
            lemma_concat_contains(prev, extra, t);
        }
    }
}

/// The search finds exactly the verses whose lower-cased text holds the
/// query: every hit names an existing verse that holds it, and every such
/// verse is a hit.
pub proof fn law_search_finds_exactly_the_hits(books: Seq<Book>, q: Seq<char>)
    requires
        sizes_fit(books),
    ensures
        forall|t: (usize, usize, usize)| #[trigger] search_hits(books, q).contains(t) <==> is_hit(books, q, t),
{
    lemma_book_hits(books, q, books.len() as int);
}

/// `a` comes before `b` in reading order.
pub open spec fn reads_before(a: (usize, usize, usize), b: (usize, usize, usize)) -> bool {
    a.0 < b.0 || (a.0 == b.0 && (a.1 < b.1 || (a.1 == b.1 && a.2 < b.2)))
}

/// The positions of `s` are in strict reading order.
pub open spec fn in_reading_order(s: Seq<(usize, usize, usize)>) -> bool {
    forall|i: int, j: int| 0 <= i < j < s.len() ==> reads_before(#[trigger] s[i], #[trigger] s[j])
}

/// Two runs in reading order, the first wholly before the second, make one.
proof fn lemma_concat_in_order(a: Seq<(usize, usize, usize)>, b: Seq<(usize, usize, usize)>)
    requires
        in_reading_order(a),
        in_reading_order(b),
        forall|x: (usize, usize, usize), y: (usize, usize, usize)|
            a.contains(x) && b.contains(y) ==> reads_before(x, y),
    ensures
        in_reading_order(a + b),
{
    assert forall|i: int, j: int| 0 <= i < j < (a + b).len() implies reads_before(
        #[trigger] (a + b)[i],
        #[trigger] (a + b)[j],
    ) by {
        if j < a.len() {
            assert((a + b)[i] == a[i] && (a + b)[j] == a[j]);
        } else if i >= a.len() {
            assert((a + b)[i] == b[i - a.len()] && (a + b)[j] == b[j - a.len()]);
        } else {
            assert((a + b)[i] == a[i] && (a + b)[j] == b[j - a.len()]);
            assert(a.contains(a[i]));
            assert(b.contains(b[j - a.len()]));
        }
    }
}

/// The hits among the first `k` verses of a chapter are in reading order.
proof fn lemma_verse_hits_ordered(verses: Seq<Verse>, bi: int, ci: int, q: Seq<char>, k: int)
    requires
        0 <= k <= verses.len(),
        verses.len() <= usize::MAX,
    ensures
        in_reading_order(verse_hits(verses, bi, ci, q, k)),
    decreases k,
{
    if k > 0 {
        lemma_verse_hits_ordered(verses, bi, ci, q, k - 1);
        lemma_verse_hits(verses, bi, ci, q, k - 1);
        let prev = verse_hits(verses, bi, ci, q, k - 1);
        let extra = if contains_seq(lowercase(verses[k - 1].text@), q) {
            seq![(bi as usize, ci as usize, (k - 1) as usize)]
        } else {
            Seq::empty()
        };
        assert forall|x: (usize, usize, usize), y: (usize, usize, usize)|
            prev.contains(x) && extra.contains(y) implies reads_before(x, y) by {
            let i = choose|i: int| 0 <= i < extra.len() && extra[i] == y;
        }
        lemma_concat_in_order(prev, extra);
        assert(verse_hits(verses, bi, ci, q, k) == prev + extra);
    }
}

/// The hits among the first `k` chapters of a book are in reading order.
proof fn lemma_chapter_hits_ordered(chapters: Seq<Chapter>, bi: int, q: Seq<char>, k: int)
    requires
        0 <= k <= chapters.len(),
        chapters.len() <= usize::MAX,
        forall|c: int| 0 <= c < chapters.len() ==> #[trigger] chapters[c].verses@.len() <= usize::MAX,
    ensures
        in_reading_order(chapter_hits(chapters, bi, q, k)),
    decreases k,
{
    if k > 0 {
        lemma_chapter_hits_ordered(chapters, bi, q, k - 1);
        lemma_chapter_hits(chapters, bi, q, k - 1);
        let vs = chapters[k - 1].verses@;
        lemma_verse_hits(vs, bi, k - 1, q, vs.len() as int);
        lemma_verse_hits_ordered(vs, bi, k - 1, q, vs.len() as int);
        let prev = chapter_hits(chapters, bi, q, k - 1);
        let extra = verse_hits(vs, bi, k - 1, q, vs.len() as int);
        assert forall|x: (usize, usize, usize), y: (usize, usize, usize)|
            prev.contains(x) && extra.contains(y) implies reads_before(x, y) by {
        }
        lemma_concat_in_order(prev, extra);
        assert(chapter_hits(chapters, bi, q, k) == prev + extra);
    }
}

/// The hits among the first `k` books are in reading order.
proof fn lemma_book_hits_ordered(books: Seq<Book>, q: Seq<char>, k: int)
    requires
        0 <= k <= books.len(),
        sizes_fit(books),
    ensures
        in_reading_order(book_hits(books, q, k)),
    decreases k,
{
    if k > 0 {
        lemma_book_hits_ordered(books, q, k - 1);
        lemma_book_hits(books, q, k - 1);
        let cs = books[k - 1].chapters@;
        assert(cs.len() <= usize::MAX);
        assert forall|c: int| 0 <= c < cs.len() implies #[trigger] cs[c].verses@.len() <= usize::MAX by {
            assert(books[k - 1].chapters@[c].verses@.len() <= usize::MAX);
        }
        lemma_chapter_hits(cs, k - 1, q, cs.len() as int);
        lemma_chapter_hits_ordered(cs, k - 1, q, cs.len() as int);
        let prev = book_hits(books, q, k - 1);
        let extra = chapter_hits(cs, k - 1, q, cs.len() as int);
        assert forall|x: (usize, usize, usize), y: (usize, usize, usize)|
            prev.contains(x) && extra.contains(y) implies reads_before(x, y) by {
        }
        lemma_concat_in_order(prev, extra);
        assert(book_hits(books, q, k) == prev + extra);
    }
}

/// The hits come in reading order: by book, then chapter, then verse, each
/// verse at most once.
pub proof fn law_search_hits_in_reading_order(books: Seq<Book>, q: Seq<char>)
    requires
        sizes_fit(books),
    ensures
        in_reading_order(search_hits(books, q)),
{
    lemma_book_hits_ordered(books, q, books.len() as int);
}

/// Opening a hit of the search for the query opens an existing verse that
/// holds the (lower-cased) query, in the reader.
pub proof fn law_jump_opens_a_hit(s: AppView)
    requires
        sizes_fit(s.books),
        s.search_results == search_hits(s.books, lowercase(s.search_query)),
        s.search_cursor < s.search_results.len(),
    ensures
        is_hit(
            s.books,
            lowercase(s.search_query),
            (
                jump_spec(s).selected_book,
                jump_spec(s).selected_chapter,
                jump_spec(s).selected_verse,
            ),
        ),
        jump_spec(s).mode == Mode::Normal,
        jump_spec(s).active_pane == Pane::Reader,
{
    law_search_finds_exactly_the_hits(s.books, lowercase(s.search_query));
    assert(s.search_results.contains(s.search_results[s.search_cursor as int]));
}

/// A text that holds `q2` holds every run that `q2` holds.
proof fn lemma_contains_trans(text: Seq<char>, q2: Seq<char>, q1: Seq<char>)
    requires
        contains_seq(text, q2),
        contains_seq(q2, q1),
    ensures
        contains_seq(text, q1),
{
    let i = choose|i: int|
        0 <= i && i + q2.len() <= text.len() && #[trigger] text.subrange(i, i + q2.len()) == q2;
    let j = choose|j: int|
        0 <= j && j + q1.len() <= q2.len() && #[trigger] q2.subrange(j, j + q1.len()) == q1;
    assert(text.subrange(i + j, i + j + q1.len()) =~= q1) by {
        assert forall|m: int| 0 <= m < q1.len() implies text.subrange(i + j, i + j + q1.len())[m]
            == q1[m] by {
            assert(q1[m] == q2.subrange(j, j + q1.len())[m]);
            assert(q2[j + m] == text.subrange(i, i + q2.len())[j + m]);
        }
    }
}

/// Searching for a query that holds the one searched before finds no verse
/// that was not found before: lengthening the query keeps only earlier hits,
/// wherever the lower-cased longer query holds the lower-cased shorter one.
pub proof fn law_longer_query_keeps_only_earlier_hits(s: AppView, c: char)
    requires
        sizes_fit(s.books),
        lowercase(s.search_query).len() > 0,
        contains_seq(lowercase(s.search_query.push(c)), lowercase(s.search_query)),
    ensures
        forall|t: (usize, usize, usize)|
            #[trigger] search_spec(AppView { search_query: s.search_query.push(c), ..s }).search_results.contains(t)
                ==> search_spec(s).search_results.contains(t),
{
    let q1 = lowercase(s.search_query);
    let q2 = lowercase(s.search_query.push(c));
    law_search_finds_exactly_the_hits(s.books, q1);
    law_search_finds_exactly_the_hits(s.books, q2);
    assert forall|t: (usize, usize, usize)|
        #[trigger] search_spec(AppView { search_query: s.search_query.push(c), ..s }).search_results.contains(t)
            implies search_spec(s).search_results.contains(t) by {
        if q2.len() > 0 {
            assert(search_hits(s.books, q2).contains(t));
            let text = lowercase(
                s.books[t.0 as int].chapters@[t.1 as int].verses@[t.2 as int].text@,
            );
            lemma_contains_trans(text, q2, q1);
        }
    }
}

} // verus!
