//! What holds of every Bible read out of a document.
use vstd::prelude::*;
use vstd::relations::{sorted_by, total_ordering};
use vstd::seq_lib::lemma_no_dup_in_concat;

use crate::bible::{
    bible_of, book_chapters, book_name, books_for, canon_len, chapter_verses, chapters_for,
    json_get, key_numbers, sorted_key_numbers, verses_for, BookView, ChapterView, JsonValue,
    Testament, VerseView,
};
use crate::text::{decimal, num_leq, parse_u32};

verus! {

/// No book, and no chapter, of what is read is empty.
pub open spec fn nothing_empty(books: Seq<BookView>) -> bool {
    forall|i: int|
        0 <= i < books.len() ==> {
            &&& #[trigger] books[i].chapters.len() > 0
            &&& forall|j: int|
                0 <= j < books[i].chapters.len() ==> #[trigger] books[i].chapters[j].verses.len()
                    > 0
        }
}

/// The chapters of every book, and the verses of every chapter, come by
/// ascending number.
pub open spec fn numbers_ascend(books: Seq<BookView>) -> bool {
    forall|i: int|
        0 <= i < books.len() ==> {
            &&& chapters_ascend(#[trigger] books[i].chapters)
            &&& forall|j: int|
                0 <= j < books[i].chapters.len() ==> verses_ascend(
                    #[trigger] books[i].chapters[j].verses,
                )
        }
}

/// The chapters come by ascending number.
pub open spec fn chapters_ascend(cs: Seq<ChapterView>) -> bool {
    forall|a: int, b: int| 0 <= a < b < cs.len() ==> #[trigger] cs[a].number <= #[trigger] cs[b].number
}

/// The verses come by ascending number.
pub open spec fn verses_ascend(vs: Seq<VerseView>) -> bool {
    forall|a: int, b: int| 0 <= a < b < vs.len() ==> #[trigger] vs[a].number <= #[trigger] vs[b].number
}

/// The key numbers of a value come sorted.
proof fn lemma_sorted_keys_sorted(v: JsonValue)
    ensures
        sorted_by(sorted_key_numbers(v), num_leq()),
{
    match v {
        JsonValue::Object(entries) => {
            let order = num_leq();
            assert(total_ordering(order));
            key_numbers(entries@).lemma_sort_by_ensures(order);
        },
        _ => {},
    }
}

/// The verses read for ascending numbers come by ascending number, none
/// above the last of the numbers.
proof fn lemma_verses_for_ascend(obj: JsonValue, nums: Seq<u32>)
    requires
        sorted_by(nums, num_leq()),
    ensures
        verses_ascend(verses_for(obj, nums)),
        nums.len() > 0 ==> forall|r: int|
            0 <= r < verses_for(obj, nums).len() ==> #[trigger] verses_for(obj, nums)[r].number
                <= nums.last(),
    decreases nums.len(),
{
    if nums.len() > 0 {
        let init = nums.drop_last();
        assert(sorted_by(init, num_leq()));
        lemma_verses_for_ascend(obj, init);
        let prev = verses_for(obj, init);
        let all = verses_for(obj, nums);
        assert forall|r: int| 0 <= r < prev.len() implies #[trigger] prev[r].number <= nums.last() by {
            if init.len() > 0 {
                assert(num_leq()(nums[init.len() - 1], nums[nums.len() - 1]));
            }
        }
        assert forall|r: int| 0 <= r < all.len() implies #[trigger] all[r].number <= nums.last() by {
            if r < prev.len() {
                assert(all[r] == prev[r]);
            }
        }
        assert forall|a: int, b: int| 0 <= a < b < all.len() implies #[trigger] all[a].number
            <= #[trigger] all[b].number by {
            if b < prev.len() {
                assert(all[a] == prev[a] && all[b] == prev[b]);
            } else {
                assert(all[a] == prev[a]);
            }
        }
    }
}

/// The chapters read for ascending numbers come by ascending number, none
/// above the last of the numbers, each with at least one verse, in order.
proof fn lemma_chapters_for_ascend(obj: JsonValue, nums: Seq<u32>)
    requires
        sorted_by(nums, num_leq()),
    ensures
        chapters_ascend(chapters_for(obj, nums)),
        forall|r: int|
            0 <= r < chapters_for(obj, nums).len() ==> {
                &&& #[trigger] chapters_for(obj, nums)[r].verses.len() > 0
                &&& verses_ascend(chapters_for(obj, nums)[r].verses)
                &&& nums.len() > 0 ==> chapters_for(obj, nums)[r].number <= nums.last()
            },
    decreases nums.len(),
{
    if nums.len() > 0 {
        let init = nums.drop_last();
        assert(sorted_by(init, num_leq()));
        lemma_chapters_for_ascend(obj, init);
        let prev = chapters_for(obj, init);
        let all = chapters_for(obj, nums);
        if all.len() > prev.len() {
            let ch = crate::bible::json_get(obj, crate::text::decimal(nums.last() as nat))->0;
            lemma_sorted_keys_sorted(ch);
            lemma_verses_for_ascend(ch, sorted_key_numbers(ch));
            assert(all[prev.len() as int].verses == chapter_verses(ch));
            assert(all[prev.len() as int].number == nums.last());
        }
        assert forall|r: int|
            0 <= r < all.len() implies {
                &&& #[trigger] all[r].verses.len() > 0
                &&& verses_ascend(all[r].verses)
                &&& all[r].number <= nums.last()
            } by {
            if r < prev.len() {
                assert(all[r] == prev[r]);
                if init.len() > 0 {
                    assert(num_leq()(nums[init.len() - 1], nums[nums.len() - 1]));
                }
            }
        }
        assert forall|a: int, b: int| 0 <= a < b < all.len() implies #[trigger] all[a].number
            <= #[trigger] all[b].number by {
            assert(all[a] == prev[a]);
            if b < prev.len() {
                assert(all[b] == prev[b]);
            } else {
                assert(b == prev.len());
                assert(all[b].number == nums.last());
                assert(init.len() > 0);
                assert(prev[a].verses.len() > 0);
                assert(prev[a].number <= init.last());
                assert(num_leq()(nums[init.len() - 1], nums[nums.len() - 1]));
            }
        }
    }
}

/// The books read out of the first `k` canonical names have chapters, and
/// verses, by ascending number, and none is empty.
proof fn lemma_books_for_well_formed(data: JsonValue, k: int)
    ensures
        nothing_empty(books_for(data, k)),
        numbers_ascend(books_for(data, k)),
    decreases k,
{
    if k > 0 {
        lemma_books_for_well_formed(data, k - 1);
        let prev = books_for(data, k - 1);
        let all = books_for(data, k);
        if all.len() > prev.len() {
            let b = crate::bible::json_get(data, crate::bible::book_name((k - 1) as usize))->0;
            lemma_sorted_keys_sorted(b);
            lemma_chapters_for_ascend(b, sorted_key_numbers(b));
            assert(all[prev.len() as int].chapters == book_chapters(b));
        }
        assert forall|i: int| 0 <= i < all.len() implies #[trigger] all[i].chapters.len() > 0 && (
        forall|j: int| 0 <= j < all[i].chapters.len() ==> #[trigger] all[i].chapters[j].verses.len() > 0)
            by {
            if i < prev.len() {
                assert(all[i] == prev[i]);
            }
        }
        assert forall|i: int| 0 <= i < all.len() implies chapters_ascend(#[trigger] all[i].chapters) && (
        forall|j: int| 0 <= j < all[i].chapters.len() ==> verses_ascend(
            #[trigger] all[i].chapters[j].verses,
        )) by {
            if i < prev.len() {
                assert(all[i] == prev[i]);
            }
        }
    }
}

/// Every Bible read out of a document has no empty book and no empty
/// chapter, and its chapters and verses come by ascending number.
pub proof fn law_loaded_bible_well_formed(data: JsonValue)
    ensures
        nothing_empty(bible_of(data)),
        numbers_ascend(bible_of(data)),
{
    lemma_books_for_well_formed(data, canon_len());
}

/// The numbers that the keys of object `v` parse to are all different.
pub open spec fn distinct_numbers(v: JsonValue) -> bool {
    match v {
        JsonValue::Object(entries) => key_numbers(entries@).no_duplicates(),
        _ => true,
    }
}

/// The keys of object `v` are all different, and each key that is a number
/// is written canonically (no sign, no leading zero).
pub open spec fn keys_distinct_canonical(v: JsonValue) -> bool {
    match v {
        JsonValue::Object(entries) => {
            &&& forall|i: int, j: int|
                0 <= i < j < entries@.len() ==> #[trigger] entries@[i].0@ != #[trigger] entries@[j].0@
            &&& forall|i: int|
                0 <= i < entries@.len() && #[trigger] parse_u32(entries@[i].0@) is Some ==> entries@[i].0@
                    == decimal(parse_u32(entries@[i].0@)->0 as nat)
        },
        _ => true,
    }
}

/// In every canonical book of `data`, and in every chapter object of such a
/// book, the keys parse to different numbers.
pub open spec fn numbers_distinct_in(data: JsonValue) -> bool {
    forall|i: usize|
        i < 66 ==> match #[trigger] json_get(data, book_name(i)) {
            Some(b) => distinct_numbers(b) && forall|n: u32|
                match #[trigger] json_get(b, decimal(n as nat)) {
                    Some(ch) => distinct_numbers(ch),
                    None => true,
                },
            None => true,
        }
}

/// The chapters come by strictly ascending number.
pub open spec fn chapters_strictly_ascend(cs: Seq<ChapterView>) -> bool {
    forall|a: int, b: int| 0 <= a < b < cs.len() ==> #[trigger] cs[a].number < #[trigger] cs[b].number
}

/// The verses come by strictly ascending number.
pub open spec fn verses_strictly_ascend(vs: Seq<VerseView>) -> bool {
    forall|a: int, b: int| 0 <= a < b < vs.len() ==> #[trigger] vs[a].number < #[trigger] vs[b].number
}

/// The chapters of every book, and the verses of every chapter, come by
/// strictly ascending number.
pub open spec fn numbers_strictly_ascend(books: Seq<BookView>) -> bool {
    forall|i: int|
        0 <= i < books.len() ==> {
            &&& chapters_strictly_ascend(#[trigger] books[i].chapters)
            &&& forall|j: int|
                0 <= j < books[i].chapters.len() ==> verses_strictly_ascend(
                    #[trigger] books[i].chapters[j].verses,
                )
        }
}

/// The numbers strictly ascend.
pub open spec fn strictly_ascending(s: Seq<u32>) -> bool {
    forall|i: int, j: int| 0 <= i < j < s.len() ==> #[trigger] s[i] < #[trigger] s[j]
}

/// Every number of `key_numbers(entries)` is what some key parses to.
proof fn lemma_key_numbers_origin(entries: Seq<(String, JsonValue)>, x: u32)
    requires
        key_numbers(entries).contains(x),
    ensures
        exists|j: int| 0 <= j < entries.len() && #[trigger] parse_u32(entries[j].0@) == Some(x),
    decreases entries.len(),
{
    let init = entries.drop_last();
    let extra = match parse_u32(entries.last().0@) {
        Some(n) => seq![n],
        None => Seq::<u32>::empty(),
    };
    assert(key_numbers(entries) == key_numbers(init) + extra);
    let k = choose|k: int| 0 <= k < key_numbers(entries).len() && key_numbers(entries)[k] == x;
    if k < key_numbers(init).len() {
        assert(key_numbers(init)[k] == x);
        lemma_key_numbers_origin(init, x);
        let j = choose|j: int| 0 <= j < init.len() && #[trigger] parse_u32(init[j].0@) == Some(x);
        assert(entries[j] == init[j]);
    } else {
        assert(extra[k - key_numbers(init).len()] == x);
        assert(parse_u32(entries[entries.len() - 1].0@) == Some(x));
    }
}

/// Keys that are all different and written canonically parse to different
/// numbers.
pub proof fn law_canonical_keys_parse_to_distinct_numbers(v: JsonValue)
    requires
        keys_distinct_canonical(v),
    ensures
        distinct_numbers(v),
{
    match v {
        JsonValue::Object(entries) => {
            lemma_canonical_prefix_distinct(entries@, entries@.len() as int);
            assert(entries@.take(entries@.len() as int) =~= entries@);
        },
        _ => {},
    }
}

/// The first `k` members of canonical, distinct keys parse to distinct numbers.
proof fn lemma_canonical_prefix_distinct(entries: Seq<(String, JsonValue)>, k: int)
    requires
        0 <= k <= entries.len(),
        forall|i: int, j: int|
            0 <= i < j < entries.len() ==> #[trigger] entries[i].0@ != #[trigger] entries[j].0@,
        forall|i: int|
            0 <= i < entries.len() && #[trigger] parse_u32(entries[i].0@) is Some ==> entries[i].0@
                == decimal(parse_u32(entries[i].0@)->0 as nat),
    ensures
        key_numbers(entries.take(k)).no_duplicates(),
    decreases k,
{
    if k > 0 {
        lemma_canonical_prefix_distinct(entries, k - 1);
        let pre = entries.take(k);
        let init = entries.take(k - 1);
        assert(pre.drop_last() =~= init);
        let a = key_numbers(init);
        let extra = match parse_u32(pre.last().0@) {
            Some(n) => seq![n],
            None => Seq::<u32>::empty(),
        };
        assert(key_numbers(pre) == a + extra);
        if extra.len() > 0 {
            let n = extra[0];
            assert forall|i: int, j: int| 0 <= i < a.len() && 0 <= j < extra.len() implies a[i]
                != extra[j] by {
                if a[i] == n {
                    assert(a.contains(n));
                    lemma_key_numbers_origin(init, n);
                    let m = choose|m: int| 0 <= m < init.len() && #[trigger] parse_u32(init[m].0@) == Some(n);
                    assert(init[m] == entries[m]);
                    assert(pre.last() == entries[k - 1]);
                    assert(parse_u32(entries[m].0@) is Some);
                    assert(parse_u32(entries[k - 1].0@) is Some);
                    assert(entries[m].0@ != entries[k - 1].0@);
                }
            }
            lemma_no_dup_in_concat(a, extra);
        } else {
            assert(key_numbers(pre) =~= a);
        }
    }
}

/// The sorted key numbers of an object whose keys parse to different numbers
/// strictly ascend.
proof fn lemma_sorted_keys_strict(v: JsonValue)
    requires
        distinct_numbers(v),
    ensures
        strictly_ascending(sorted_key_numbers(v)),
{
    match v {
        JsonValue::Object(entries) => {
            let s = key_numbers(entries@);
            let order = num_leq();
            assert(total_ordering(order));
            s.lemma_sort_by_ensures(order);
            let t = s.sort_by(order);
            s.lemma_multiset_has_no_duplicates();
            t.lemma_multiset_has_no_duplicates_conv();
            assert forall|i: int, j: int| 0 <= i < j < t.len() implies #[trigger] t[i] < #[trigger] t[j] by {
                assert(order(t[i], t[j]));
            }
        },
        _ => {},
    }
}

/// The verses read for strictly ascending numbers strictly ascend, none above
/// the last of the numbers.
proof fn lemma_verses_for_strict(obj: JsonValue, nums: Seq<u32>)
    requires
        strictly_ascending(nums),
    ensures
        verses_strictly_ascend(verses_for(obj, nums)),
        nums.len() > 0 ==> forall|r: int|
            0 <= r < verses_for(obj, nums).len() ==> #[trigger] verses_for(obj, nums)[r].number
                <= nums.last(),
    decreases nums.len(),
{
    if nums.len() > 0 {
        let init = nums.drop_last();
        lemma_verses_for_strict(obj, init);
        let prev = verses_for(obj, init);
        let all = verses_for(obj, nums);
        assert forall|r: int| 0 <= r < prev.len() implies #[trigger] prev[r].number < nums.last() by {
            assert(nums[init.len() - 1] < nums[nums.len() - 1]);
        }
        assert forall|r: int| 0 <= r < all.len() implies #[trigger] all[r].number <= nums.last() by {
            if r < prev.len() {
                assert(all[r] == prev[r]);
            }
        }
        assert forall|a: int, b: int| 0 <= a < b < all.len() implies #[trigger] all[a].number
            < #[trigger] all[b].number by {
            assert(all[a] == prev[a]);
            if b < prev.len() {
                assert(all[b] == prev[b]);
            }
        }
    }
}

/// The chapters read for strictly ascending numbers strictly ascend, none
/// above the last of the numbers, and so do the verses of each.
proof fn lemma_chapters_for_strict(obj: JsonValue, nums: Seq<u32>)
    requires
        strictly_ascending(nums),
        forall|n: u32|
            match #[trigger] json_get(obj, decimal(n as nat)) {
                Some(ch) => distinct_numbers(ch),
                None => true,
            },
    ensures
        chapters_strictly_ascend(chapters_for(obj, nums)),
        forall|r: int|
            0 <= r < chapters_for(obj, nums).len() ==> {
                &&& verses_strictly_ascend(#[trigger] chapters_for(obj, nums)[r].verses)
                &&& nums.len() > 0 ==> chapters_for(obj, nums)[r].number <= nums.last()
            },
    decreases nums.len(),
{
    if nums.len() > 0 {
        let init = nums.drop_last();
        lemma_chapters_for_strict(obj, init);
        let prev = chapters_for(obj, init);
        let all = chapters_for(obj, nums);
        if all.len() > prev.len() {
            let ch = json_get(obj, decimal(nums.last() as nat))->0;
            assert(distinct_numbers(ch));
            lemma_sorted_keys_strict(ch);
            lemma_verses_for_strict(ch, sorted_key_numbers(ch));
            assert(all[prev.len() as int].verses == chapter_verses(ch));
            assert(all[prev.len() as int].number == nums.last());
        }
        assert forall|r: int| 0 <= r < prev.len() implies #[trigger] prev[r].number < nums.last() by {
            assert(verses_strictly_ascend(prev[r].verses));
            assert(nums[init.len() - 1] < nums[nums.len() - 1]);
        }
        assert forall|r: int|
            0 <= r < all.len() implies {
                &&& verses_strictly_ascend(#[trigger] all[r].verses)
                &&& all[r].number <= nums.last()
            } by {
            if r < prev.len() {
                assert(all[r] == prev[r]);
            }
        }
        assert forall|a: int, b: int| 0 <= a < b < all.len() implies #[trigger] all[a].number
            < #[trigger] all[b].number by {
            assert(all[a] == prev[a]);
            if b < prev.len() {
                assert(all[b] == prev[b]);
            }
        }
    }
}

/// The books read out of the first `k` canonical names have chapters, and
/// verses, by strictly ascending number.
proof fn lemma_books_for_strict(data: JsonValue, k: int)
    requires
        k <= 66,
        numbers_distinct_in(data),
    ensures
        numbers_strictly_ascend(books_for(data, k)),
    decreases k,
{
    if k > 0 {
        lemma_books_for_strict(data, k - 1);
        let prev = books_for(data, k - 1);
        let all = books_for(data, k);
        if all.len() > prev.len() {
            let i = (k - 1) as usize;
            let b = json_get(data, book_name(i))->0;
            assert(distinct_numbers(b));
            lemma_sorted_keys_strict(b);
            lemma_chapters_for_strict(b, sorted_key_numbers(b));
            assert(all[prev.len() as int].chapters == book_chapters(b));
        }
        assert forall|i: int| 0 <= i < all.len() implies chapters_strictly_ascend(
            #[trigger] all[i].chapters,
        ) && (forall|j: int|
            0 <= j < all[i].chapters.len() ==> verses_strictly_ascend(
                #[trigger] all[i].chapters[j].verses,
            )) by {
            if i < prev.len() {
                assert(all[i] == prev[i]);
            }
        }
    }
}

/// Where the keys of every book and chapter object parse to different numbers
/// (as distinct keys written canonically do), the chapters and verses read
/// come by strictly ascending number.
pub proof fn law_distinct_numbers_strictly_ascend(data: JsonValue)
    requires
        numbers_distinct_in(data),
    ensures
        numbers_strictly_ascend(bible_of(data)),
{
    lemma_books_for_strict(data, canon_len());
}

/// The canon opens with Genesis, its Old Testament ends with Malachi, its
/// New Testament opens with Matthew and the canon ends with Revelation.
pub proof fn law_canon_boundaries()
    ensures
        book_name(0) == "Genesis"@,
        book_name(38) == "Malachi"@,
        book_name(39) == "Matthew"@,
        book_name(65) == "Revelation"@,
{
}

/// Every book read from the first `k` canonical names bears the name at some
/// place below `k`, and is of the Old Testament exactly when that place is
/// one of the first 39 (Genesis through Malachi).
proof fn lemma_books_for_testament(data: JsonValue, k: int)
    requires
        k <= 66,
    ensures
        forall|j: int|
            #![trigger books_for(data, k)[j]]
            0 <= j < books_for(data, k).len() ==> exists|i: usize|
                (i as int) < k && i < 66 && #[trigger] book_name(i) == books_for(data, k)[j].name && (
                books_for(data, k)[j].testament == Testament::Old <==> i < 39),
    decreases k,
{
    if k > 0 {
        lemma_books_for_testament(data, k - 1);
        let prev = books_for(data, k - 1);
        let all = books_for(data, k);
        assert forall|j: int| #![trigger all[j]] 0 <= j < all.len() implies exists|i: usize|
            (i as int) < k && i < 66 && #[trigger] book_name(i) == all[j].name && (all[j].testament
                == Testament::Old <==> i < 39) by {
            if j < prev.len() {
                assert(all[j] == prev[j]);
                let i = choose|i: usize|
                    (i as int) < k - 1 && i < 66 && #[trigger] book_name(i) == prev[j].name && (
                    prev[j].testament == Testament::Old <==> i < 39);
                assert(book_name(i) == all[j].name);
            } else {
                let i = (k - 1) as usize;
                assert(j == prev.len());
                assert(book_name(i) == all[j].name);
            }
        }
    }
}

/// Each verse read for `nums` is the string at the canonical key of its
/// number.
proof fn lemma_verses_for_from(obj: JsonValue, nums: Seq<u32>)
    ensures
        forall|r: int|
            0 <= r < verses_for(obj, nums).len() ==> (json_get(
                obj,
                decimal(#[trigger] verses_for(obj, nums)[r].number as nat),
            ) matches Some(JsonValue::Text(t)) && t@ == verses_for(obj, nums)[r].text),
    decreases nums.len(),
{
    if nums.len() > 0 {
        lemma_verses_for_from(obj, nums.drop_last());
        let prev = verses_for(obj, nums.drop_last());
        let all = verses_for(obj, nums);
        assert forall|r: int| 0 <= r < prev.len() implies #[trigger] all[r] == prev[r] by {}
    }
}

/// Each chapter read for `nums` holds the verses of the object at the
/// canonical key of its number.
proof fn lemma_chapters_for_from(obj: JsonValue, nums: Seq<u32>)
    ensures
        forall|r: int|
            0 <= r < chapters_for(obj, nums).len() ==> (json_get(
                obj,
                decimal(#[trigger] chapters_for(obj, nums)[r].number as nat),
            ) matches Some(ch) && chapters_for(obj, nums)[r].verses == chapter_verses(ch)),
    decreases nums.len(),
{
    if nums.len() > 0 {
        lemma_chapters_for_from(obj, nums.drop_last());
        let prev = chapters_for(obj, nums.drop_last());
        let all = chapters_for(obj, nums);
        assert forall|r: int| 0 <= r < prev.len() implies #[trigger] all[r] == prev[r] by {}
    }
}

/// Each book read from the first `k` names holds the chapters of the member
/// of `data` under its name.
proof fn lemma_books_for_from(data: JsonValue, k: int)
    ensures
        forall|j: int|
            0 <= j < books_for(data, k).len() ==> (json_get(
                data,
                #[trigger] books_for(data, k)[j].name,
            ) matches Some(b) && books_for(data, k)[j].chapters == book_chapters(b)),
    decreases k,
{
    if k > 0 {
        lemma_books_for_from(data, k - 1);
        let prev = books_for(data, k - 1);
        let all = books_for(data, k);
        assert forall|j: int| 0 <= j < prev.len() implies #[trigger] all[j] == prev[j] by {}
    }
}

/// Everything read gives back the document: each verse of each chapter of
/// each book read is the string found in `data` under the book's name, the
/// chapter's number and the verse's number (written canonically).
pub proof fn law_read_verses_are_in_the_document(data: JsonValue)
    ensures
        forall|j: int, c: int, v: int|
            #![trigger bible_of(data)[j].chapters[c].verses[v]]
            0 <= j < bible_of(data).len() && 0 <= c < bible_of(data)[j].chapters.len() && 0 <= v
                < bible_of(data)[j].chapters[c].verses.len() ==> ({
                let book = bible_of(data)[j];
                let chapter = book.chapters[c];
                let verse = chapter.verses[v];
                json_get(data, book.name) matches Some(bo) && json_get(
                    bo,
                    decimal(chapter.number as nat),
                ) matches Some(co) && json_get(co, decimal(verse.number as nat)) matches Some(
                    JsonValue::Text(t),
                ) && t@ == verse.text
            }),
{
    lemma_books_for_from(data, canon_len());
    assert forall|j: int, c: int, v: int|
        #![trigger bible_of(data)[j].chapters[c].verses[v]]
        0 <= j < bible_of(data).len() && 0 <= c < bible_of(data)[j].chapters.len() && 0 <= v
            < bible_of(data)[j].chapters[c].verses.len() implies ({
            let book = bible_of(data)[j];
            let chapter = book.chapters[c];
            let verse = chapter.verses[v];
            json_get(data, book.name) matches Some(bo) && json_get(
                bo,
                decimal(chapter.number as nat),
            ) matches Some(co) && json_get(co, decimal(verse.number as nat)) matches Some(
                JsonValue::Text(t),
            ) && t@ == verse.text
        }) by {
        let book = bible_of(data)[j];
        let bo = json_get(data, book.name)->0;
        lemma_chapters_for_from(bo, sorted_key_numbers(bo));
        let chapter = book.chapters[c];
        let co = json_get(bo, decimal(chapter.number as nat))->0;
        lemma_verses_for_from(co, sorted_key_numbers(co));
        let verse = chapter.verses[v];
        assert(json_get(co, decimal(verse.number as nat)) matches Some(JsonValue::Text(t)) && t@
            == verse.text);
    }
}

/// The canonical places, below `k`, of the books that are read.
spec fn read_places(data: JsonValue, k: int) -> Seq<usize>
    decreases k,
{
    if k <= 0 {
        Seq::empty()
    } else {
        read_places(data, k - 1) + match json_get(data, book_name((k - 1) as usize)) {
            Some(b) => if b is Object && book_chapters(b).len() > 0 {
                seq![(k - 1) as usize]
            } else {
                Seq::empty()
            },
            None => Seq::empty(),
        }
    }
}

/// The places of the books read from the first `k` names ascend, and each
/// book bears the name at its place, with the testament of that place.
proof fn lemma_read_places(data: JsonValue, k: int)
    requires
        0 <= k <= 66,
    ensures
        read_places(data, k).len() == books_for(data, k).len(),
        forall|a: int, b: int|
            0 <= a < b < read_places(data, k).len() ==> #[trigger] read_places(data, k)[a]
                < #[trigger] read_places(data, k)[b],
        forall|j: int|
            #![trigger read_places(data, k)[j]]
            0 <= j < read_places(data, k).len() ==> {
                &&& (read_places(data, k)[j] as int) < k
                &&& book_name(read_places(data, k)[j]) == books_for(data, k)[j].name
                &&& (books_for(data, k)[j].testament == Testament::Old <==> read_places(data, k)[j]
                    < 39)
            },
    decreases k,
{
    if k > 0 {
        lemma_read_places(data, k - 1);
        let p = read_places(data, k - 1);
        let q = read_places(data, k);
        let prev = books_for(data, k - 1);
        let all = books_for(data, k);
        assert forall|j: int| 0 <= j < p.len() implies #[trigger] q[j] == p[j] && all[j] == prev[j] by {}
        if q.len() > p.len() {
            assert(q[p.len() as int] == (k - 1) as usize);
        }
    }
}

/// `places` are ascending places in the canon, one per book read out of
/// `data`, such that each book bears the name at its place and is of the Old
/// Testament exactly when its place is one of the first 39.
pub open spec fn canonical_places(data: JsonValue, places: Seq<usize>) -> bool {
    &&& places.len() == bible_of(data).len()
    &&& forall|a: int, b: int| 0 <= a < b < places.len() ==> #[trigger] places[a] < #[trigger] places[b]
    &&& forall|j: int|
        #![trigger places[j]]
        0 <= j < places.len() ==> {
            &&& places[j] < 66
            &&& book_name(places[j]) == bible_of(data)[j].name
            &&& (bible_of(data)[j].testament == Testament::Old <==> places[j] < 39)
        }
}

/// The books read out of a document come in canonical order, each at most
/// once, each with the testament of its place in the canon.
pub proof fn law_books_in_canonical_order(data: JsonValue)
    ensures
        exists|places: Seq<usize>| #[trigger] canonical_places(data, places),
{
    lemma_read_places(data, canon_len());
    let places = read_places(data, canon_len());
    assert(canonical_places(data, places));
}

/// Every book read out of a document bears a canonical name and is of the
/// Old Testament exactly when that name is one of the first 39 of the canon
/// (Genesis through Malachi); the others are of the New Testament.
pub proof fn law_testament_by_canonical_place(data: JsonValue)
    ensures
        forall|j: int|
            #![trigger bible_of(data)[j]]
            0 <= j < bible_of(data).len() ==> exists|i: usize|
                i < 66 && #[trigger] book_name(i) == bible_of(data)[j].name && (
                bible_of(data)[j].testament == Testament::Old <==> i < 39),
{
    lemma_books_for_testament(data, canon_len());
}

} // verus!
