//! The text of the Bible: books, chapters and verses, and how they are read
//! out of a JSON document of the form `{ book: { chapter: { verse: text } } }`.
use vstd::prelude::*;
use vstd::relations::{sorted_by, total_ordering};
use vstd::seq_lib::lemma_sorted_unique;

use crate::text::{
    chars_of, decimal, decimal_chars, num_leq, parse_number, parse_u32, same_chars,
    sort_numbers,
};

verus! {

/// One verse: its number and its text.
#[derive(Debug, Clone)]
pub struct Verse {
    pub number: u32,
    pub text: String,
}

/// One chapter: its number and its verses, in order.
#[derive(Debug, Clone)]
pub struct Chapter {
    pub number: u32,
    pub verses: Vec<Verse>,
}

/// One book: its name, its testament and its chapters, in order.
#[derive(Debug, Clone)]
pub struct Book {
    pub name: String,
    pub testament: Testament,
    pub chapters: Vec<Chapter>,
}

/// The two testaments.
#[derive(Debug, Clone, Copy, PartialEq, Eq, Structural)]
pub enum Testament {
    Old,
    New,
}

/// A verse as a mathematical value.
#[verifier::ext_equal]
pub struct VerseView {
    pub number: u32,
    pub text: Seq<char>,
}

/// A chapter as a mathematical value.
#[verifier::ext_equal]
pub struct ChapterView {
    pub number: u32,
    pub verses: Seq<VerseView>,
}

/// A book as a mathematical value.
#[verifier::ext_equal]
pub struct BookView {
    pub name: Seq<char>,
    pub testament: Testament,
    pub chapters: Seq<ChapterView>,
}

impl View for Verse {
    type V = VerseView;

    open spec fn view(&self) -> VerseView {
        VerseView { number: self.number, text: self.text@ }
    }
}

/// The views of a sequence of verses.
pub open spec fn verses_view(v: Seq<Verse>) -> Seq<VerseView> {
    v.map_values(|x: Verse| x@)
}

impl View for Chapter {
    type V = ChapterView;

    open spec fn view(&self) -> ChapterView {
        ChapterView { number: self.number, verses: verses_view(self.verses@) }
    }
}

/// The views of a sequence of chapters.
pub open spec fn chapters_view(v: Seq<Chapter>) -> Seq<ChapterView> {
    v.map_values(|x: Chapter| x@)
}

impl View for Book {
    type V = BookView;

    open spec fn view(&self) -> BookView {
        BookView { name: self.name@, testament: self.testament, chapters: chapters_view(self.chapters@) }
    }
}

/// The views of a sequence of books.
pub open spec fn books_view(v: Seq<Book>) -> Seq<BookView> {
    v.map_values(|x: Book| x@)
}

impl Book {
    /// The number of chapters of the book.
    pub fn chapter_count(&self) -> (n: usize)
        ensures
            n == self.chapters@.len(),
    {
        self.chapters.len()
    }
}

/// A JSON value, reduced to what the reader looks at: strings, objects
/// (their members in the order given, which for a parsed document is
/// serde_json's: by key, a repeated key keeping its last value) and
/// everything else.
pub enum JsonValue {
    Text(String),
    Object(Vec<(String, JsonValue)>),
    Other,
}

/// serde_json's parsed JSON value, carried through unread.
#[verifier::external_type_specification]
#[verifier::external_body]
pub struct ExJsonDocument(serde_json::Value);

/// The value that `serde_json::from_str` parses `text` into, as the reader
/// sees it, or `None` where `text` is no JSON document.
pub uninterp spec fn json_document(text: Seq<char>) -> Option<JsonValue>;

/// Calls `serde_json::from_str::<serde_json::Value>` on `text`: the result is
/// a function of the text alone, named `json_document`; its grammar is not
/// restated here. A parsed value is handed on as a `JsonValue`.
#[verifier::external_body]
pub fn parse_json(text: &str) -> (r: Option<JsonValue>)
    ensures
        r == json_document(text@),
{
    match serde_json::from_str::<serde_json::Value>(text) {
        Ok(v) => Some(json_value_of(&v)),
        Err(_) => None,
    }
}

/// Turns a serde_json value into a `JsonValue`, member for member: strings
/// stay strings, objects stay objects (members in serde_json's order), every
/// other value becomes `Other`.
#[verifier::external_body]
fn json_value_of(v: &serde_json::Value) -> JsonValue {
    match v {
        serde_json::Value::String(s) => JsonValue::Text(s.clone()),
        serde_json::Value::Object(m) => JsonValue::Object(
            m.iter().map(|(k, x)| (k.clone(), json_value_of(x))).collect(),
        ),
        _ => JsonValue::Other,
    }
}

/// Why no Bible could be read out of a file's text.
#[derive(Debug, Clone, Copy, PartialEq, Eq, Structural)]
pub enum TextError {
    /// The text is no JSON document.
    NoJson,
    /// The document holds no canonical book with at least one verse.
    NoBooks,
}

/// Why no Bible could be read out of a document.
#[derive(Debug, Clone, Copy, PartialEq, Eq, Structural)]
pub enum LoadError {
    /// No canonical book with at least one verse was found.
    NoBooks,
}

/// The value of the first member of `entries` whose key is `key`.
pub open spec fn find_member(entries: Seq<(String, JsonValue)>, key: Seq<char>) -> Option<JsonValue>
    decreases entries.len(),
{
    if entries.len() == 0 {
        None
    } else if entries[0].0@ == key {
        Some(entries[0].1)
    } else {
        find_member(entries.drop_first(), key)
    }
}

/// The member `key` of `v`, where `v` is an object (the `get` of a JSON map).
pub open spec fn json_get(v: JsonValue, key: Seq<char>) -> Option<JsonValue> {
    match v {
        JsonValue::Object(entries) => find_member(entries@, key),
        _ => None,
    }
}

/// The numbers that the keys of `entries` parse to, in the members' order.
pub open spec fn key_numbers(entries: Seq<(String, JsonValue)>) -> Seq<u32>
    decreases entries.len(),
{
    if entries.len() == 0 {
        Seq::empty()
    } else {
        key_numbers(entries.drop_last()) + match parse_u32(entries.last().0@) {
            Some(n) => seq![n],
            None => Seq::empty(),
        }
    }
}

/// The numbers that the keys of object `v` parse to, in ascending order.
pub open spec fn sorted_key_numbers(v: JsonValue) -> Seq<u32> {
    match v {
        JsonValue::Object(entries) => key_numbers(entries@).sort_by(num_leq()),
        _ => Seq::empty(),
    }
}

/// The verses read from chapter object `obj` for the numbers `nums`: each
/// number whose canonical key holds a string gives a verse.
pub open spec fn verses_for(obj: JsonValue, nums: Seq<u32>) -> Seq<VerseView>
    decreases nums.len(),
{
    if nums.len() == 0 {
        Seq::empty()
    } else {
        verses_for(obj, nums.drop_last()) + match json_get(obj, decimal(nums.last() as nat)) {
            Some(JsonValue::Text(t)) => seq![VerseView { number: nums.last(), text: t@ }],
            _ => Seq::empty(),
        }
    }
}

/// The verses of chapter object `obj`, by ascending verse number.
pub open spec fn chapter_verses(obj: JsonValue) -> Seq<VerseView> {
    verses_for(obj, sorted_key_numbers(obj))
}

/// The chapters read from book object `obj` for the numbers `nums`: each
/// number whose canonical key holds an object with at least one verse gives
/// a chapter.
pub open spec fn chapters_for(obj: JsonValue, nums: Seq<u32>) -> Seq<ChapterView>
    decreases nums.len(),
{
    if nums.len() == 0 {
        Seq::empty()
    } else {
        chapters_for(obj, nums.drop_last()) + match json_get(obj, decimal(nums.last() as nat)) {
            Some(ch) => if ch is Object && chapter_verses(ch).len() > 0 {
                seq![ChapterView { number: nums.last(), verses: chapter_verses(ch) }]
            } else {
                Seq::empty()
            },
            None => Seq::empty(),
        }
    }
}

/// The chapters of book object `obj`, by ascending chapter number.
pub open spec fn book_chapters(obj: JsonValue) -> Seq<ChapterView> {
    chapters_for(obj, sorted_key_numbers(obj))
}

/// The number of books in the canon.
pub open spec fn canon_len() -> int {
    66
}

/// The name of the `i`-th book of the canon.
pub open spec fn book_name(i: usize) -> Seq<char> {
    match i {
        0 => "Genesis"@,
        1 => "Exodus"@,
        2 => "Leviticus"@,
        3 => "Numbers"@,
        4 => "Deuteronomy"@,
        5 => "Joshua"@,
        6 => "Judges"@,
        7 => "Ruth"@,
        8 => "1 Samuel"@,
        9 => "2 Samuel"@,
        10 => "1 Kings"@,
        11 => "2 Kings"@,
        12 => "1 Chronicles"@,
        13 => "2 Chronicles"@,
        14 => "Ezra"@,
        15 => "Nehemiah"@,
        16 => "Esther"@,
        17 => "Job"@,
        18 => "Psalms"@,
        19 => "Proverbs"@,
        20 => "Ecclesiastes"@,
        21 => "Song of Solomon"@,
        22 => "Isaiah"@,
        23 => "Jeremiah"@,
        24 => "Lamentations"@,
        25 => "Ezekiel"@,
        26 => "Daniel"@,
        27 => "Hosea"@,
        28 => "Joel"@,
        29 => "Amos"@,
        30 => "Obadiah"@,
        31 => "Jonah"@,
        32 => "Micah"@,
        33 => "Nahum"@,
        34 => "Habakkuk"@,
        35 => "Zephaniah"@,
        36 => "Haggai"@,
        37 => "Zechariah"@,
        38 => "Malachi"@,
        39 => "Matthew"@,
        40 => "Mark"@,
        41 => "Luke"@,
        42 => "John"@,
        43 => "Acts"@,
        44 => "Romans"@,
        45 => "1 Corinthians"@,
        46 => "2 Corinthians"@,
        47 => "Galatians"@,
        48 => "Ephesians"@,
        49 => "Philippians"@,
        50 => "Colossians"@,
        51 => "1 Thessalonians"@,
        52 => "2 Thessalonians"@,
        53 => "1 Timothy"@,
        54 => "2 Timothy"@,
        55 => "Titus"@,
        56 => "Philemon"@,
        57 => "Hebrews"@,
        58 => "James"@,
        59 => "1 Peter"@,
        60 => "2 Peter"@,
        61 => "1 John"@,
        62 => "2 John"@,
        63 => "3 John"@,
        64 => "Jude"@,
        _ => "Revelation"@,
    }
}

/// The testament of the `i`-th book of the canon: the first 39 books form the
/// Old Testament.
pub open spec fn book_testament(i: int) -> Testament {
    if i < 39 { Testament::Old } else { Testament::New }
}

/// The books read from `data` out of the first `k` canonical books: each
/// canonical name whose member is an object with at least one chapter gives
/// a book.
pub open spec fn books_for(data: JsonValue, k: int) -> Seq<BookView>
    decreases k,
{
    if k <= 0 {
        Seq::empty()
    } else {
        books_for(data, k - 1) + match json_get(data, book_name((k - 1) as usize)) {
            Some(b) => if b is Object && book_chapters(b).len() > 0 {
                seq![
                    BookView {
                        name: book_name((k - 1) as usize),
                        testament: book_testament(k - 1),
                        chapters: book_chapters(b),
                    },
                ]
            } else {
                Seq::empty()
            },
            None => Seq::empty(),
        }
    }
}

/// The Bible read out of `data`, in canonical order.
pub open spec fn bible_of(data: JsonValue) -> Seq<BookView> {
    books_for(data, canon_len())
}

/// The name of the `i`-th book of the canon.
fn canonical_name(i: usize) -> (r: &'static str)
    requires
        i < 66,
    ensures
        r@ == book_name(i),
{
    match i {
        0 => "Genesis",
        1 => "Exodus",
        2 => "Leviticus",
        3 => "Numbers",
        4 => "Deuteronomy",
        5 => "Joshua",
        6 => "Judges",
        7 => "Ruth",
        8 => "1 Samuel",
        9 => "2 Samuel",
        10 => "1 Kings",
        11 => "2 Kings",
        12 => "1 Chronicles",
        13 => "2 Chronicles",
        14 => "Ezra",
        15 => "Nehemiah",
        16 => "Esther",
        17 => "Job",
        18 => "Psalms",
        19 => "Proverbs",
        20 => "Ecclesiastes",
        21 => "Song of Solomon",
        22 => "Isaiah",
        23 => "Jeremiah",
        24 => "Lamentations",
        25 => "Ezekiel",
        26 => "Daniel",
        27 => "Hosea",
        28 => "Joel",
        29 => "Amos",
        30 => "Obadiah",
        31 => "Jonah",
        32 => "Micah",
        33 => "Nahum",
        34 => "Habakkuk",
        35 => "Zephaniah",
        36 => "Haggai",
        37 => "Zechariah",
        38 => "Malachi",
        39 => "Matthew",
        40 => "Mark",
        41 => "Luke",
        42 => "John",
        43 => "Acts",
        44 => "Romans",
        45 => "1 Corinthians",
        46 => "2 Corinthians",
        47 => "Galatians",
        48 => "Ephesians",
        49 => "Philippians",
        50 => "Colossians",
        51 => "1 Thessalonians",
        52 => "2 Thessalonians",
        53 => "1 Timothy",
        54 => "2 Timothy",
        55 => "Titus",
        56 => "Philemon",
        57 => "Hebrews",
        58 => "James",
        59 => "1 Peter",
        60 => "2 Peter",
        61 => "1 John",
        62 => "2 John",
        63 => "3 John",
        64 => "Jude",
        _ => "Revelation",
    }
}

/// The member `key` of `v`, where `v` is an object.
pub fn member<'a>(v: &'a JsonValue, key: &Vec<char>) -> (r: Option<&'a JsonValue>)
    ensures
        match json_get(*v, key@) {
            Some(x) => r is Some && *r->0 == x,
            None => r is None,
        },
{
    match v {
        JsonValue::Object(entries) => {
            let mut i: usize = 0;
            assert(entries@.skip(0) =~= entries@);
            while i < entries.len()
                invariant
                    i <= entries@.len(),
                    *v == JsonValue::Object(*entries),
                    find_member(entries@, key@) == find_member(entries@.skip(i as int), key@),
                decreases entries@.len() - i,
            {
                assert(entries@.skip(i as int).drop_first() =~= entries@.skip(i + 1));
                assert(entries@.skip(i as int)[0] == entries@[i as int]);
                let k = chars_of(entries[i].0.as_str());
                if same_chars(&k, key) {
                    assert(entries@.skip(i as int)[0].0@ == key@);
                    assert(find_member(entries@.skip(i as int), key@) == Some(entries@[i as int].1));
                    return Some(&entries[i].1);
                }
                i += 1;
            }
            assert(entries@.skip(i as int) =~= Seq::<(String, JsonValue)>::empty());
            None
        },
        _ => None,
    }
}

/// The numbers that the keys of `entries` parse to, in ascending order.
fn sorted_numbers(entries: &Vec<(String, JsonValue)>) -> (r: Vec<u32>)
    ensures
        r@ == key_numbers(entries@).sort_by(num_leq()),
{
    let mut nums: Vec<u32> = Vec::new();
    let mut i: usize = 0;
    while i < entries.len()
        invariant
            i <= entries@.len(),
            nums@ == key_numbers(entries@.take(i as int)),
        decreases entries@.len() - i,
    {
        assert(entries@.take(i + 1).drop_last() =~= entries@.take(i as int));
        let k = chars_of(entries[i].0.as_str());
        match parse_number(&k) {
            Some(n) => {
                nums.push(n);
                assert(nums@ =~= key_numbers(entries@.take(i + 1)));
            },
            None => {
                assert(nums@ =~= key_numbers(entries@.take(i + 1)));
            },
        }
        i += 1;
    }
    assert(entries@.take(entries@.len() as int) =~= entries@);
    let ghost unsorted = nums@;
    sort_numbers(&mut nums);
    proof {
        let leq = num_leq();
        assert(total_ordering(leq));
        unsorted.lemma_sort_by_ensures(leq);
        lemma_sorted_unique(nums@, unsorted.sort_by(leq), leq);
    }
    nums
}

/// The verses of chapter object `obj`, whose members are `entries`.
fn read_verses(obj: &JsonValue, entries: &Vec<(String, JsonValue)>) -> (r: Vec<Verse>)
    requires
        *obj == JsonValue::Object(*entries),
    ensures
        verses_view(r@) == chapter_verses(*obj),
{
    let nums = sorted_numbers(entries);
    let mut verses: Vec<Verse> = Vec::new();
    let mut i: usize = 0;
    while i < nums.len()
        invariant
            i <= nums@.len(),
            nums@ == sorted_key_numbers(*obj),
            verses_view(verses@) == verses_for(*obj, nums@.take(i as int)),
        decreases nums@.len() - i,
    {
        assert(nums@.take(i + 1).drop_last() =~= nums@.take(i as int));
        let n = nums[i];
        let key = decimal_chars(n as u64);
        let ghost before = verses@;
        match member(obj, &key) {
            Some(JsonValue::Text(t)) => {
                verses.push(Verse { number: n, text: t.clone() });
                assert(verses_view(verses@) =~= verses_view(before).push(verses@.last()@));
            },
            _ => {},
        }
        assert(verses_view(verses@) =~= verses_for(*obj, nums@.take(i + 1)));
        i += 1;
    }
    assert(nums@.take(nums@.len() as int) =~= nums@);
    verses
}

/// The chapters of book object `obj`, whose members are `entries`.
fn read_chapters(obj: &JsonValue, entries: &Vec<(String, JsonValue)>) -> (r: Vec<Chapter>)
    requires
        *obj == JsonValue::Object(*entries),
    ensures
        chapters_view(r@) == book_chapters(*obj),
{
    let nums = sorted_numbers(entries);
    let mut chapters: Vec<Chapter> = Vec::new();
    let mut i: usize = 0;
    while i < nums.len()
        invariant
            i <= nums@.len(),
            nums@ == sorted_key_numbers(*obj),
            chapters_view(chapters@) == chapters_for(*obj, nums@.take(i as int)),
        decreases nums@.len() - i,
    {
        assert(nums@.take(i + 1).drop_last() =~= nums@.take(i as int));
        let n = nums[i];
        let key = decimal_chars(n as u64);
        let ghost before = chapters@;
        match member(obj, &key) {
            Some(ch) => {
                match ch {
                    JsonValue::Object(ch_entries) => {
                        let verses = read_verses(ch, ch_entries);
                        if verses.len() > 0 {
                            chapters.push(Chapter { number: n, verses });
                            assert(chapters_view(chapters@) =~= chapters_view(before).push(
                                chapters@.last()@,
                            ));
                        }
                    },
                    _ => {},
                }
            },
            None => {},
        }
        assert(chapters_view(chapters@) =~= chapters_for(*obj, nums@.take(i + 1)));
        i += 1;
    }
    assert(nums@.take(nums@.len() as int) =~= nums@);
    chapters
}

/// Reads the Bible out of a JSON document: the canonical books, in canonical
/// order, each with its chapters by ascending number and each chapter with its
/// verses by ascending number; books, chapters and verses that are missing,
/// malformed or empty are left out. Fails when no book is left.
pub fn load_bible(data: &JsonValue) -> (r: Result<Vec<Book>, LoadError>)
    ensures
        match r {
            Ok(books) => books_view(books@) == bible_of(*data) && books@.len() > 0,
            Err(e) => e == LoadError::NoBooks && bible_of(*data).len() == 0,
        },
{
    let mut books: Vec<Book> = Vec::new();
    let mut i: usize = 0;
    while i < 66
        invariant
            i <= 66,
            books_view(books@) == books_for(*data, i as int),
        decreases 66 - i,
    {
        let name = canonical_name(i);
        let key = chars_of(name);
        let testament = if i < 39 { Testament::Old } else { Testament::New };
        let ghost before = books@;
        match member(data, &key) {
            Some(book_data) => {
                match book_data {
                    JsonValue::Object(entries) => {
                        let chapters = read_chapters(book_data, entries);
                        if chapters.len() > 0 {
                            books.push(Book { name: name.to_owned(), testament, chapters });
                            assert(books_view(books@) =~= books_view(before).push(books@.last()@));
                        }
                    },
                    _ => {},
                }
            },
            None => {},
        }
        assert(books_view(books@) =~= books_for(*data, i + 1));
        i += 1;
    }
    if books.len() == 0 {
        Err(LoadError::NoBooks)
    } else {
        Ok(books)
    }
}

/// Reads the Bible out of the text of a JSON file, as `load_bible` reads it
/// out of the parsed document. Fails when the text is no JSON, or when no
/// book is left.
pub fn load_bible_text(text: &str) -> (r: Result<Vec<Book>, TextError>)
    ensures
        match r {
            Ok(books) => json_document(text@) is Some && books_view(books@) == bible_of(
                json_document(text@)->0,
            ) && books@.len() > 0,
            Err(e) => (e == TextError::NoJson && json_document(text@) is None) || (e
                == TextError::NoBooks && json_document(text@) is Some && bible_of(
                json_document(text@)->0,
            ).len() == 0),
        },
{
    match parse_json(text) {
        None => Err(TextError::NoJson),
        Some(data) => match load_bible(&data) {
            Ok(books) => Ok(books),
            Err(_) => Err(TextError::NoBooks),
        },
    }
}

} // verus!
