use scriptures::app::{App, Key, Mode, Pane, TreeItem};
use scriptures::bible::{
    load_bible, load_bible_text, parse_json, Book, Chapter, JsonValue, LoadError, Testament,
    TextError, Verse,
};
use scriptures::display::{
    mode_label, reader_text, result_count_header, search_message, search_rows, tree_row_texts,
    verse_preview, ReaderLine, TreeRowText,
};
use scriptures::text::{chars_of, contains_chars, decimal_chars, parse_number};

fn verse(number: u32, text: &str) -> Verse {
    Verse { number, text: text.to_string() }
}

fn chapter(number: u32, texts: &[&str]) -> Chapter {
    Chapter {
        number,
        verses: texts.iter().enumerate().map(|(i, t)| verse(i as u32 + 1, t)).collect(),
    }
}

fn book(name: &str, testament: Testament, chapters: Vec<Chapter>) -> Book {
    Book { name: name.to_string(), testament, chapters }
}

/// Genesis (2 chapters), Exodus (1 chapter), Matthew (1 chapter).
fn sample_books() -> Vec<Book> {
    vec![
        book(
            "Genesis",
            Testament::Old,
            vec![
                chapter(1, &["In the beginning", "And the earth", "Let there be light"]),
                chapter(2, &["Thus the heavens"]),
            ],
        ),
        book("Exodus", Testament::Old, vec![chapter(1, &["These are the names"])]),
        book("Matthew", Testament::New, vec![chapter(1, &["The book of the generation", "LIGHT of the world"])]),
    ]
}

fn long_chapter_books() -> Vec<Book> {
    let texts: Vec<String> = (1..=15).map(|i| format!("verse {}", i)).collect();
    let refs: Vec<&str> = texts.iter().map(|s| s.as_str()).collect();
    vec![book("Psalms", Testament::Old, vec![chapter(1, &refs)])]
}

fn text(s: &str) -> JsonValue {
    JsonValue::Text(s.to_string())
}

fn object(members: Vec<(&str, JsonValue)>) -> JsonValue {
    JsonValue::Object(members.into_iter().map(|(k, v)| (k.to_string(), v)).collect())
}

fn tree_shape(items: &[TreeItem]) -> Vec<String> {
    items
        .iter()
        .map(|item| match item {
            TreeItem::Testament(s) => format!("T:{}", s),
            TreeItem::Book { book_idx, expanded } => format!("B:{}:{}", book_idx, expanded),
            TreeItem::Chapter { book_idx, chapter_idx } => format!("C:{}:{}", book_idx, chapter_idx),
        })
        .collect()
}

// --- bible ---------------------------------------------------------------

#[test]
fn chapter_count_counts_chapters() {
    let books = sample_books();
    assert_eq!(books[0].chapter_count(), 2);
    assert_eq!(books[1].chapter_count(), 1);
}

#[test]
fn load_bible_reads_canonical_books_in_order() {
    let data = object(vec![
        ("Matthew", object(vec![("1", object(vec![("1", text("The book"))]))])),
        ("Unknown", object(vec![("1", object(vec![("1", text("ignored"))]))])),
        (
            "Genesis",
            object(vec![
                ("2", object(vec![("1", text("Thus"))])),
                ("1", object(vec![("2", text("And the earth")), ("1", text("In the beginning"))])),
            ]),
        ),
    ]);
    let books = load_bible(&data).unwrap();
    assert_eq!(books.len(), 2);
    assert_eq!(books[0].name, "Genesis");
    assert_eq!(books[0].testament, Testament::Old);
    assert_eq!(books[1].name, "Matthew");
    assert_eq!(books[1].testament, Testament::New);
    let g = &books[0];
    assert_eq!(g.chapters.len(), 2);
    assert_eq!(g.chapters[0].number, 1);
    assert_eq!(g.chapters[1].number, 2);
    assert_eq!(g.chapters[0].verses[0].number, 1);
    assert_eq!(g.chapters[0].verses[0].text, "In the beginning");
    assert_eq!(g.chapters[0].verses[1].number, 2);
    assert_eq!(g.chapters[0].verses[1].text, "And the earth");
}

#[test]
fn load_bible_sorts_numerically_not_by_text() {
    let data = object(vec![(
        "Exodus",
        object(vec![(
            "1",
            object(vec![("10", text("ten")), ("9", text("nine")), ("2", text("two"))]),
        )]),
    )]);
    let books = load_bible(&data).unwrap();
    let numbers: Vec<u32> = books[0].chapters[0].verses.iter().map(|v| v.number).collect();
    assert_eq!(numbers, vec![2, 9, 10]);
}

#[test]
fn load_bible_skips_malformed_and_empty_parts() {
    let data = object(vec![
        ("Genesis", text("not an object")),
        (
            "Exodus",
            object(vec![
                ("1", object(vec![("1", text("kept")), ("x", text("not a number")), ("2", JsonValue::Other)])),
                ("2", object(vec![("1", JsonValue::Other)])),
                ("3", text("not an object")),
                ("+4", object(vec![("1", text("key is not canonical"))])),
            ]),
        ),
    ]);
    let books = load_bible(&data).unwrap();
    assert_eq!(books.len(), 1);
    assert_eq!(books[0].name, "Exodus");
    assert_eq!(books[0].chapters.len(), 1);
    assert_eq!(books[0].chapters[0].verses.len(), 1);
    assert_eq!(books[0].chapters[0].verses[0].text, "kept");
}

#[test]
fn load_bible_reads_a_padded_key_through_its_canonical_key() {
    let data = object(vec![(
        "Ruth",
        object(vec![("1", object(vec![("01", text("padded")), ("1", text("plain"))]))]),
    )]);
    let books = load_bible(&data).unwrap();
    let verses = &books[0].chapters[0].verses;
    assert_eq!(verses.len(), 2);
    assert_eq!(verses[0].text, "plain");
    assert_eq!(verses[1].text, "plain");
    assert_eq!(verses[0].number, 1);
    assert_eq!(verses[1].number, 1);
}

#[test]
fn load_bible_without_books_fails() {
    assert_eq!(load_bible(&object(vec![])).unwrap_err(), LoadError::NoBooks);
    assert_eq!(load_bible(&JsonValue::Other).unwrap_err(), LoadError::NoBooks);
    let only_empty = object(vec![("Genesis", object(vec![("1", object(vec![]))]))]);
    assert_eq!(load_bible(&only_empty).unwrap_err(), LoadError::NoBooks);
}

#[test]
fn loaded_bible_has_no_empty_part_and_ascending_numbers() {
    let data = object(vec![(
        "Jude",
        object(vec![
            ("3", object(vec![("2", text("b")), ("1", text("a"))])),
            ("1", object(vec![("1", text("c"))])),
            ("2", object(vec![])),
        ]),
    )]);
    let books = load_bible(&data).unwrap();
    for b in &books {
        assert!(!b.chapters.is_empty());
        for w in b.chapters.windows(2) {
            assert!(w[0].number <= w[1].number);
        }
        for c in &b.chapters {
            assert!(!c.verses.is_empty());
            for w in c.verses.windows(2) {
                assert!(w[0].number <= w[1].number);
            }
        }
    }
    assert_eq!(books[0].chapters.len(), 2);
}

// --- the book tree --------------------------------------------------------

#[test]
fn new_app_starts_on_the_menu() {
    let app = App::new(sample_books());
    assert_eq!(app.mode, Mode::Menu);
    assert_eq!(app.active_pane, Pane::Tree);
    assert_eq!(app.tree_selected, 1);
    assert_eq!(app.expanded_books, vec![false, false, false]);
    assert_eq!(app.selected_book, 0);
    assert!(app.search_results.is_empty());
    assert_eq!(app.search_origin, Mode::Menu);
    assert!(!app.should_quit);
}

#[test]
fn flat_tree_shows_headings_books_and_open_chapters() {
    let mut app = App::new(sample_books());
    assert_eq!(
        tree_shape(&app.flat_tree()),
        vec!["T:Old Testament", "B:0:false", "B:1:false", "T:New Testament", "B:2:false"]
    );
    app.expanded_books[0] = true;
    assert_eq!(
        tree_shape(&app.flat_tree()),
        vec!["T:Old Testament", "B:0:true", "C:0:0", "C:0:1", "B:1:false", "T:New Testament", "B:2:false"]
    );
}

#[test]
fn tree_down_and_up_stop_at_the_ends() {
    let mut app = App::new(sample_books());
    for _ in 0..10 {
        app.tree_down();
    }
    assert_eq!(app.tree_selected, 4);
    for _ in 0..10 {
        app.tree_up();
    }
    assert_eq!(app.tree_selected, 0);
}

#[test]
fn tree_up_undoes_tree_down() {
    let mut app = App::new(sample_books());
    app.tree_selected = 2;
    app.tree_down();
    assert_eq!(app.tree_selected, 3);
    app.tree_up();
    assert_eq!(app.tree_selected, 2);
}

#[test]
fn tree_enter_twice_on_a_book_folds_it_back() {
    let mut app = App::new(sample_books());
    app.tree_selected = 1;
    app.tree_enter();
    assert_eq!(app.expanded_books, vec![true, false, false]);
    app.tree_enter();
    assert_eq!(app.expanded_books, vec![false, false, false]);
}

#[test]
fn tree_enter_on_a_chapter_opens_it() {
    let mut app = App::new(sample_books());
    app.tree_selected = 1;
    app.tree_enter();
    app.tree_selected = 3;
    app.selected_verse = 2;
    app.scroll_offset = 1;
    app.tree_enter();
    assert_eq!(app.selected_book, 0);
    assert_eq!(app.selected_chapter, 1);
    assert_eq!(app.selected_verse, 0);
    assert_eq!(app.scroll_offset, 0);
    assert_eq!(app.active_pane, Pane::Reader);
}

#[test]
fn tree_enter_on_a_heading_does_nothing() {
    let mut app = App::new(sample_books());
    app.tree_selected = 0;
    app.tree_enter();
    assert_eq!(app.expanded_books, vec![false, false, false]);
    assert_eq!(app.active_pane, Pane::Tree);
}

// --- the reader -----------------------------------------------------------

#[test]
fn reader_down_scrolls_to_keep_the_verse_in_view() {
    let mut app = App::new(long_chapter_books());
    for _ in 0..12 {
        app.reader_down();
        assert!(app.scroll_offset <= app.selected_verse && app.selected_verse < app.scroll_offset + 10);
    }
    assert_eq!(app.selected_verse, 12);
    assert_eq!(app.scroll_offset, 3);
    for _ in 0..5 {
        app.reader_down();
    }
    assert_eq!(app.selected_verse, 14);
    assert_eq!(app.scroll_offset, 5);
}

#[test]
fn reader_up_scrolls_back() {
    let mut app = App::new(long_chapter_books());
    app.selected_verse = 5;
    app.scroll_offset = 5;
    app.reader_up();
    assert_eq!(app.selected_verse, 4);
    assert_eq!(app.scroll_offset, 4);
    app.selected_verse = 0;
    app.reader_up();
    assert_eq!(app.selected_verse, 0);
}

#[test]
fn reader_up_undoes_reader_down() {
    let mut app = App::new(sample_books());
    app.reader_down();
    assert_eq!(app.selected_verse, 1);
    app.reader_up();
    assert_eq!(app.selected_verse, 0);
}

#[test]
fn reader_down_outside_the_books_does_nothing() {
    let mut app = App::new(sample_books());
    app.selected_book = 9;
    app.reader_down();
    assert_eq!(app.selected_verse, 0);
}

#[test]
fn next_chapter_moves_across_books_and_stops_at_the_end() {
    let mut app = App::new(sample_books());
    app.selected_verse = 2;
    app.next_chapter();
    assert_eq!((app.selected_book, app.selected_chapter, app.selected_verse), (0, 1, 0));
    app.next_chapter();
    assert_eq!((app.selected_book, app.selected_chapter), (1, 0));
    app.next_chapter();
    assert_eq!((app.selected_book, app.selected_chapter), (2, 0));
    app.next_chapter();
    assert_eq!((app.selected_book, app.selected_chapter), (2, 0));
}

#[test]
fn prev_chapter_moves_to_the_last_chapter_of_the_previous_book() {
    let mut app = App::new(sample_books());
    app.selected_book = 1;
    app.prev_chapter();
    assert_eq!((app.selected_book, app.selected_chapter), (0, 1));
    app.prev_chapter();
    assert_eq!((app.selected_book, app.selected_chapter), (0, 0));
    app.prev_chapter();
    assert_eq!((app.selected_book, app.selected_chapter), (0, 0));
}

#[test]
fn prev_chapter_undoes_next_chapter() {
    let mut app = App::new(sample_books());
    app.selected_chapter = 1;
    app.next_chapter();
    assert_eq!((app.selected_book, app.selected_chapter), (1, 0));
    app.prev_chapter();
    assert_eq!((app.selected_book, app.selected_chapter), (0, 1));
    app.next_chapter();
    app.next_chapter();
    app.prev_chapter();
    assert_eq!((app.selected_book, app.selected_chapter), (1, 0));
}

#[test]
fn current_book_and_chapter_of_the_position() {
    let mut app = App::new(sample_books());
    app.selected_book = 2;
    assert_eq!(app.current_book_name(), "Matthew");
    assert_eq!(app.current_chapter_num(), 1);
    app.selected_book = 7;
    assert_eq!(app.current_book_name(), "\u{2014}");
    assert_eq!(app.current_chapter_num(), 0);
    app.selected_book = 0;
    app.selected_chapter = 4;
    assert_eq!(app.current_chapter_num(), 0);
}

// --- the search -----------------------------------------------------------

#[test]
fn search_ignores_case_and_keeps_reading_order() {
    let mut app = App::new(sample_books());
    app.search_query = "LiGhT".to_string();
    app.search_cursor = 3;
    app.search_execute();
    assert_eq!(app.search_results, vec![(0, 0, 2), (2, 0, 1)]);
    assert_eq!(app.search_cursor, 0);
}

#[test]
fn search_with_an_empty_query_finds_nothing() {
    let mut app = App::new(sample_books());
    app.search_results = vec![(0, 0, 0)];
    app.search_query = String::new();
    app.search_execute();
    assert!(app.search_results.is_empty());
}

#[test]
fn search_without_a_match_finds_nothing() {
    let mut app = App::new(sample_books());
    app.search_query = "zebra".to_string();
    app.search_execute();
    assert!(app.search_results.is_empty());
}

#[test]
fn every_hit_holds_the_query_and_every_match_is_a_hit() {
    let books = sample_books();
    let mut app = App::new(books.clone());
    app.search_query = "the".to_string();
    app.search_execute();
    let mut expected = vec![];
    for (bi, b) in books.iter().enumerate() {
        for (ci, c) in b.chapters.iter().enumerate() {
            for (vi, v) in c.verses.iter().enumerate() {
                if v.text.to_lowercase().contains("the") {
                    expected.push((bi, ci, vi));
                }
            }
        }
    }
    assert_eq!(app.search_results, expected);
    assert_eq!(app.search_results.len(), 7);
}

#[test]
fn jump_opens_the_hit_under_the_cursor() {
    let mut app = App::new(long_chapter_books());
    app.search_query = "verse 13".to_string();
    app.search_execute();
    assert_eq!(app.search_results, vec![(0, 0, 12)]);
    app.mode = Mode::Search;
    app.jump_to_search_result();
    assert_eq!((app.selected_book, app.selected_chapter, app.selected_verse), (0, 0, 12));
    assert_eq!(app.scroll_offset, 8);
    assert_eq!(app.mode, Mode::Normal);
    assert_eq!(app.active_pane, Pane::Reader);
}

#[test]
fn jump_near_the_top_scrolls_to_the_start() {
    let mut app = App::new(sample_books());
    app.search_results = vec![(0, 0, 2)];
    app.jump_to_search_result();
    assert_eq!(app.scroll_offset, 0);
    assert_eq!(app.selected_verse, 2);
}

#[test]
fn jump_without_a_hit_does_nothing() {
    let mut app = App::new(sample_books());
    app.mode = Mode::Search;
    app.jump_to_search_result();
    assert_eq!(app.mode, Mode::Search);
    assert_eq!(app.active_pane, Pane::Tree);
}

// --- keys -----------------------------------------------------------------

#[test]
fn menu_keys() {
    let mut app = App::new(sample_books());
    assert!(!app.handle_key(Key::Char('x')));
    assert!(app.handle_key(Key::Char('q')));
    assert!(!app.handle_key(Key::Char('c')));
    assert_eq!(app.mode, Mode::Normal);
    assert_eq!(app.active_pane, Pane::Reader);
    let mut other = App::new(sample_books());
    other.search_query = "old".to_string();
    other.search_results = vec![(0, 0, 0)];
    other.handle_key(Key::Char('r'));
    assert_eq!(other.mode, Mode::Search);
    assert_eq!(other.search_origin, Mode::Menu);
    assert!(other.search_query.is_empty());
    assert!(other.search_results.is_empty());
}

#[test]
fn normal_keys_move_in_the_focused_pane() {
    let mut app = App::new(sample_books());
    app.handle_key(Key::Char('c'));
    app.handle_key(Key::Char('j'));
    assert_eq!(app.selected_verse, 1);
    app.handle_key(Key::Up);
    assert_eq!(app.selected_verse, 0);
    app.handle_key(Key::Tab);
    assert_eq!(app.active_pane, Pane::Tree);
    app.handle_key(Key::Down);
    assert_eq!(app.tree_selected, 2);
    app.handle_key(Key::Enter);
    assert_eq!(app.expanded_books, vec![false, true, false]);
    app.handle_key(Key::Char('n'));
    assert_eq!(app.selected_chapter, 1);
    app.handle_key(Key::Char('p'));
    assert_eq!(app.selected_chapter, 0);
    assert!(!app.handle_key(Key::Char('q')));
    assert_eq!(app.mode, Mode::Menu);
}

#[test]
fn search_keys_type_navigate_and_jump() {
    let mut app = App::new(sample_books());
    app.handle_key(Key::Char('c'));
    app.handle_key(Key::Char('/'));
    assert_eq!(app.mode, Mode::Search);
    assert_eq!(app.search_origin, Mode::Normal);
    for c in "thx".chars() {
        app.handle_key(Key::Char(c));
    }
    assert_eq!(app.search_query, "thx");
    assert!(app.search_results.is_empty());
    app.handle_key(Key::Backspace);
    assert_eq!(app.search_query, "th");
    assert_eq!(app.search_results.len(), 7);
    app.handle_key(Key::Char('j'));
    assert_eq!(app.search_query, "thj");
    app.handle_key(Key::Backspace);
    app.handle_key(Key::Tab);
    assert!(app.search_navigating);
    app.handle_key(Key::Char('j'));
    app.handle_key(Key::Down);
    assert_eq!(app.search_cursor, 2);
    app.handle_key(Key::Char('k'));
    assert_eq!(app.search_cursor, 1);
    let hit = app.search_results[1];
    app.handle_key(Key::Enter);
    assert!(!app.search_navigating);
    assert_eq!(app.mode, Mode::Normal);
    assert_eq!((app.selected_book, app.selected_chapter, app.selected_verse), hit);
}

#[test]
fn search_escape_goes_back_to_where_it_came_from() {
    let mut app = App::new(sample_books());
    app.handle_key(Key::Char('f'));
    app.handle_key(Key::Char('a'));
    app.handle_key(Key::Esc);
    assert_eq!(app.mode, Mode::Menu);
    assert!(app.search_query.is_empty());
    assert!(!app.search_navigating);
}

#[test]
fn backspace_on_an_empty_query_keeps_it_empty() {
    let mut app = App::new(sample_books());
    app.handle_key(Key::Char('f'));
    app.handle_key(Key::Backspace);
    assert!(app.search_query.is_empty());
    assert!(app.search_results.is_empty());
}

#[test]
fn keys_keep_the_reader_on_a_verse() {
    let mut app = App::new(sample_books());
    let keys = [
        Key::Char('c'), Key::Down, Key::Down, Key::Down, Key::Char('n'), Key::Char('n'),
        Key::Char('p'), Key::Tab, Key::Down, Key::Enter, Key::Down, Key::Enter, Key::Tab,
        Key::Up, Key::Char('/'), Key::Char('e'), Key::Tab, Key::Down, Key::Enter, Key::Char('p'),
        Key::Char('p'), Key::Char('p'), Key::Char('j'),
    ];
    for k in keys {
        app.handle_key(k);
        let b = &app.books[app.selected_book];
        let c = &b.chapters[app.selected_chapter];
        assert!(app.selected_verse < c.verses.len());
        assert!(app.scroll_offset <= app.selected_verse && app.selected_verse < app.scroll_offset + 10);
    }
}

// --- display and text -----------------------------------------------------

#[test]
fn verse_preview_cuts_long_verses() {
    let long = "a".repeat(45);
    assert_eq!(verse_preview(&long), format!("{}...", "a".repeat(40)));
    assert_eq!(verse_preview("short verse"), "short verse");
    let exactly = "b".repeat(40);
    assert_eq!(verse_preview(&exactly), exactly);
    let wide = "\u{e9}".repeat(30);
    assert_eq!(verse_preview(&wide), format!("{}...", wide));
}

#[test]
fn mode_labels() {
    assert_eq!(mode_label(Mode::Menu), "MENU");
    assert_eq!(mode_label(Mode::Normal), "NORMAL");
    assert_eq!(mode_label(Mode::Search), "SEARCH");
}

#[test]
fn parse_number_reads_like_str_parse() {
    let p = |s: &str| parse_number(&chars_of(s));
    assert_eq!(p("42"), Some(42));
    assert_eq!(p("+7"), Some(7));
    assert_eq!(p("007"), Some(7));
    assert_eq!(p("4294967295"), Some(u32::MAX));
    assert_eq!(p("4294967296"), None);
    assert_eq!(p("99999999999999999999"), None);
    assert_eq!(p(""), None);
    assert_eq!(p("+"), None);
    assert_eq!(p("-1"), None);
    assert_eq!(p("1a"), None);
    assert_eq!(p("\u{661}"), None);
    for s in ["12", "+3", "", "x", "4294967296", "0"] {
        assert_eq!(p(s), s.parse::<u32>().ok());
    }
}

#[test]
fn decimal_chars_spells_numbers() {
    let s = |n: u32| decimal_chars(n as u64).into_iter().collect::<String>();
    assert_eq!(s(0), "0");
    assert_eq!(s(7), "7");
    assert_eq!(s(105), "105");
    assert_eq!(s(u32::MAX), u32::MAX.to_string());
}

#[test]
fn contains_chars_finds_runs() {
    let c = |h: &str, n: &str| contains_chars(&chars_of(h), &chars_of(n));
    assert!(c("let there be light", "light"));
    assert!(c("abc", ""));
    assert!(c("abc", "abc"));
    assert!(!c("abc", "abcd"));
    assert!(!c("ab c", "bc"));
}

#[test]
fn search_lowers_letters_beyond_ascii() {
    let books = vec![book("Ezekiel", Testament::Old, vec![chapter(1, &["\u{c9}DEN and the river", "plain"])])];
    let mut app = App::new(books);
    app.search_query = "\u{e9}den".to_string();
    app.search_execute();
    assert_eq!(app.search_results, vec![(0, 0, 0)]);
    app.search_query = "\u{c9}DEN".to_string();
    app.search_execute();
    assert_eq!(app.search_results, vec![(0, 0, 0)]);
}

#[test]
fn typing_and_erasing_edit_the_query() {
    let mut app = App::new(sample_books());
    app.handle_key(Key::Char('f'));
    for c in "ab".chars() {
        app.handle_key(Key::Char(c));
    }
    assert_eq!(app.search_query, "ab");
    app.handle_key(Key::Backspace);
    assert_eq!(app.search_query, "a");
    app.handle_key(Key::Backspace);
    app.handle_key(Key::Backspace);
    assert_eq!(app.search_query, "");
}

#[test]
fn tree_down_undoes_tree_up() {
    let mut app = App::new(sample_books());
    app.tree_selected = 3;
    app.tree_up();
    assert_eq!(app.tree_selected, 2);
    app.tree_down();
    assert_eq!(app.tree_selected, 3);
}

#[test]
fn next_chapter_undoes_prev_chapter() {
    let mut app = App::new(sample_books());
    app.selected_book = 2;
    app.selected_verse = 1;
    app.prev_chapter();
    assert_eq!((app.selected_book, app.selected_chapter), (1, 0));
    app.next_chapter();
    assert_eq!((app.selected_book, app.selected_chapter, app.selected_verse, app.scroll_offset), (2, 0, 0, 0));
}

#[test]
fn keys_never_change_the_books() {
    let mut app = App::new(sample_books());
    for k in [Key::Char('c'), Key::Tab, Key::Enter, Key::Down, Key::Enter, Key::Char('/'), Key::Char('a'), Key::Esc] {
        app.handle_key(k);
        assert_eq!(app.books.len(), 3);
        assert_eq!(app.expanded_books.len(), 3);
        assert_eq!(app.books[0].name, "Genesis");
    }
}

#[test]
fn load_bible_text_parses_and_reads() {
    let text = r#"{"Mark": {"2": {"1": "second"}, "1": {"2": "b", "1": "a", "n": 5}}, "Genesis": [1, 2]}"#;
    let books = load_bible_text(text).unwrap();
    assert_eq!(books.len(), 1);
    assert_eq!(books[0].name, "Mark");
    assert_eq!(books[0].testament, Testament::New);
    let shape: Vec<(u32, Vec<(u32, String)>)> = books[0]
        .chapters
        .iter()
        .map(|c| (c.number, c.verses.iter().map(|v| (v.number, v.text.clone())).collect()))
        .collect();
    assert_eq!(
        shape,
        vec![
            (1, vec![(1, "a".to_string()), (2, "b".to_string())]),
            (2, vec![(1, "second".to_string())]),
        ]
    );
}

#[test]
fn load_bible_text_fails_on_no_json() {
    assert_eq!(load_bible_text("{not json").unwrap_err(), TextError::NoJson);
    assert_eq!(load_bible_text("").unwrap_err(), TextError::NoJson);
}

#[test]
fn load_bible_text_fails_without_books() {
    assert_eq!(load_bible_text("{}").unwrap_err(), TextError::NoBooks);
    assert_eq!(load_bible_text("[1, 2]").unwrap_err(), TextError::NoBooks);
    assert_eq!(load_bible_text(r#"{"Acts": {"1": {}}}"#).unwrap_err(), TextError::NoBooks);
}

#[test]
fn parse_json_keeps_strings_and_objects() {
    match parse_json(r#"{"a": "x", "b": 3}"#) {
        Some(JsonValue::Object(members)) => {
            assert_eq!(members.len(), 2);
            assert_eq!(members[0].0, "a");
            assert!(matches!(&members[0].1, JsonValue::Text(t) if t == "x"));
            assert_eq!(members[1].0, "b");
            assert!(matches!(members[1].1, JsonValue::Other));
        }
        _ => panic!("expected an object"),
    }
    assert!(matches!(parse_json(r#""text""#), Some(JsonValue::Text(t)) if t == "text"));
    assert!(parse_json("nope").is_none());
}

#[test]
fn canonical_distinct_keys_give_strictly_ascending_numbers() {
    let text = r#"{"John": {"3": {"16": "For God", "2": "b", "1": "a"}, "1": {"1": "In the beginning"}}}"#;
    let books = load_bible_text(text).unwrap();
    for c in books[0].chapters.windows(2) {
        assert!(c[0].number < c[1].number);
    }
    for c in &books[0].chapters {
        for v in c.verses.windows(2) {
            assert!(v[0].number < v[1].number);
        }
    }
    let numbers: Vec<u32> = books[0].chapters[1].verses.iter().map(|v| v.number).collect();
    assert_eq!(numbers, vec![1, 2, 16]);
}

#[test]
fn longer_query_keeps_only_earlier_hits() {
    let mut app = App::new(sample_books());
    app.search_query = "th".to_string();
    app.search_execute();
    let before = app.search_results.clone();
    app.search_query = "the".to_string();
    app.search_execute();
    assert!(app.search_results.iter().all(|t| before.contains(t)));
    app.search_query = "ther".to_string();
    app.search_execute();
    assert_eq!(app.search_results, vec![(0, 0, 2)]);
}

#[test]
fn search_message_prompts_or_reports_nothing_found() {
    let mut app = App::new(sample_books());
    assert_eq!(search_message(&app), Some("Type to search all verses..."));
    app.search_query = "zebra".to_string();
    assert_eq!(search_message(&app), Some("No results found"));
    app.search_results = vec![(0, 0, 0)];
    assert_eq!(search_message(&app), None);
}

#[test]
fn result_count_header_counts() {
    assert_eq!(result_count_header(0), " 0 result(s) ");
    assert_eq!(result_count_header(12), " 12 result(s) ");
}

#[test]
fn search_rows_list_existing_hits() {
    let mut app = App::new(sample_books());
    app.books[2].chapters[0].number = 5;
    app.search_results = vec![(0, 0, 2), (9, 0, 0), (2, 0, 1), (0, 0, 7)];
    app.search_cursor = 2;
    let rows = search_rows(&app);
    assert_eq!(rows.len(), 2);
    assert_eq!(rows[0].reference, " Genesis  1:3 ");
    assert_eq!(rows[0].preview, "Let there be light");
    assert!(!rows[0].selected);
    assert_eq!(rows[1].reference, " Matthew  5:2 ");
    assert!(rows[1].selected);
}

#[test]
fn reader_text_shows_the_open_chapter() {
    let mut app = App::new(long_chapter_books());
    app.selected_verse = 3;
    app.scroll_offset = 2;
    let shown = reader_text(&app, 5).unwrap();
    assert_eq!(shown.title, " Psalms \u{2014} Chapter 1 ");
    assert_eq!(shown.heading, "Psalms, Chapter 1");
    assert_eq!(shown.lines.len(), 5);
    match &shown.lines[0] {
        ReaderLine::Verse { number, text, selected } => {
            assert_eq!(number, "  3 ");
            assert_eq!(text, "verse 3");
            assert!(!selected);
        }
        ReaderLine::Blank => panic!("expected a verse"),
    }
    assert!(matches!(shown.lines[1], ReaderLine::Blank));
    assert!(matches!(&shown.lines[2], ReaderLine::Verse { selected: true, .. }));
    app.scroll_offset = 14;
    let end = reader_text(&app, 5).unwrap();
    assert_eq!(end.lines.len(), 2);
    app.scroll_offset = 40;
    assert_eq!(reader_text(&app, 5).unwrap().lines.len(), 0);
    app.selected_chapter = 3;
    assert!(reader_text(&app, 5).is_none());
}

#[test]
fn reader_text_pads_verse_numbers_to_three_places() {
    let mut books = long_chapter_books();
    books[0].chapters[0].verses[0].number = 42;
    books[0].chapters[0].verses[1].number = 1234;
    let app = App::new(books);
    let shown = reader_text(&app, 3).unwrap();
    assert!(matches!(&shown.lines[0], ReaderLine::Verse { number, .. } if number == " 42 "));
    assert!(matches!(&shown.lines[2], ReaderLine::Verse { number, .. } if number == "1234 "));
}

#[test]
fn tree_row_texts_describe_each_row() {
    let mut app = App::new(sample_books());
    app.books[2].name = "Mark".to_string();
    app.expanded_books[0] = true;
    app.tree_selected = 3;
    app.selected_chapter = 1;
    let rows = tree_row_texts(&app);
    assert_eq!(rows.len(), 7);
    assert!(matches!(&rows[0], TreeRowText::Heading { text } if text == "  OLD TESTAMENT"));
    match &rows[1] {
        TreeRowText::Book { arrow, name, count, long_name, selected } => {
            assert_eq!(arrow, " \u{25bc} ");
            assert_eq!(name, "Genesis");
            assert_eq!(count, " 2");
            assert!(*long_name);
            assert!(!*selected);
        }
        _ => panic!("expected a book row"),
    }
    match &rows[2] {
        TreeRowText::Chapter { connector, label, selected, open } => {
            assert_eq!(connector, "   \u{2502} ");
            assert_eq!(label, "Ch 1");
            assert!(!*selected);
            assert!(!*open);
        }
        _ => panic!("expected a chapter row"),
    }
    match &rows[3] {
        TreeRowText::Chapter { connector, label, selected, open } => {
            assert_eq!(connector, "   \u{2514} ");
            assert_eq!(label, "Ch 2");
            assert!(*selected);
            assert!(*open);
        }
        _ => panic!("expected a chapter row"),
    }
    assert!(matches!(&rows[4], TreeRowText::Book { arrow, .. } if arrow == " \u{25b6} "));
    assert!(matches!(&rows[5], TreeRowText::Heading { text } if text == "  NEW TESTAMENT"));
    assert!(matches!(&rows[6], TreeRowText::Book { long_name: false, .. }));
}

#[test]
fn unfolding_a_book_inserts_its_chapters_after_it() {
    let mut app = App::new(sample_books());
    let before = tree_shape(&app.flat_tree());
    app.expanded_books[1] = true;
    let after = tree_shape(&app.flat_tree());
    assert_eq!(before, vec!["T:Old Testament", "B:0:false", "B:1:false", "T:New Testament", "B:2:false"]);
    assert_eq!(after, vec!["T:Old Testament", "B:0:false", "B:1:true", "C:1:0", "T:New Testament", "B:2:false"]);
}
