use bible_presenter::store::{BibleStore, Verse};

fn verse(book: &str, chapter: i32, verse_no: i32, text: &str, version: &str) -> Verse {
    Verse {
        book: book.to_string(),
        chapter,
        verse: verse_no,
        text: text.to_string(),
        version: version.to_string(),
    }
}

fn store_with(texts: &[(&str, i32, i32, &str)]) -> BibleStore {
    let records: Vec<Verse> =
        texts.iter().map(|(b, c, v, t)| verse(b, *c, *v, t, "KJV")).collect();
    BibleStore::new(vec![("KJV".to_string(), records)], 0).unwrap()
}

#[test]
fn stop_words_only_query_is_empty() {
    let store = store_with(&[("John", 3, 16, "For God so loved the world")]);
    let r = store.search_manual("the and for that", "KJV");
    assert!(r.is_empty());
}

#[test]
fn short_tokens_are_ignored() {
    let store = store_with(&[("John", 3, 16, "a b c d")]);
    let r = store.search_manual("a b c", "KJV");
    assert!(r.is_empty());
}

#[test]
fn empty_query_is_empty() {
    let store = store_with(&[("John", 3, 16, "For God so loved the world")]);
    assert!(store.search_manual("", "KJV").is_empty());
    assert!(store.search_manual("   ", "KJV").is_empty());
}

#[test]
fn scores_order_results_descending() {
    let store = store_with(&[
        ("John", 1, 1, "light shines in darkness"),
        ("John", 1, 2, "grace and truth and light and love"),
        ("John", 1, 3, "no match here"),
    ]);
    let r = store.search_manual("light love", "KJV");
    assert_eq!(r.len(), 2);
    // Verse 2 matches both terms, verse 1 only one.
    assert_eq!(r[0].verse, 2);
    assert_eq!(r[1].verse, 1);
}

#[test]
fn ties_break_by_corpus_order() {
    let store = store_with(&[
        ("John", 1, 1, "love first"),
        ("John", 1, 2, "love second"),
        ("John", 1, 3, "love third"),
    ]);
    let r = store.search_manual("love", "KJV");
    assert_eq!(r.len(), 3);
    assert_eq!(r[0].verse, 1);
    assert_eq!(r[1].verse, 2);
    assert_eq!(r[2].verse, 3);
}

#[test]
fn results_are_capped_at_ten() {
    let records: Vec<(String, i32)> =
        (1..=15).map(|i| ("light everywhere".to_string(), i)).collect();
    let verses: Vec<Verse> =
        records.iter().map(|(t, i)| verse("John", 1, *i, t, "KJV")).collect();
    let store = BibleStore::new(vec![("KJV".to_string(), verses)], 0).unwrap();
    let r = store.search_manual("light", "KJV");
    assert_eq!(r.len(), 10);
    assert_eq!(r[0].verse, 1);
    assert_eq!(r[9].verse, 10);
}

#[test]
fn search_is_case_insensitive_on_both_sides() {
    let store = store_with(&[("John", 3, 16, "For GOD so LOVED the world")]);
    let r = store.search_manual("god loved", "KJV");
    assert_eq!(r.len(), 1);
}

#[test]
fn unknown_translation_finds_nothing() {
    let store = store_with(&[("John", 3, 16, "For God so loved the world")]);
    assert!(store.search_manual("loved", "ESV").is_empty());
}

#[test]
fn all_versions_search_spans_translations() {
    let kjv = vec![verse("John", 3, 16, "For God so loved the world", "KJV")];
    let niv = vec![verse("John", 3, 16, "For God so loved the world that he gave", "NIV")];
    let store =
        BibleStore::new(vec![("KJV".to_string(), kjv), ("NIV".to_string(), niv)], 0).unwrap();
    let r = store.search_manual_all_versions("loved");
    assert_eq!(r.len(), 2);
    assert_eq!(r[0].version, "KJV");
    assert_eq!(r[1].version, "NIV");
}

#[test]
fn get_verse_matches_book_case_insensitively() {
    let store = store_with(&[("John", 3, 16, "For God so loved the world")]);
    let v = store.get_verse("JOHN", 3, 16, "KJV").unwrap();
    assert_eq!(v.book, "John");
    assert!(store.get_verse("John", 3, 17, "KJV").is_none());
    assert!(store.get_verse("John", 3, 16, "NIV").is_none());
}

#[test]
fn get_next_verse_within_chapter() {
    let store = store_with(&[
        ("John", 3, 16, "sixteen"),
        ("John", 3, 17, "seventeen"),
    ]);
    let v = store.get_next_verse("John", 3, 16, "KJV").unwrap();
    assert_eq!(v.verse, 17);
}

#[test]
fn get_next_verse_crosses_into_next_chapter() {
    let store = store_with(&[
        ("John", 3, 36, "last of chapter three"),
        ("John", 4, 1, "first of chapter four"),
        ("John", 4, 2, "second of chapter four"),
    ]);
    let v = store.get_next_verse("John", 3, 36, "KJV").unwrap();
    assert_eq!(v.chapter, 4);
    assert_eq!(v.verse, 1);
    assert!(store.get_next_verse("John", 4, 2, "KJV").is_none());
}

#[test]
fn browse_books_chapters_verses() {
    let store = store_with(&[
        ("Genesis", 1, 1, "one"),
        ("Genesis", 2, 1, "two"),
        ("Genesis", 2, 2, "three"),
        ("John", 3, 16, "four"),
    ]);
    let books = store.get_books("KJV");
    assert_eq!(books, vec!["Genesis".to_string(), "John".to_string()]);
    assert_eq!(store.get_chapters("Genesis", "KJV"), vec![1, 2]);
    assert_eq!(store.get_verses_count("Genesis", 2, "KJV"), vec![1, 2]);
    assert!(store.get_chapters("Mark", "KJV").is_empty());
}

#[test]
fn chapters_are_sorted_even_if_loaded_out_of_order() {
    let store = store_with(&[
        ("Genesis", 3, 1, "three"),
        ("Genesis", 1, 5, "one"),
        ("Genesis", 2, 1, "two"),
        ("Genesis", 1, 2, "one again"),
    ]);
    assert_eq!(store.get_chapters("Genesis", "KJV"), vec![1, 2, 3]);
    assert_eq!(store.get_verses_count("Genesis", 1, "KJV"), vec![2, 5]);
}

#[test]
fn versions_and_active_selector() {
    let kjv = vec![verse("John", 3, 16, "kjv text", "KJV")];
    let niv = vec![verse("John", 3, 16, "niv text", "NIV")];
    let mut store =
        BibleStore::new(vec![("KJV".to_string(), kjv), ("NIV".to_string(), niv)], 0).unwrap();
    assert_eq!(store.get_available_versions(), vec!["KJV".to_string(), "NIV".to_string()]);
    assert_eq!(store.get_active_version(), "KJV");
    store.set_active_version("NIV");
    assert_eq!(store.get_active_version(), "NIV");
    let v = store.detect_verse_by_ref("John 3:16").unwrap();
    assert_eq!(v.text, "niv text");
}
