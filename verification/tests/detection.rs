use bible_presenter::store::{BibleStore, DetectionSource, SemanticCandidate, Verse};

fn verse(book: &str, chapter: i32, verse_no: i32, text: &str, version: &str) -> Verse {
    Verse {
        book: book.to_string(),
        chapter,
        verse: verse_no,
        text: text.to_string(),
        version: version.to_string(),
    }
}

fn two_translation_store() -> BibleStore {
    let kjv = vec![
        verse("Genesis", 1, 1, "In the beginning God created the heaven and the earth.", "KJV"),
        verse("John", 3, 16, "For God so loved the world...", "KJV"),
        verse("John", 3, 17, "For God sent not his Son into the world to condemn...", "KJV"),
        verse("Romans", 8, 28, "And we know that all things work together for good...", "KJV"),
    ];
    let niv = vec![
        verse("Genesis", 1, 1, "In the beginning God created the heavens and the earth.", "NIV"),
        verse("John", 3, 16, "For God so loved the world that he gave...", "NIV"),
    ];
    let total = kjv.len() + niv.len();
    BibleStore::new(vec![("KJV".to_string(), kjv), ("NIV".to_string(), niv)], total).unwrap()
}

#[test]
fn explicit_reference_simple() {
    let store = two_translation_store();
    let v = store.detect_verse_by_ref("John 3:16").unwrap();
    assert_eq!(v.book, "John");
    assert_eq!(v.chapter, 3);
    assert_eq!(v.verse, 16);
    assert_eq!(v.version, "KJV");
}

#[test]
fn explicit_reference_inside_sentence() {
    let store = two_translation_store();
    let v = store.detect_verse_by_ref("please turn to romans 8 28 with me").unwrap();
    assert_eq!(v.book, "Romans");
    assert_eq!(v.chapter, 8);
    assert_eq!(v.verse, 28);
}

#[test]
fn explicit_reference_numbered_book_alias() {
    let store = two_translation_store();
    // "jn" is an alias for John; case-insensitive.
    let v = store.detect_verse_by_ref("Jn 3:17").unwrap();
    assert_eq!(v.book, "John");
    assert_eq!(v.verse, 17);
}

#[test]
fn explicit_reference_colon_and_space_forms() {
    let store = two_translation_store();
    assert!(store.detect_verse_by_ref("John 3 16").is_some());
    assert!(store.detect_verse_by_ref("John 3: 16").is_some());
    assert!(store.detect_verse_by_ref("John  3:16").is_some());
}

#[test]
fn unresolvable_reference_finds_nothing() {
    let store = two_translation_store();
    // A well-formed reference whose book does not exist fails the lookup
    // (it does not fall through to a later reference in the text).
    assert!(store.detect_verse_by_ref("zorblag 3:16 or John 3:16").is_none());
}

#[test]
fn malformed_text_is_not_an_error() {
    let store = two_translation_store();
    assert!(store.detect_verse_by_ref("no reference here").is_none());
    assert!(store.detect_verse_by_ref("").is_none());
    assert!(store.detect_verse_by_ref("12 3:4").is_none());
}

#[test]
fn overflowing_chapter_number_fails_detection() {
    let store = two_translation_store();
    assert!(store.detect_verse_by_ref("John 99999999999999999999:16").is_none());
}

#[test]
fn explicit_wins_over_semantic() {
    let store = two_translation_store();
    // Row 0 is Genesis 1:1 (KJV); a perfect semantic score for it must lose
    // to the explicit reference in the text.
    let semantic = Some(SemanticCandidate { row: 0, score_milli: 999 });
    let r = store.detect_verse_hybrid("John 3:16", semantic);
    assert_eq!(r.source, DetectionSource::ExplicitReference);
    assert_eq!(r.confidence_milli, 1000);
    let v = r.verse.unwrap();
    assert_eq!(v.book, "John");
    assert_eq!(v.chapter, 3);
    assert_eq!(v.verse, 16);
}

#[test]
fn below_threshold_returns_no_match() {
    let store = two_translation_store();
    let semantic = Some(SemanticCandidate { row: 0, score_milli: 449 });
    let r = store.detect_verse_hybrid("unrelated words", semantic);
    assert!(r.verse.is_none());
    assert_eq!(r.confidence_milli, 0);
    assert_eq!(r.source, DetectionSource::NoMatch);
    assert_eq!(r.source.tag(), "none");
}

#[test]
fn at_threshold_is_accepted() {
    let store = two_translation_store();
    let semantic = Some(SemanticCandidate { row: 1, score_milli: 450 });
    let r = store.detect_verse_hybrid("unrelated words", semantic);
    assert_eq!(r.source, DetectionSource::Semantic);
    assert_eq!(r.confidence_milli, 450);
    assert_eq!(r.verse.unwrap().verse, 16);
}

#[test]
fn semantic_match_reresolves_into_active_translation() {
    let mut store = two_translation_store();
    store.set_active_version("NIV");
    // Row 1 is John 3:16 in the KJV embedding space; the displayed record
    // must come from the active NIV text store.
    let semantic = Some(SemanticCandidate { row: 1, score_milli: 800 });
    let r = store.detect_verse_hybrid("unrelated words", semantic);
    assert_eq!(r.source, DetectionSource::Semantic);
    let v = r.verse.unwrap();
    assert_eq!(v.version, "NIV");
    assert_eq!(v.text, "For God so loved the world that he gave...");
}

#[test]
fn semantic_fallback_when_active_translation_lacks_locator() {
    let mut store = two_translation_store();
    store.set_active_version("NIV");
    // Romans 8:28 (row 3) exists only in the KJV; the matched record itself
    // is the fallback.
    let semantic = Some(SemanticCandidate { row: 3, score_milli: 700 });
    let r = store.detect_verse_hybrid("unrelated words", semantic);
    assert_eq!(r.source, DetectionSource::Semantic);
    let v = r.verse.unwrap();
    assert_eq!(v.version, "KJV");
    assert_eq!(v.book, "Romans");
}

#[test]
fn confidence_is_clamped_to_full() {
    let store = two_translation_store();
    let semantic = Some(SemanticCandidate { row: 1, score_milli: 1400 });
    let r = store.detect_verse_hybrid("unrelated words", semantic);
    assert_eq!(r.confidence_milli, 1000);
}

#[test]
fn no_semantic_candidate_means_no_match() {
    let store = two_translation_store();
    let r = store.detect_verse_hybrid("unrelated words", None);
    assert!(r.verse.is_none());
    assert_eq!(r.source, DetectionSource::NoMatch);
}

#[test]
fn out_of_range_row_is_rejected() {
    let store = two_translation_store();
    let semantic = Some(SemanticCandidate { row: 99, score_milli: 900 });
    let r = store.detect_verse_hybrid("unrelated words", semantic);
    assert!(r.verse.is_none());
    assert_eq!(r.source, DetectionSource::NoMatch);
}

#[test]
fn source_tags() {
    assert_eq!(DetectionSource::ExplicitReference.tag(), "explicit-reference");
    assert_eq!(DetectionSource::Semantic.tag(), "semantic");
    assert_eq!(DetectionSource::NoMatch.tag(), "none");
}

#[test]
fn embedding_mismatch_is_refused_at_construction() {
    let kjv = vec![verse("John", 3, 16, "For God so loved the world...", "KJV")];
    let r = BibleStore::new(vec![("KJV".to_string(), kjv)], 7);
    assert!(r.is_err());
}

#[test]
fn missing_embeddings_disable_semantic_search() {
    let kjv = vec![verse("John", 3, 16, "For God so loved the world...", "KJV")];
    let store = BibleStore::new(vec![("KJV".to_string(), kjv)], 0).unwrap();
    let semantic = Some(SemanticCandidate { row: 0, score_milli: 990 });
    let r = store.detect_verse_hybrid("unrelated words", semantic);
    assert!(r.verse.is_none());
}

#[test]
fn invalid_record_is_refused_at_construction() {
    let bad = vec![verse("John", 0, 16, "zero chapter", "KJV")];
    assert!(BibleStore::new(vec![("KJV".to_string(), bad)], 0).is_err());
    let mismatched = vec![verse("John", 3, 16, "wrong tag", "NIV")];
    assert!(BibleStore::new(vec![("KJV".to_string(), mismatched)], 0).is_err());
}

#[test]
fn reference_detection_is_case_insensitive() {
    let store = two_translation_store();
    let v = store.detect_verse_by_ref("JOHN 3:16").unwrap();
    assert_eq!(v.book, "John");
    let v2 = store.detect_verse_by_ref("1   john 2:3");
    // An alias key never holds doubled spaces; the raw token does not match
    // any stored book either, so nothing resolves.
    assert!(v2.is_none());
}
