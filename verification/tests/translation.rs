use pdf_reader_core::TranslationOptions;
use pdf_reader_core::TranslationService;

fn options(source: Option<&str>, target: &str) -> TranslationOptions {
    TranslationOptions {
        source_language: source.map(|s| s.to_string()),
        target_language: target.to_string(),
        preserve_formatting: None,
    }
}

#[test]
fn mock_transform_tags_with_target_language() {
    let mut svc = TranslationService::new();
    let r = svc.translate_text("hi", &options(None, "es"));
    assert_eq!(r.translated, "[ES: hi]");
    assert_eq!(r.original, "hi");
    assert_eq!(r.source_language, "en");
    assert_eq!(r.target_language, "es");
}

#[test]
fn second_identical_call_is_served_from_cache() {
    let mut svc = TranslationService::new();
    let first = svc.translate_text("hi", &options(None, "es"));
    assert_eq!(svc.transform_call_count(), 1);
    let second = svc.translate_text("hi", &options(None, "es"));
    assert_eq!(first.translated, second.translated);
    assert_eq!(second.translated, "[ES: hi]");
    assert_eq!(svc.transform_call_count(), 1);
}

#[test]
fn different_targets_are_cached_separately() {
    let mut svc = TranslationService::new();
    let es = svc.translate_text("hello", &options(None, "es"));
    let fr = svc.translate_text("hello", &options(None, "fr"));
    assert_eq!(es.translated, "[ES: hello]");
    assert_eq!(fr.translated, "[FR: hello]");
    assert_eq!(svc.transform_call_count(), 2);
}

#[test]
fn unknown_target_passes_text_through() {
    let mut svc = TranslationService::new();
    let r = svc.translate_text("hello", &options(None, "xx"));
    assert_eq!(r.translated, "hello");
}

#[test]
fn named_source_language_is_reported_back() {
    let mut svc = TranslationService::new();
    let r = svc.translate_text("hello", &options(Some("de"), "es"));
    assert_eq!(r.source_language, "de");
}

#[test]
fn non_latin_targets_use_their_native_tags() {
    let mut svc = TranslationService::new();
    assert_eq!(svc.translate_text("x", &options(None, "zh")).translated, "[中文: x]");
    assert_eq!(svc.translate_text("x", &options(None, "ja")).translated, "[日本語: x]");
    assert_eq!(svc.translate_text("x", &options(None, "ar")).translated, "[عربي: x]");
    assert_eq!(svc.translate_text("x", &options(None, "hi")).translated, "[हिन्दी: x]");
    assert_eq!(svc.translate_text("x", &options(None, "de")).translated, "[DE: x]");
}

#[test]
fn page_offsets_follow_the_join_spaces() {
    let mut svc = TranslationService::new();
    // Two long words force several chunks at the default size of 500.
    let w1 = "a".repeat(400);
    let w2 = "b".repeat(400);
    let text = format!("{} {} tail", w1, w2);
    let page = svc.translate_page(&text, 3, &options(None, "es"));
    assert_eq!(page.page_number, 3);
    assert_eq!(page.original, text);
    assert!(page.chunks.len() > 1);
    assert_eq!(page.chunks[0].start_offset, 0);
    for (i, c) in page.chunks.iter().enumerate() {
        assert_eq!(c.index, i);
        assert_eq!(c.end_offset - c.start_offset, c.original.chars().count());
        if i + 1 < page.chunks.len() {
            assert_eq!(page.chunks[i + 1].start_offset, c.end_offset + 1);
        }
    }
}

#[test]
fn page_translation_joins_chunk_translations() {
    let mut svc = TranslationService::new();
    let page = svc.translate_page("hola mundo", 1, &options(None, "fr"));
    assert_eq!(page.chunks.len(), 1);
    assert_eq!(page.translated, "[FR: hola mundo]");
    assert_eq!(page.chunks[0].start_offset, 0);
    assert_eq!(page.chunks[0].end_offset, 10);
}

#[test]
fn page_translation_reuses_the_cache() {
    let mut svc = TranslationService::new();
    svc.translate_page("same text", 1, &options(None, "es"));
    let calls_after_first = svc.transform_call_count();
    svc.translate_page("same text", 2, &options(None, "es"));
    assert_eq!(svc.transform_call_count(), calls_after_first);
}

#[test]
fn document_over_zero_pages_is_empty_not_an_error() {
    let mut svc = TranslationService::new();
    let d = svc.translate_document(Vec::new(), &options(None, "es"));
    assert_eq!(d.total_pages, 0);
    assert!(d.pages.is_empty());
    assert_eq!(d.source_language, "en");
    assert_eq!(d.target_language, "es");
}

#[test]
fn document_translates_pages_in_order() {
    let mut svc = TranslationService::new();
    let pages = vec![(1usize, "one".to_string()), (2usize, "two".to_string())];
    let d = svc.translate_document(pages, &options(Some("en"), "de"));
    assert_eq!(d.total_pages, 2);
    assert_eq!(d.pages.len(), 2);
    assert_eq!(d.pages[0].page_number, 1);
    assert_eq!(d.pages[0].translated, "[DE: one]");
    assert_eq!(d.pages[1].page_number, 2);
    assert_eq!(d.pages[1].translated, "[DE: two]");
    assert_eq!(d.source_language, "en");
    assert!(!d.completed_at.is_empty());
}

#[test]
fn detect_language_matches_character_classes() {
    let svc = TranslationService::new();
    assert_eq!(svc.detect_language("café"), "fr");
    assert_eq!(svc.detect_language("hello"), "en");
    assert_eq!(svc.detect_language("北京"), "zh");
    assert_eq!(svc.detect_language("gro\u{df}e"), "de");
    assert_eq!(svc.detect_language("mañana"), "es");
}

#[test]
fn detect_language_priority_is_cjk_then_french() {
    let svc = TranslationService::new();
    // 'ä' belongs to both the French and the German class: French wins.
    assert_eq!(svc.detect_language("ä"), "fr");
    // CJK outranks everything else.
    assert_eq!(svc.detect_language("café 北京"), "zh");
}
