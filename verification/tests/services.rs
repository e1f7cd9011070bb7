use pdf_reader_core::AppState;
use pdf_reader_core::OCRService;
use pdf_reader_core::get_available_models;
use pdf_reader_core::get_supported_formats;
use pdf_reader_core::hash_bytes;
use pdf_reader_core::is_model_file_name;
use pdf_reader_core::is_pdf_extension;

#[test]
fn model_catalogue_lists_the_five_whisper_sizes() {
    let models = get_available_models();
    let names: Vec<&str> = models.iter().map(|m| m.name.as_str()).collect();
    assert_eq!(
        names,
        vec![
            "Whisper Tiny",
            "Whisper Base",
            "Whisper Small",
            "Whisper Medium",
            "Whisper Large"
        ]
    );
    assert_eq!(models[0].size_mb, 75);
    assert_eq!(models[4].file_name, "ggml-large-v3.bin");
    assert!(models.iter().all(|m| m.language == "Multilingual"));
    assert!(models.iter().all(|m| m.download_url.starts_with("https://huggingface.co/")));
}

#[test]
fn model_file_names_end_in_bin() {
    assert!(is_model_file_name("ggml-tiny.bin"));
    assert!(is_model_file_name(".bin"));
    assert!(!is_model_file_name("ggml-tiny.bin.part"));
    assert!(!is_model_file_name("readme.txt"));
    assert!(!is_model_file_name("bin"));
    assert!(!is_model_file_name(""));
}

#[test]
fn supported_audio_formats_are_fixed() {
    assert_eq!(get_supported_formats(), vec!["wav", "mp3", "ogg", "flac", "m4a"]);
}

#[test]
fn pdf_extension_check_ignores_ascii_case() {
    assert!(is_pdf_extension("pdf"));
    assert!(is_pdf_extension("PDF"));
    assert!(is_pdf_extension("Pdf"));
    assert!(!is_pdf_extension("pdfx"));
    assert!(!is_pdf_extension("txt"));
    assert!(!is_pdf_extension(""));
}

#[test]
fn ocr_stub_never_reports_a_scanned_page() {
    let ocr = OCRService::new();
    assert!(!ocr.is_page_scanned(&[1, 2, 3]));
    assert!(!ocr.is_page_scanned(&[]));
}

#[test]
fn hash_matches_known_sha256_digests() {
    assert_eq!(
        hash_bytes(&[]),
        "e3b0c44298fc1c149afbf4c8996fb92427ae41e4649b934ca495991b7852b855"
    );
    assert_eq!(
        hash_bytes(b"abc"),
        "ba7816bf8f01cfea414140de5dae2223b00361a396177a9cb410ff61f20015ad"
    );
}

#[test]
fn hash_depends_on_the_input() {
    assert_ne!(hash_bytes(b"abc"), hash_bytes(b"abd"));
    assert_eq!(hash_bytes(b"abc").len(), 64);
}

#[test]
fn app_state_starts_with_fresh_services() {
    let mut state = AppState::default();
    assert_eq!(state.translation.transform_call_count(), 0);
    assert!(!state.keychain.has_key("any"));
    assert!(!state.ocr.is_page_scanned(&[0u8]));
    let opts = pdf_reader_core::TranslationOptions {
        source_language: None,
        target_language: "es".to_string(),
        preserve_formatting: Some(true),
    };
    let r = state.translation.translate_text("hello", &opts);
    assert_eq!(r.translated, "[ES: hello]");
}
