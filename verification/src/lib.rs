//! Core library of a desktop PDF-reading backend: a chunked translation
//! pipeline with a memoizing transform cache, a heuristic language detector,
//! an in-memory credential store, and small helpers for model files and
//! document hashing.
use vstd::prelude::*;

mod assoc;
pub mod chunk;
pub mod hash;
pub mod keychain;
pub mod model_manager;
pub mod ocr;
pub mod pdf;
mod strutil;
pub mod translation;
pub mod whisper;

pub use chunk::chunk_text;
pub use hash::hash_bytes;
pub use keychain::APIKey;
pub use keychain::KeychainError;
pub use keychain::KeychainService;
pub use model_manager::DownloadStatus;
pub use model_manager::ModelInfo;
pub use model_manager::get_available_models;
pub use model_manager::is_model_file_name;
pub use ocr::OCRService;
pub use pdf::PdfMetadata;
pub use pdf::is_pdf_extension;
pub use translation::DocumentTranslationResult;
pub use translation::PageTranslationResult;
pub use translation::TranslationChunk;
pub use translation::TranslationOptions;
pub use translation::TranslationResult;
pub use translation::TranslationService;
pub use whisper::WhisperConfig;
pub use whisper::get_supported_formats;

verus! {

/// The service instances the command layer dispatches to. Callers that
/// share one state across threads put it behind their own lock; the
/// services themselves are plain values.
pub struct AppState {
    pub translation: TranslationService,
    pub ocr: OCRService,
    pub keychain: KeychainService,
}

impl AppState {
    /// Fresh services: an empty translation cache and an empty credential
    /// store.
    pub fn new() -> (s: Self)
        ensures
            s.translation.wf(),
            s.translation.cache_map() == Map::<Seq<char>, Seq<char>>::empty(),
            s.translation.calls() == 0,
            s.keychain.wf(),
            s.keychain.store_map() == Map::<Seq<char>, Seq<char>>::empty(),
    {
        AppState {
            translation: TranslationService::new(),
            ocr: OCRService::new(),
            keychain: KeychainService::new(),
        }
    }
}

impl Default for AppState {
    /// Fresh services, as `new` makes them.
    fn default() -> (s: Self)
        ensures
            s.translation.wf(),
            s.translation.cache_map() == Map::<Seq<char>, Seq<char>>::empty(),
            s.translation.calls() == 0,
            s.keychain.wf(),
            s.keychain.store_map() == Map::<Seq<char>, Seq<char>>::empty(),
    {
        Self::new()
    }
}

} // verus!
