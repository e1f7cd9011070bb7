//! OCR service stub.
//!
//! A placeholder for a real OCR engine: it never classifies a page as
//! scanned, so no recognition runs. The full recognition results carry
//! confidence scores and bounding boxes and live with the engine
//! integration, outside this library.
use vstd::prelude::*;

verus! {

/// The OCR service; the stub carries no state.
pub struct OCRService;

impl OCRService {
    /// Creates the stub service.
    pub fn new() -> (s: Self) {
        OCRService
    }

    /// Decides whether a page needs OCR because it has no text layer; the
    /// stub reports every page as having one.
    pub fn is_page_scanned(&self, _page_data: &[u8]) -> (r: bool)
        ensures
            !r,
    {
        false
    }
}

impl Default for OCRService {
    /// The stub service.
    fn default() -> (s: Self)
        ensures
            s == OCRService,
    {
        Self::new()
    }
}

} // verus!
