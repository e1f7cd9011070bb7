//! Metadata describing a loaded PDF file, and the file-extension check used
//! when deciding whether a path refers to a PDF.
use vstd::prelude::*;

verus! {

/// Basic facts about a PDF file on disk, as reported to the UI layer.
pub struct PdfMetadata {
    pub path: String,
    pub file_name: String,
    pub file_size: u64,
    pub num_pages: Option<u32>,
}

/// True exactly when `s` is the three-character extension "pdf" in any
/// mixture of ASCII case.
pub open spec fn is_pdf_ext(s: Seq<char>) -> bool {
    &&& s.len() == 3
    &&& (s[0] == 'p' || s[0] == 'P')
    &&& (s[1] == 'd' || s[1] == 'D')
    &&& (s[2] == 'f' || s[2] == 'F')
}

/// Decides whether a file extension names a PDF, ignoring ASCII case.
pub fn is_pdf_extension(ext: &str) -> (r: bool)
    ensures
        r == is_pdf_ext(ext@),
{
    let n = ext.unicode_len();
    if n != 3 {
        return false;
    }
    let c0 = ext.get_char(0);
    let c1 = ext.get_char(1);
    let c2 = ext.get_char(2);
    (c0 == 'p' || c0 == 'P') && (c1 == 'd' || c1 == 'D') && (c2 == 'f' || c2 == 'F')
}

} // verus!
