//! The catalogue of downloadable speech models and the naming rule for
//! model files on disk.
//!
//! Locating, deleting and measuring model files is file-system work and
//! lives with the caller; this module holds the fixed catalogue and the
//! file-name test the directory listing filters with.
use vstd::prelude::*;
use vstd::string::StrSliceExecFns;
use vstd::string::StringExecFns;

verus! {

/// One downloadable model: its display name, size, source URL, file name
/// on disk, description, and language coverage.
pub struct ModelInfo {
    pub name: String,
    pub size_mb: u64,
    pub download_url: String,
    pub file_name: String,
    pub description: String,
    pub language: String,
}

/// Where a model download stands.
pub enum DownloadStatus {
    Pending,
    Downloading,
    Completed,
    Failed,
    Paused,
}

/// The fixed catalogue: the five Whisper model sizes, smallest first.
pub open spec fn catalogue_listed(ms: Seq<ModelInfo>) -> bool {
    &&& ms.len() == 5
    &&& ms[0].name@ == "Whisper Tiny"@
    &&& ms[0].size_mb == 75
    &&& ms[0].download_url@
        == "https://huggingface.co/ggerganov/whisper.cpp/resolve/main/ggml-tiny.bin"@
    &&& ms[0].file_name@ == "ggml-tiny.bin"@
    &&& ms[0].description@ == "Fastest, least accurate. Good for quick tests."@
    &&& ms[0].language@ == "Multilingual"@
    &&& ms[1].name@ == "Whisper Base"@
    &&& ms[1].size_mb == 142
    &&& ms[1].download_url@
        == "https://huggingface.co/ggerganov/whisper.cpp/resolve/main/ggml-base.bin"@
    &&& ms[1].file_name@ == "ggml-base.bin"@
    &&& ms[1].description@ == "Balanced speed and accuracy."@
    &&& ms[1].language@ == "Multilingual"@
    &&& ms[2].name@ == "Whisper Small"@
    &&& ms[2].size_mb == 466
    &&& ms[2].download_url@
        == "https://huggingface.co/ggerganov/whisper.cpp/resolve/main/ggml-small.bin"@
    &&& ms[2].file_name@ == "ggml-small.bin"@
    &&& ms[2].description@ == "Good accuracy, reasonable speed. Recommended."@
    &&& ms[2].language@ == "Multilingual"@
    &&& ms[3].name@ == "Whisper Medium"@
    &&& ms[3].size_mb == 1500
    &&& ms[3].download_url@
        == "https://huggingface.co/ggerganov/whisper.cpp/resolve/main/ggml-medium.bin"@
    &&& ms[3].file_name@ == "ggml-medium.bin"@
    &&& ms[3].description@ == "High accuracy, slower. For better quality."@
    &&& ms[3].language@ == "Multilingual"@
    &&& ms[4].name@ == "Whisper Large"@
    &&& ms[4].size_mb == 2900
    &&& ms[4].download_url@
        == "https://huggingface.co/ggerganov/whisper.cpp/resolve/main/ggml-large-v3.bin"@
    &&& ms[4].file_name@ == "ggml-large-v3.bin"@
    &&& ms[4].description@ == "Best accuracy, slowest. Requires significant resources."@
    &&& ms[4].language@ == "Multilingual"@
}

/// The models available for download.
pub fn get_available_models() -> (ms: Vec<ModelInfo>)
    ensures
        catalogue_listed(ms@),
{
    let mut ms: Vec<ModelInfo> = Vec::new();
    ms.push(
        ModelInfo {
            name: String::from_str("Whisper Tiny"),
            size_mb: 75,
            download_url: String::from_str(
                "https://huggingface.co/ggerganov/whisper.cpp/resolve/main/ggml-tiny.bin",
            ),
            file_name: String::from_str("ggml-tiny.bin"),
            description: String::from_str("Fastest, least accurate. Good for quick tests."),
            language: String::from_str("Multilingual"),
        },
    );
    ms.push(
        ModelInfo {
            name: String::from_str("Whisper Base"),
            size_mb: 142,
            download_url: String::from_str(
                "https://huggingface.co/ggerganov/whisper.cpp/resolve/main/ggml-base.bin",
            ),
            file_name: String::from_str("ggml-base.bin"),
            description: String::from_str("Balanced speed and accuracy."),
            language: String::from_str("Multilingual"),
        },
    );
    ms.push(
        ModelInfo {
            name: String::from_str("Whisper Small"),
            size_mb: 466,
            download_url: String::from_str(
                "https://huggingface.co/ggerganov/whisper.cpp/resolve/main/ggml-small.bin",
            ),
            file_name: String::from_str("ggml-small.bin"),
            description: String::from_str("Good accuracy, reasonable speed. Recommended."),
            language: String::from_str("Multilingual"),
        },
    );
    ms.push(
        ModelInfo {
            name: String::from_str("Whisper Medium"),
            size_mb: 1500,
            download_url: String::from_str(
                "https://huggingface.co/ggerganov/whisper.cpp/resolve/main/ggml-medium.bin",
            ),
            file_name: String::from_str("ggml-medium.bin"),
            description: String::from_str("High accuracy, slower. For better quality."),
            language: String::from_str("Multilingual"),
        },
    );
    ms.push(
        ModelInfo {
            name: String::from_str("Whisper Large"),
            size_mb: 2900,
            download_url: String::from_str(
                "https://huggingface.co/ggerganov/whisper.cpp/resolve/main/ggml-large-v3.bin",
            ),
            file_name: String::from_str("ggml-large-v3.bin"),
            description: String::from_str("Best accuracy, slowest. Requires significant resources."),
            language: String::from_str("Multilingual"),
        },
    );
    ms
}

/// A file name in the model format the directory listing keeps: it ends
/// in ".bin".
pub open spec fn is_model_file(s: Seq<char>) -> bool {
    s.len() >= 4 && s.subrange(s.len() - 4, s.len() as int) == ".bin"@
}

/// Decides whether a directory entry names a model file.
pub fn is_model_file_name(name: &str) -> (r: bool)
    ensures
        r == is_model_file(name@),
{
    proof {
        reveal_strlit(".bin");
    }
    let n = name.unicode_len();
    if n < 4 {
        return false;
    }
    let ghost tail = name@.subrange(name@.len() - 4, name@.len() as int);
    let c0 = name.get_char(n - 4);
    let c1 = name.get_char(n - 3);
    let c2 = name.get_char(n - 2);
    let c3 = name.get_char(n - 1);
    if c0 == '.' && c1 == 'b' && c2 == 'i' && c3 == 'n' {
        proof {
            assert(tail =~= ".bin"@);
        }
        true
    } else {
        proof {
            assert(tail[0] == c0 && tail[1] == c1 && tail[2] == c2 && tail[3] == c3);
            assert(tail != ".bin"@);
        }
        false
    }
}

} // verus!
