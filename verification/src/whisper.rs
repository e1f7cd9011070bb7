//! Configuration for the audio transcription backend, and the audio
//! formats it accepts.
//!
//! Transcription itself is not implemented: running a speech model needs
//! native build tooling and lives with the caller. What the library holds
//! is the plain configuration handed to such a backend, with the model
//! location as a plain path string.
use vstd::prelude::*;
use vstd::string::StringExecFns;

verus! {

/// How a transcription run is parameterized.
pub struct WhisperConfig {
    pub model_path: String,
    pub language: Option<String>,
    pub translate: bool,
    pub no_context: bool,
    pub single_segment: bool,
}

/// The audio container formats a transcription backend accepts.
pub fn get_supported_formats() -> (r: Vec<String>)
    ensures
        r@.len() == 5,
        r@[0]@ == "wav"@,
        r@[1]@ == "mp3"@,
        r@[2]@ == "ogg"@,
        r@[3]@ == "flac"@,
        r@[4]@ == "m4a"@,
{
    let mut r: Vec<String> = Vec::new();
    r.push(String::from_str("wav"));
    r.push(String::from_str("mp3"));
    r.push(String::from_str("ogg"));
    r.push(String::from_str("flac"));
    r.push(String::from_str("m4a"));
    r
}

} // verus!
