//! Settings for the external recognition and translation services.
use vstd::prelude::*;

verus! {

/// Endpoint, credentials and model names used for the external calls.
#[derive(Clone, Debug)]
pub struct Config {
    pub base_url: String,
    pub api_key: String,
    pub ocr_model: String,
    pub translate_model: String,
    pub ocr_model_fallback: Option<String>,
    pub translate_model_fallback: Option<String>,
}

} // verus!
