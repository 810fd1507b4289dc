//! Requests to and responses from the external translation provider.
//!
//! The provider takes ordered source lines and returns one translated line
//! per source line. Transport and error handling around the call are an
//! external collaborator; the library only shapes the request.

use vstd::prelude::*;
use vstd::string::*;

use crate::text::{split_on, split_spec};

verus! {

/// Ordered source lines to translate.
#[derive(Debug, Clone)]
pub struct TranslationRequest {
    pub src: Vec<String>,
}

/// The translated lines, one per source line.
#[derive(Debug)]
pub struct TranslationResponse {
    pub translated: Vec<String>,
}

impl TranslationRequest {
    /// Builds a request from raw text: one source line per newline-separated
    /// segment, kept verbatim.
    pub fn from_str(original: &String) -> (r: Self)
        ensures
            r.src.deep_view() == split_spec(original@, '\n'),
            r.src@.len() >= 1,
    {
        TranslationRequest { src: split_on(original.as_str(), '\n') }
    }
}

} // verus!
