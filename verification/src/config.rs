//! Defaults of the configuration and the parts of it that are not numbers
//! with a fraction: the backend to talk to and the model to use.
use vstd::prelude::*;

use crate::text::{owned, strip_trailing, trim_end_char};

verus! {

/// Where the OpenAI-compatible server is and how to authenticate.
#[derive(Clone, Debug)]
pub struct Backend {
    /// Base URL of an OpenAI-compatible server, such as
    /// `http://localhost:8080/v1` (llama.cpp), `http://localhost:11434/v1`
    /// (Ollama) or `https://api.together.xyz/v1`.
    pub base_url: String,
    /// Optional API key, sent as a bearer token. Most local servers need none.
    pub api_key: Option<String>,
}

/// Tokens of context assumed when the configuration names none.
pub const DEFAULT_CONTEXT_WINDOW: usize = 8192;

/// The backend used when there is no configuration file: a local Ollama.
pub fn default_backend() -> (r: Backend)
    ensures
        r.base_url@ == "http://localhost:11434/v1"@,
        r.api_key is None,
{
    Backend { base_url: owned("http://localhost:11434/v1"), api_key: None }
}

/// The model used when there is no configuration file.
pub fn default_model() -> (r: String)
    ensures
        r@ == "llama3:8b"@,
{
    owned("llama3:8b")
}

/// A base URL with its trailing slashes removed, so that endpoint paths
/// can be appended with one `/`.
pub fn normalize_base_url(url: &str) -> (r: String)
    ensures
        r@ == strip_trailing(url@, '/'),
{
    trim_end_char(url, '/')
}

/// A normalized base URL does not end with `/`, and normalizing it again
/// changes nothing.
pub proof fn lemma_normalized_url(url: Seq<char>)
    ensures
        strip_trailing(url, '/').len() == 0 || strip_trailing(url, '/').last() != '/',
        strip_trailing(strip_trailing(url, '/'), '/') == strip_trailing(url, '/'),
    decreases url.len(),
{
    if url.len() > 0 && url.last() == '/' {
        lemma_normalized_url(url.drop_last());
    }
}

} // verus!
