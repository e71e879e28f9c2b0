//! Names of the language-model backends' models. The HTTP client that talks
//! to a backend is an external collaborator and lives with the embedding
//! program; the library only fixes which model identifier each choice denotes.

use vstd::prelude::*;

verus! {

#[derive(Debug, Clone)]
pub enum OllamaModel {
    GPToss,
    Gemma2_2b,
    Gemma3_4b,
    Qwen3_8B,
    Custom(String),
}

impl OllamaModel {
    /// The identifier that `to_string` produces.
    pub open spec fn spec_name(&self) -> Seq<char> {
        match self {
            OllamaModel::GPToss => "gpt-oss:20b"@,
            OllamaModel::Gemma2_2b => "gemma2:2b"@,
            OllamaModel::Gemma3_4b => "gemma3:4b"@,
            OllamaModel::Qwen3_8B => "qwen3:8b"@,
            OllamaModel::Custom(name) => name@,
        }
    }

    pub fn to_string(&self) -> (r: String)
        ensures
            r@ == self.spec_name(),
    {
        match self {
            OllamaModel::GPToss => "gpt-oss:20b".to_owned(),
            OllamaModel::Gemma2_2b => "gemma2:2b".to_owned(),
            OllamaModel::Gemma3_4b => "gemma3:4b".to_owned(),
            OllamaModel::Qwen3_8B => "qwen3:8b".to_owned(),
            OllamaModel::Custom(name) => name.clone(),
        }
    }
}

#[derive(Debug, Clone)]
pub enum OpenRouterModel {
    Flash2,
    GPTMini,
    Custom(String),
}

impl OpenRouterModel {
    /// The identifier that `to_string` produces.
    pub open spec fn spec_name(&self) -> Seq<char> {
        match self {
            OpenRouterModel::Flash2 => "google/gemini-2.0-flash-001"@,
            OpenRouterModel::GPTMini => "openai/gpt-4o-mini"@,
            OpenRouterModel::Custom(name) => name@,
        }
    }

    pub fn to_string(&self) -> (r: String)
        ensures
            r@ == self.spec_name(),
    {
        match self {
            OpenRouterModel::Flash2 => "google/gemini-2.0-flash-001".to_owned(),
            OpenRouterModel::GPTMini => "openai/gpt-4o-mini".to_owned(),
            OpenRouterModel::Custom(name) => name.clone(),
        }
    }
}

} // verus!
