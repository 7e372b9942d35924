//! Settings of the spaced-repetition side: the language model and web
//! search providers.

use vstd::prelude::*;

verus! {

/// The language model used to evaluate answers.
pub struct LLMConfig {
    pub provider: String,
    pub api_key: String,
    pub model: String,
}

/// The web search provider: "tavily", "brave", "serper" or "serpapi".
pub struct WebSearchConfig {
    pub provider: String,
    pub api_key: String,
}

/// All settings; each part is optional.
pub struct Config {
    pub llm: Option<LLMConfig>,
    pub web_search: Option<WebSearchConfig>,
}

impl Default for Config {
    /// No language model and no web search configured.
    fn default() -> (c: Config)
        ensures
            c.llm is None,
            c.web_search is None,
    {
        Config { llm: None, web_search: None }
    }
}

} // verus!
