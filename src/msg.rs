//! Requests, responses and the singleton configuration.
use vstd::prelude::*;
use crate::content::Content;

verus! {

/// The registry's configuration, fixed at initialisation.
#[derive(Clone, Debug, PartialEq, Eq)]
pub struct Config {
    pub owner: String,
}

#[derive(Clone, Debug, PartialEq, Eq)]
pub struct InstantiateMsg {
    pub owner: String,
}

/// The mutations the registry accepts.
#[derive(Clone, Debug, PartialEq, Eq)]
pub enum ExecuteMsg {
    RegisterContent {
        title: String,
        description: String,
        content_type: String,
        content_hash: String,
        target_languages: Vec<String>,
    },
    AddTranslation { content_id: String, language: String, content_hash: String },
}

/// The queries the registry answers.
#[derive(Clone, Debug, PartialEq, Eq)]
pub enum QueryMsg {
    GetContent { content_id: String },
    ListContent { start_after: Option<String>, limit: Option<u32> },
    GetContentByOwner { owner: String },
}

#[derive(Clone, Debug, PartialEq, Eq)]
pub struct ContentResponse {
    pub content: Content,
}

#[derive(Clone, Debug, PartialEq, Eq)]
pub struct ContentListResponse {
    pub contents: Vec<Content>,
}

/// What a successful mutation reports.
#[derive(Clone, Debug, PartialEq, Eq)]
pub enum ExecuteOutcome {
    Registered { content_id: String, owner: String },
    Translated { content_id: String, language: String },
}

/// The answer to a query.
#[derive(Clone, Debug, PartialEq, Eq)]
pub enum QueryResponse {
    Content(ContentResponse),
    List(ContentListResponse),
}

} // verus!
