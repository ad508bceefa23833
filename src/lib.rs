//! A content-registration ledger: records registered under counter-derived identifiers,
//! per-language translations appended under the declared-language rules, and paginated
//! retrieval in identifier order.
pub mod content;
pub mod ident;
pub mod laws;
pub mod listing;
pub mod msg;
pub mod order;
pub mod registry;

pub use content::{Content, ContractError, Translation};
pub use msg::{
    Config, ContentListResponse, ContentResponse, ExecuteMsg, ExecuteOutcome, InstantiateMsg,
    QueryMsg, QueryResponse,
};
pub use registry::{
    execute, execute_add_translation, execute_register_content, instantiate, list_content, query,
    query_content, query_content_by_owner, Registry,
};
