//! Verified core of a document-ingestion pipeline that turns text into a
//! knowledge graph: content-addressed identifiers, a token-window chunker,
//! namespaced key-value stores with dirty-flag snapshots, a document-status
//! store with stable pagination, and the job/chunk scheduling rules.

pub mod chunker;
pub mod doc_status;
pub mod documents;
pub mod extractor;
pub mod graph;
pub mod ids;
pub mod json;
pub mod keyed;
pub mod kv_store;
pub mod laws;
pub mod llm;
pub mod manager;
pub mod order;
pub mod pipeline;
pub mod paging;
pub mod scheduler;
pub mod schemas;
pub mod status_service;
pub mod text;
