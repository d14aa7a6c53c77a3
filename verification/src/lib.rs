//! Metadata and transfer-planning core of a hybrid file service: an in-memory
//! file catalogue with upload, download, listing, deletion and sync-status
//! queries, plus the rules that pick a transport and plan data-portal transfers.

pub mod data_portal;
pub mod external;
pub mod text;
pub mod model;
pub mod catalog;
pub mod transport;
pub mod download;
pub mod service;
pub mod laws;
