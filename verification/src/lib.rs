//! Client-side logic of an HDFS client.
//!
//! A client of HDFS addresses either a single name service (`hdfs://`) or a `viewfs` name space
//! in which several of them are mounted. This crate decides which name service serves a path and
//! what the path is called there, which requests an operation sends, and what their replies mean.
//! It performs no request itself: an operation hands out the call to make. What comes back is
//! taken in
//! - by the function of the same name with `_reply` behind it, for `get_file_info`, `read`,
//!   `create`, `append` and `get_content_summary`;
//! - by `Client::acknowledged`, for `mkdirs`, `rename`, `set_times`, `set_owner` and
//!   `set_permission`;
//! - by the `resume` of a listing, whose complete result `Client::list_status` takes in.
//!
//! What comes back for `delete` and `set_replication` is the outcome as it is.
pub mod address;
pub mod client;
pub mod config;
pub mod error;
pub mod listing;
pub mod mount;
pub mod open;
pub mod options;
pub mod path;
pub mod rpc;
mod shared;
pub mod status;
pub mod text;
pub mod traversal;
pub mod viewfs;

pub use client::Client;
pub use error::HdfsError;
pub use options::WriteOptions;
