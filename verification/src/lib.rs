//! Resolves network-registry relationships (ASN, subnet, hostname) from the markup of
//! registry pages.
//!
//! The crate holds the decisions of a lookup and none of its input or output: a caller
//! fetches the page that [`traversal::Traversal::next_request`] names, hands the outcome to
//! [`traversal::Traversal::deliver`], and prints what comes back.

pub mod command;
pub mod engine;
pub mod extract;
pub mod fetch;
pub mod page;
pub mod report;
pub mod text;
pub mod traversal;
