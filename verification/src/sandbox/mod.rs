//! The sandbox's network proxy and its notice.
pub mod addresses;
pub mod allowlist;
pub mod base64;
pub mod capacity;
pub mod notice;
pub mod requests;
pub mod responses;
pub mod served;
pub mod session;
