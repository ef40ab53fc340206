//! The HTTP interface.

pub mod android_adapter;
pub mod auth;
