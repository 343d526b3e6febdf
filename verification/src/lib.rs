pub mod error;
pub mod codec;
pub mod strutil;
pub mod store;
pub mod revocation;
pub mod auth;
pub mod handler;
pub mod listing;
