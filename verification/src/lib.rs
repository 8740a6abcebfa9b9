//! Verified core of a small marketplace service: signed session tokens,
//! bearer authentication, password hashing, and the purchase workflow.

pub mod account;
pub mod auth;
pub mod catalog;
pub mod codec;
pub mod error;
pub mod jwt;
pub mod mac;
pub mod password;
pub mod purchase;
pub mod text;
