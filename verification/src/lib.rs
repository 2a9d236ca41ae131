//! Identity, session, token and permission framework.

pub mod strings;
pub mod wildcard;
pub mod collections;
pub mod json;
pub mod clock;
pub mod model;
pub mod policy;
pub mod storage;
pub mod error;
pub mod crypto;
pub mod decimal;
pub mod hasher;
pub mod tokens;
pub mod opaque;
pub mod jwt;
pub mod providers;
pub mod session;
pub mod auth;
pub mod laws;
