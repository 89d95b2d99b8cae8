//! Core of an instant-messaging client SDK: identifiers and error codes,
//! sync planning, the domain services for users, relations, groups,
//! conversations, messages and file uploads, and the session lifecycle.
pub mod text;
pub mod types;
pub mod errors;
pub mod keyed;
pub mod storage;
pub mod sync;
pub mod protocol;
pub mod transport;
pub mod domain;
pub mod session;
pub mod compat;
pub mod native;
pub mod records;
