//! Ingestion and composition pipeline for a mail-relay service.
//!
//! The library decodes a `multipart/form-data` body into named fields, folds
//! them into a validated mail request, enforces the configured attachment
//! size limit, and assembles a transport-ready message.  Network transport
//! and process glue live outside the library.

pub mod bytes_util;
pub mod compose;
pub mod headers;
pub mod mail;
pub mod multipart;
pub mod pipeline;
pub mod size;
