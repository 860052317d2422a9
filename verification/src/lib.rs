//! Encryption workbench: file encryption with XChaCha20-Poly1305 and DES,
//! and the state of the workbench that presents the results.

pub mod data;
pub mod primitives;
pub mod crypto;
pub mod text;
pub mod tabs;
pub mod context;
