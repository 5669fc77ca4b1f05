//! Password-based encryption of files and directory trees into a single
//! self-describing container: a magic tag, a format version, a
//! length-prefixed metadata record (nonce, salt, helper question, original
//! name, content type), then the AES-256-GCM ciphertext.

pub mod error;
pub mod metadata;
pub mod encryption;
pub mod container;
pub mod file_ops;
pub mod path_name;
pub mod password;
pub mod selection;
