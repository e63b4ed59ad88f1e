//! The externally visible operations of the store, one module each.

pub mod delete_file;
pub mod download_file;
pub mod file_sharing;
pub mod list_files;
pub mod register_file;
pub mod share_file;
pub mod upload_file_atomic;
pub mod upload_file_continue;
pub mod vetkd;
