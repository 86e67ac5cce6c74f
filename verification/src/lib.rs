//! Runtime data stamped onto generated conda-ship artifacts.

pub mod align;
pub mod bootstrap_lock;
pub mod bundle;
pub mod bundle_builder;
pub mod bytes;
pub mod capability;
pub mod digest;
pub mod error;
pub mod executable;
pub mod footer;
pub mod header;
pub mod laws;
pub mod lock_file;
pub mod macho;
pub mod object_file;
pub mod payload;
pub mod pe;
pub mod runtime_data;
pub mod runtime_reader;
pub mod reading;
pub mod snapshot;
pub mod text;
