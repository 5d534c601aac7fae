//! One-way synchronization of a local directory tree into a remote object
//! store: build an index of the keys already present remotely, walk the local
//! tree, and upload every file whose normalized path is not yet indexed.
//!
//! The crate holds the decision core: path normalization, the remote index,
//! paginated index building, the walk policy, and the per-file upload
//! decision with its failure-isolation rules. The I/O that feeds these
//! functions (the object-store client and the filesystem) lives outside.

pub mod builder;
pub mod config;
pub mod engine;
pub mod errors;
pub mod index;
pub mod path_codec;
pub mod walker;
