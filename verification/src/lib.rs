pub mod metadata;
pub mod types;
pub mod update;
pub mod fuse_snapshot;
pub mod versioned_reader;
