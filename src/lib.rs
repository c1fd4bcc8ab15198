//! Format indexing and bounded random access for dataset containers:
//! streaming TAR scanning, remote ZIP indexing and MDS shard decoding.

pub mod audio;
pub mod bytes;
pub mod error;
pub mod inflate;
pub mod mds;
pub mod media_cache;
pub mod paths;
pub mod remote;
pub mod samples;
pub mod sphere;
pub mod sniff;
pub mod tar;
pub mod tar_listing;
pub mod text;
pub mod types;
pub mod url;
pub mod zip;
