//! Incremental thumbnail and metadata generation for a photo collection.
//!
//! The walk over the collection, the staleness rule, the merge of each
//! directory's manifest, thumbnail sizing and naming, orientation
//! normalisation and the metadata record are decided here, with their
//! contracts proved; listing directories, reading and writing files and
//! running the renderings in parallel are left to the caller.
pub mod manifest;
pub mod metadata;
pub mod order;
pub mod paths;
pub mod picture;
pub mod text;
pub mod thumbnail;
pub mod walk;
