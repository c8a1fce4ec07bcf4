//! Reconstruction of a pull request's review timeline: walking a remote
//! commit graph back to a merge base, reconciling abbreviated and full
//! commit hashes, and merging commit-level comments with the activity feed
//! into one orderable set of timeline entries.

pub mod bitbucket;
pub mod github;
pub mod hashes;
pub mod reconcile;
pub mod settings;
pub mod timeline;
pub mod walker;
