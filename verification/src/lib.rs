//! A virtual file catalog for data sets split across a pool of removable
//! storage volumes that are not all connected at once. Files are addressed by
//! an absolute virtual path inside a named collection while their bytes live
//! on whichever registered partition was mounted when they were added; the
//! catalog answers placement and integrity questions even while the holding
//! disk is offline, and repairs missing digests once it reappears.

pub mod archive_utils;
pub mod catalog;
pub mod config;
pub mod error;
pub mod fs_utils;
pub mod hash_utils;
pub mod ids;
pub mod manager;
pub mod random;
pub mod regex_utils;
pub mod strutil;
pub mod sync_db;
pub mod timestamp;

pub use error::Error;
pub use error::GenericError;
pub use ids::Uid;
pub use timestamp::Timestamp;
