//! The error taxonomy of the catalog: input validation, naming conflicts,
//! availability of mounted media, and internal identifier clashes.

use vstd::prelude::*;

verus! {

/// A plain error wrapper carrying a message, for callers that only need text.
pub struct GenericError {
    pub message: String,
}

impl GenericError {
    pub fn new(message: String) -> (r: GenericError)
        ensures
            r.message@ == message@,
    {
        GenericError { message }
    }

    pub fn message(&self) -> (r: &str)
        ensures
            r@ == self.message@,
    {
        self.message.as_str()
    }
}

/// Every failure the catalog itself can report. Validation errors come from
/// operator input, conflict errors from uniqueness rules, availability errors
/// from media that are not currently mounted, and `IdCollision` from the
/// astronomically unlikely clash of freshly drawn random identifiers.
#[derive(Clone, Copy, PartialEq, Eq, Structural, Debug)]
pub enum Error {
    SourceIsDirectory,
    PathNotAbsolute,
    PathCurDirSegment,
    PathParentDirSegment,
    PathNotCanonical,
    DestIsDirectory,
    PathCollision,
    InvalidDepthRange,
    BadPattern,
    UnknownHashAlgorithm,
    CollectionNameTaken,
    LocationNameTaken,
    DiskSerialTaken,
    DiskLabelTaken,
    PartitionUuidTaken,
    FilePathTaken,
    PlacementExists,
    HashExists,
    ArchiveMemberExists,
    CollectionNotFound,
    LocationNotFound,
    DiskNotFound,
    PartitionNotFound,
    FileNotFound,
    PartitionNotMounted,
    NoMountedPartition,
    ArchiveUnreadable,
    IdCollision,
}

impl Error {
    /// A short operator-facing description of the failure.
    pub fn message(&self) -> String {
        match self {
            Error::SourceIsDirectory => String::from_str("source path cannot be a directory"),
            Error::PathNotAbsolute => String::from_str("path was not absolute (must begin with /)"),
            Error::PathCurDirSegment => String::from_str("path cannot contain a . segment"),
            Error::PathParentDirSegment => String::from_str("path cannot contain a .. segment"),
            Error::PathNotCanonical => String::from_str(
                "path was not in canonical form",
            ),
            Error::DestIsDirectory => String::from_str("destination path cannot be a directory"),
            Error::PathCollision => String::from_str(
                "path would collide with an existing file or directory",
            ),
            Error::InvalidDepthRange => String::from_str(
                "min depth cannot be greater than max depth",
            ),
            Error::BadPattern => String::from_str("pattern was not a valid regular expression"),
            Error::UnknownHashAlgorithm => String::from_str("not a known hash algorithm"),
            Error::CollectionNameTaken => String::from_str("collection name was not unique"),
            Error::LocationNameTaken => String::from_str("location name was not unique"),
            Error::DiskSerialTaken => String::from_str("disk serial number was not unique"),
            Error::DiskLabelTaken => String::from_str("disk label was not unique"),
            Error::PartitionUuidTaken => String::from_str("partition UUID was not unique"),
            Error::FilePathTaken => String::from_str("that path already exists in the collection"),
            Error::PlacementExists => String::from_str("the file is already on that partition"),
            Error::HashExists => String::from_str("the file already has a hash of that name"),
            Error::ArchiveMemberExists => String::from_str(
                "the archive already has a member at that path",
            ),
            Error::CollectionNotFound => String::from_str("collection not found"),
            Error::LocationNotFound => String::from_str("location not found"),
            Error::DiskNotFound => String::from_str("disk not found; try adding it first"),
            Error::PartitionNotFound => String::from_str("no partition was found for that ID"),
            Error::FileNotFound => String::from_str("file not found"),
            Error::PartitionNotMounted => String::from_str(
                "the partition is not currently mounted; try mounting the disk",
            ),
            Error::NoMountedPartition => String::from_str(
                "no currently mounted partitions were found in the catalog; try mounting one or adding one",
            ),
            Error::ArchiveUnreadable => String::from_str(
                "could not list the entries of the archive",
            ),
            Error::IdCollision => String::from_str("a freshly drawn identifier was already in use"),
        }
    }
}

} // verus!
