//! The entity store: typed rows for collections, locations, disks,
//! partitions, files, placements, hashes and archive members, held in one
//! in-memory catalog value whose well-formedness invariant carries every
//! uniqueness and reference rule of the schema. Insertions are all-or-nothing:
//! they either extend exactly one table by one row or leave the catalog
//! untouched and report the conflict.

use vstd::prelude::*;

use crate::error::Error;
use crate::fs_utils::canon_of;
use crate::fs_utils::canon_ok;
use crate::fs_utils::canonical_path;
use crate::fs_utils::is_canonical_path;
use crate::hash_utils::HashAlgorithm;
use crate::hash_utils::hex_encode;
use crate::hash_utils::hex_of;
use crate::ids::Uid;
use crate::ids::uid_new;
use crate::timestamp::Timestamp;

verus! {

// ---------------------------------------------------------------------------
// Rows and their views
// ---------------------------------------------------------------------------

/// A named namespace of virtual file paths.
#[derive(Debug)]
pub struct Collection {
    pub id: Uid,
    pub name: String,
    pub created_date: Timestamp,
}

#[verifier::ext_equal]
pub ghost struct CollectionV {
    pub id: Uid,
    pub name: Seq<char>,
    pub created_date: Timestamp,
}

impl View for Collection {
    type V = CollectionV;

    open spec fn view(&self) -> CollectionV {
        CollectionV { id: self.id, name: self.name@, created_date: self.created_date }
    }
}

impl Collection {
    pub fn id(&self) -> (r: Uid)
        ensures
            r == self.id,
    {
        self.id
    }

    pub fn name(&self) -> (r: &str)
        ensures
            r@ == self@.name,
    {
        self.name.as_str()
    }
}

/// A place where disks are stored.
#[derive(Debug)]
pub struct Location {
    pub id: Uid,
    pub name: String,
}

#[verifier::ext_equal]
pub ghost struct LocationV {
    pub id: Uid,
    pub name: Seq<char>,
}

impl View for Location {
    type V = LocationV;

    open spec fn view(&self) -> LocationV {
        LocationV { id: self.id, name: self.name@ }
    }
}

impl Location {
    pub fn id(&self) -> (r: Uid)
        ensures
            r == self.id,
    {
        self.id
    }

    pub fn name(&self) -> (r: &str)
        ensures
            r@ == self@.name,
    {
        self.name.as_str()
    }
}

/// One physical enclosure, identified by its hardware serial number.
#[derive(Debug)]
pub struct Disk {
    pub id: Uid,
    pub location_id: Option<Uid>,
    pub created_date: Timestamp,
    pub serial_number: String,
    pub label: String,
}

#[verifier::ext_equal]
pub ghost struct DiskV {
    pub id: Uid,
    pub location_id: Option<Uid>,
    pub created_date: Timestamp,
    pub serial_number: Seq<char>,
    pub label: Seq<char>,
}

impl View for Disk {
    type V = DiskV;

    open spec fn view(&self) -> DiskV {
        DiskV {
            id: self.id,
            location_id: self.location_id,
            created_date: self.created_date,
            serial_number: self.serial_number@,
            label: self.label@,
        }
    }
}

impl Disk {
    pub fn id(&self) -> (r: Uid)
        ensures
            r == self.id,
    {
        self.id
    }

    pub fn serial_number(&self) -> (r: &str)
        ensures
            r@ == self@.serial_number,
    {
        self.serial_number.as_str()
    }

    pub fn label(&self) -> (r: &str)
        ensures
            r@ == self@.label,
    {
        self.label.as_str()
    }
}

/// One registered partition of a disk, joined to mount state by its
/// filesystem UUID.
#[derive(Debug)]
pub struct Partition {
    pub id: Uid,
    pub disk_id: Uid,
    pub uuid: String,
    pub capacity: u64,
}

#[verifier::ext_equal]
pub ghost struct PartitionV {
    pub id: Uid,
    pub disk_id: Uid,
    pub uuid: Seq<char>,
    pub capacity: u64,
}

impl View for Partition {
    type V = PartitionV;

    open spec fn view(&self) -> PartitionV {
        PartitionV { id: self.id, disk_id: self.disk_id, uuid: self.uuid@, capacity: self.capacity }
    }
}

impl Partition {
    pub fn id(&self) -> (r: Uid)
        ensures
            r == self.id,
    {
        self.id
    }

    pub fn uuid(&self) -> (r: &str)
        ensures
            r@ == self@.uuid,
    {
        self.uuid.as_str()
    }

    pub fn capacity(&self) -> (r: u64)
        ensures
            r == self.capacity,
    {
        self.capacity
    }
}

/// One logical file of a collection; its bytes live wherever its placements
/// say.
#[derive(Debug)]
pub struct File {
    pub id: Uid,
    pub collection_id: Uid,
    pub path: String,
    pub created_date: Timestamp,
    pub size: u64,
}

#[verifier::ext_equal]
pub ghost struct FileV {
    pub id: Uid,
    pub collection_id: Uid,
    pub path: Seq<char>,
    pub created_date: Timestamp,
    pub size: u64,
}

impl View for File {
    type V = FileV;

    open spec fn view(&self) -> FileV {
        FileV {
            id: self.id,
            collection_id: self.collection_id,
            path: self.path@,
            created_date: self.created_date,
            size: self.size,
        }
    }
}

impl File {
    pub fn id(&self) -> (r: Uid)
        ensures
            r == self.id,
    {
        self.id
    }

    pub fn path(&self) -> (r: &str)
        ensures
            r@ == self@.path,
    {
        self.path.as_str()
    }

    pub fn size(&self) -> (r: u64)
        ensures
            r == self.size,
    {
        self.size
    }
}

/// The association of a file with one partition holding its bytes.
#[derive(Clone, Copy, PartialEq, Eq, Structural, Debug)]
pub struct FilePlacement {
    pub file_id: Uid,
    pub partition_id: Uid,
}

impl FilePlacement {
    pub fn partition_id(&self) -> (r: Uid)
        ensures
            r == self.partition_id,
    {
        self.partition_id
    }

    pub fn file_id(&self) -> (r: Uid)
        ensures
            r == self.file_id,
    {
        self.file_id
    }
}

/// One recorded digest of a file's contents.
#[derive(Debug)]
pub struct FileHash {
    pub id: Uid,
    pub file_id: Uid,
    pub hash_algorithm: HashAlgorithm,
    pub hash_value: Vec<u8>,
}

#[verifier::ext_equal]
pub ghost struct FileHashV {
    pub id: Uid,
    pub file_id: Uid,
    pub hash_algorithm: HashAlgorithm,
    pub hash_value: Seq<u8>,
}

impl View for FileHash {
    type V = FileHashV;

    open spec fn view(&self) -> FileHashV {
        FileHashV {
            id: self.id,
            file_id: self.file_id,
            hash_algorithm: self.hash_algorithm,
            hash_value: self.hash_value@,
        }
    }
}

impl FileHash {
    pub fn hash_algorithm(&self) -> (r: HashAlgorithm)
        ensures
            r == self.hash_algorithm,
    {
        self.hash_algorithm
    }

    pub fn file_id(&self) -> (r: Uid)
        ensures
            r == self.file_id,
    {
        self.file_id
    }

    /// The digest in lowercase hexadecimal.
    pub fn hash_value_hex(&self) -> (r: String)
        ensures
            r@ == hex_of(self@.hash_value),
    {
        hex_encode(self.hash_value.as_slice())
    }
}

/// One member entry of a file whose content is a recognized container.
#[derive(Debug)]
pub struct FileArchive {
    pub id: Uid,
    pub file_id: Uid,
    pub path: String,
    pub size: u64,
}

#[verifier::ext_equal]
pub ghost struct FileArchiveV {
    pub id: Uid,
    pub file_id: Uid,
    pub path: Seq<char>,
    pub size: u64,
}

impl View for FileArchive {
    type V = FileArchiveV;

    open spec fn view(&self) -> FileArchiveV {
        FileArchiveV { id: self.id, file_id: self.file_id, path: self.path@, size: self.size }
    }
}

impl PartialEq for Collection {
    fn eq(&self, o: &Collection) -> (r: bool) {
        self.id == o.id && self.name == o.name && self.created_date == o.created_date
    }
}

impl vstd::std_specs::cmp::PartialEqSpecImpl for Collection {
    open spec fn obeys_eq_spec() -> bool {
        true
    }

    open spec fn eq_spec(&self, o: &Collection) -> bool {
        self.id == o.id && self.name@ == o.name@ && self.created_date == o.created_date
    }
}

impl PartialEq for Location {
    fn eq(&self, o: &Location) -> (r: bool) {
        self.id == o.id && self.name == o.name
    }
}

impl vstd::std_specs::cmp::PartialEqSpecImpl for Location {
    open spec fn obeys_eq_spec() -> bool {
        true
    }

    open spec fn eq_spec(&self, o: &Location) -> bool {
        self.id == o.id && self.name@ == o.name@
    }
}

impl PartialEq for Disk {
    fn eq(&self, o: &Disk) -> (r: bool) {
        let loc_eq = match (&self.location_id, &o.location_id) {
            (Some(a), Some(b)) => a.value == b.value,
            (None, None) => true,
            _ => false,
        };
        loc_eq && self.id == o.id && self.created_date == o.created_date && self.serial_number
            == o.serial_number && self.label == o.label
    }
}

impl vstd::std_specs::cmp::PartialEqSpecImpl for Disk {
    open spec fn obeys_eq_spec() -> bool {
        true
    }

    open spec fn eq_spec(&self, o: &Disk) -> bool {
        self.id == o.id && self.location_id == o.location_id && self.created_date
            == o.created_date && self.serial_number@ == o.serial_number@ && self.label@ == o.label@
    }
}

impl PartialEq for Partition {
    fn eq(&self, o: &Partition) -> (r: bool) {
        self.id == o.id && self.disk_id == o.disk_id && self.uuid == o.uuid && self.capacity
            == o.capacity
    }
}

impl vstd::std_specs::cmp::PartialEqSpecImpl for Partition {
    open spec fn obeys_eq_spec() -> bool {
        true
    }

    open spec fn eq_spec(&self, o: &Partition) -> bool {
        self.id == o.id && self.disk_id == o.disk_id && self.uuid@ == o.uuid@ && self.capacity
            == o.capacity
    }
}

impl PartialEq for File {
    fn eq(&self, o: &File) -> (r: bool) {
        self.id == o.id && self.collection_id == o.collection_id && self.path == o.path
            && self.created_date == o.created_date && self.size == o.size
    }
}

impl vstd::std_specs::cmp::PartialEqSpecImpl for File {
    open spec fn obeys_eq_spec() -> bool {
        true
    }

    open spec fn eq_spec(&self, o: &File) -> bool {
        self.id == o.id && self.collection_id == o.collection_id && self.path@ == o.path@
            && self.created_date == o.created_date && self.size == o.size
    }
}

// ---------------------------------------------------------------------------
// The catalog and its invariant
// ---------------------------------------------------------------------------

pub struct Catalog {
    pub collections: Vec<Collection>,
    pub locations: Vec<Location>,
    pub disks: Vec<Disk>,
    pub partitions: Vec<Partition>,
    pub files: Vec<File>,
    pub placements: Vec<FilePlacement>,
    pub hashes: Vec<FileHash>,
    pub archives: Vec<FileArchive>,
}

#[verifier::ext_equal]
pub ghost struct CatalogV {
    pub collections: Seq<CollectionV>,
    pub locations: Seq<LocationV>,
    pub disks: Seq<DiskV>,
    pub partitions: Seq<PartitionV>,
    pub files: Seq<FileV>,
    pub placements: Seq<FilePlacement>,
    pub hashes: Seq<FileHashV>,
    pub archives: Seq<FileArchiveV>,
}

impl View for Catalog {
    type V = CatalogV;

    open spec fn view(&self) -> CatalogV {
        CatalogV {
            collections: self.collections@.map_values(|x: Collection| x@),
            locations: self.locations@.map_values(|x: Location| x@),
            disks: self.disks@.map_values(|x: Disk| x@),
            partitions: self.partitions@.map_values(|x: Partition| x@),
            files: self.files@.map_values(|x: File| x@),
            placements: self.placements@,
            hashes: self.hashes@.map_values(|x: FileHash| x@),
            archives: self.archives@.map_values(|x: FileArchive| x@),
        }
    }
}

impl CatalogV {
    pub open spec fn has_collection(self, id: Uid) -> bool {
        exists|i: int| 0 <= i < self.collections.len() && (#[trigger] self.collections[i]).id == id
    }

    pub open spec fn has_collection_name(self, name: Seq<char>) -> bool {
        exists|i: int|
            0 <= i < self.collections.len() && (#[trigger] self.collections[i]).name == name
    }

    pub open spec fn has_location(self, id: Uid) -> bool {
        exists|i: int| 0 <= i < self.locations.len() && (#[trigger] self.locations[i]).id == id
    }

    pub open spec fn has_location_name(self, name: Seq<char>) -> bool {
        exists|i: int| 0 <= i < self.locations.len() && (#[trigger] self.locations[i]).name == name
    }

    pub open spec fn has_disk(self, id: Uid) -> bool {
        exists|i: int| 0 <= i < self.disks.len() && (#[trigger] self.disks[i]).id == id
    }

    pub open spec fn has_disk_serial(self, serial: Seq<char>) -> bool {
        exists|i: int|
            0 <= i < self.disks.len() && (#[trigger] self.disks[i]).serial_number == serial
    }

    pub open spec fn has_disk_label(self, label: Seq<char>) -> bool {
        exists|i: int| 0 <= i < self.disks.len() && (#[trigger] self.disks[i]).label == label
    }

    pub open spec fn has_partition(self, id: Uid) -> bool {
        exists|i: int| 0 <= i < self.partitions.len() && (#[trigger] self.partitions[i]).id == id
    }

    pub open spec fn has_partition_uuid(self, uuid: Seq<char>) -> bool {
        exists|i: int| 0 <= i < self.partitions.len() && (#[trigger] self.partitions[i]).uuid == uuid
    }

    pub open spec fn has_file(self, id: Uid) -> bool {
        exists|i: int| 0 <= i < self.files.len() && (#[trigger] self.files[i]).id == id
    }

    pub open spec fn has_file_at(self, collection_id: Uid, path: Seq<char>) -> bool {
        exists|i: int|
            0 <= i < self.files.len() && (#[trigger] self.files[i]).collection_id == collection_id
                && self.files[i].path == path
    }

    pub open spec fn has_placement(self, file_id: Uid, partition_id: Uid) -> bool {
        exists|i: int|
            0 <= i < self.placements.len() && (#[trigger] self.placements[i]).file_id == file_id
                && self.placements[i].partition_id == partition_id
    }

    pub open spec fn has_hash(self, file_id: Uid, algorithm: HashAlgorithm) -> bool {
        exists|i: int|
            0 <= i < self.hashes.len() && (#[trigger] self.hashes[i]).file_id == file_id
                && self.hashes[i].hash_algorithm == algorithm
    }

    pub open spec fn has_archive_member(self, file_id: Uid, path: Seq<char>) -> bool {
        exists|i: int|
            0 <= i < self.archives.len() && (#[trigger] self.archives[i]).file_id == file_id
                && self.archives[i].path == path
    }

    pub open spec fn has_hash_id(self, id: Uid) -> bool {
        exists|i: int| 0 <= i < self.hashes.len() && (#[trigger] self.hashes[i]).id == id
    }

    pub open spec fn has_archive_id(self, id: Uid) -> bool {
        exists|i: int| 0 <= i < self.archives.len() && (#[trigger] self.archives[i]).id == id
    }

    /// Every uniqueness and reference rule of the schema: globally unique
    /// names, serials, labels and filesystem UUIDs; per-collection unique
    /// canonical file paths; unique association pairs; and every foreign
    /// identifier present in its table.
    pub open spec fn wf(self) -> bool {
        &&& forall|i: int, j: int|
            #![trigger self.collections[i], self.collections[j]]
            0 <= i < j < self.collections.len() ==> self.collections[i].id
                != self.collections[j].id && self.collections[i].name != self.collections[j].name
        &&& forall|i: int, j: int|
            #![trigger self.locations[i], self.locations[j]]
            0 <= i < j < self.locations.len() ==> self.locations[i].id != self.locations[j].id
                && self.locations[i].name != self.locations[j].name
        &&& forall|i: int, j: int|
            #![trigger self.disks[i], self.disks[j]]
            0 <= i < j < self.disks.len() ==> self.disks[i].id != self.disks[j].id
                && self.disks[i].serial_number != self.disks[j].serial_number
                && self.disks[i].label != self.disks[j].label
        &&& forall|i: int|
            0 <= i < self.disks.len() ==> ((#[trigger] self.disks[i]).location_id is Some
                ==> self.has_location(self.disks[i].location_id->0))
        &&& forall|i: int, j: int|
            #![trigger self.partitions[i], self.partitions[j]]
            0 <= i < j < self.partitions.len() ==> self.partitions[i].id != self.partitions[j].id
                && self.partitions[i].uuid != self.partitions[j].uuid
        &&& forall|i: int|
            0 <= i < self.partitions.len() ==> self.has_disk(
                (#[trigger] self.partitions[i]).disk_id,
            )
        &&& forall|i: int, j: int|
            #![trigger self.files[i], self.files[j]]
            0 <= i < j < self.files.len() ==> self.files[i].id != self.files[j].id && !(
            self.files[i].collection_id == self.files[j].collection_id && self.files[i].path
                == self.files[j].path)
        &&& forall|i: int|
            0 <= i < self.files.len() ==> self.has_collection(
                (#[trigger] self.files[i]).collection_id,
            ) && is_canonical_path(self.files[i].path) && self.files[i].path.len() > 1
        &&& forall|i: int, j: int|
            #![trigger self.placements[i], self.placements[j]]
            0 <= i < j < self.placements.len() ==> !(self.placements[i].file_id
                == self.placements[j].file_id && self.placements[i].partition_id
                == self.placements[j].partition_id)
        &&& forall|i: int|
            0 <= i < self.placements.len() ==> self.has_file(
                (#[trigger] self.placements[i]).file_id,
            ) && self.has_partition(self.placements[i].partition_id)
        &&& forall|i: int, j: int|
            #![trigger self.hashes[i], self.hashes[j]]
            0 <= i < j < self.hashes.len() ==> self.hashes[i].id != self.hashes[j].id && !(
            self.hashes[i].file_id == self.hashes[j].file_id && self.hashes[i].hash_algorithm
                == self.hashes[j].hash_algorithm)
        &&& forall|i: int|
            0 <= i < self.hashes.len() ==> self.has_file((#[trigger] self.hashes[i]).file_id)
        &&& forall|i: int, j: int|
            #![trigger self.archives[i], self.archives[j]]
            0 <= i < j < self.archives.len() ==> self.archives[i].id != self.archives[j].id && !(
            self.archives[i].file_id == self.archives[j].file_id && self.archives[i].path
                == self.archives[j].path)
        &&& forall|i: int|
            0 <= i < self.archives.len() ==> self.has_file((#[trigger] self.archives[i]).file_id)
    }

    pub open spec fn same_except_collections(self, other: CatalogV) -> bool {
        self.locations == other.locations && self.disks == other.disks && self.partitions
            == other.partitions && self.files == other.files && self.placements == other.placements
            && self.hashes == other.hashes && self.archives == other.archives
    }

    pub open spec fn same_except_locations(self, other: CatalogV) -> bool {
        self.collections == other.collections && self.disks == other.disks && self.partitions
            == other.partitions && self.files == other.files && self.placements == other.placements
            && self.hashes == other.hashes && self.archives == other.archives
    }

    pub open spec fn same_except_disks(self, other: CatalogV) -> bool {
        self.collections == other.collections && self.locations == other.locations
            && self.partitions == other.partitions && self.files == other.files && self.placements
            == other.placements && self.hashes == other.hashes && self.archives == other.archives
    }

    pub open spec fn same_except_partitions(self, other: CatalogV) -> bool {
        self.collections == other.collections && self.locations == other.locations && self.disks
            == other.disks && self.files == other.files && self.placements == other.placements
            && self.hashes == other.hashes && self.archives == other.archives
    }

    pub open spec fn same_except_files(self, other: CatalogV) -> bool {
        self.collections == other.collections && self.locations == other.locations && self.disks
            == other.disks && self.partitions == other.partitions && self.placements
            == other.placements && self.hashes == other.hashes && self.archives == other.archives
    }

    pub open spec fn same_except_placements(self, other: CatalogV) -> bool {
        self.collections == other.collections && self.locations == other.locations && self.disks
            == other.disks && self.partitions == other.partitions && self.files == other.files
            && self.hashes == other.hashes && self.archives == other.archives
    }

    pub open spec fn same_except_hashes(self, other: CatalogV) -> bool {
        self.collections == other.collections && self.locations == other.locations && self.disks
            == other.disks && self.partitions == other.partitions && self.files == other.files
            && self.placements == other.placements && self.archives == other.archives
    }

    pub open spec fn same_except_archives(self, other: CatalogV) -> bool {
        self.collections == other.collections && self.locations == other.locations && self.disks
            == other.disks && self.partitions == other.partitions && self.files == other.files
            && self.placements == other.placements && self.hashes == other.hashes
    }
}

impl Catalog {
    /// An empty catalog, as a fresh database starts.
    pub fn new() -> (r: Catalog)
        ensures
            r@.wf(),
            r@.collections.len() == 0,
            r@.locations.len() == 0,
            r@.disks.len() == 0,
            r@.partitions.len() == 0,
            r@.files.len() == 0,
            r@.placements.len() == 0,
            r@.hashes.len() == 0,
            r@.archives.len() == 0,
    {
        Catalog {
            collections: Vec::new(),
            locations: Vec::new(),
            disks: Vec::new(),
            partitions: Vec::new(),
            files: Vec::new(),
            placements: Vec::new(),
            hashes: Vec::new(),
            archives: Vec::new(),
        }
    }
}

/// A field-for-field duplicate of the catalog, used to stage all-or-nothing
/// multi-row operations.
pub(crate) fn copy_catalog(c: &Catalog) -> (r: Catalog)
    ensures
        r@ == c@,
{
    let collections = Collection::all(c);
    let locations = Location::all(c);
    let disks = Disk::all(c);
    let partitions = Partition::all(c);
    let mut files: Vec<File> = Vec::new();
    let mut i: usize = 0;
    assert(files@.map_values(|x: File| x@) =~= c@.files.subrange(0, 0));
    while i < c.files.len()
        invariant
            0 <= i <= c.files.len(),
            files@.map_values(|x: File| x@) == c@.files.subrange(0, i as int),
        decreases c.files.len() - i,
    {
        files.push(copy_file(&c.files[i]));
        assert(files@.map_values(|x: File| x@) =~= c@.files.subrange(0, i as int).push(
            c@.files[i as int],
        ));
        assert(c@.files.subrange(0, i + 1 as int) =~= c@.files.subrange(0, i as int).push(
            c@.files[i as int],
        ));
        i = i + 1;
    }
    assert(c@.files.subrange(0, c@.files.len() as int) =~= c@.files);
    let mut placements: Vec<FilePlacement> = Vec::new();
    let mut j: usize = 0;
    assert(placements@ =~= c@.placements.subrange(0, 0));
    while j < c.placements.len()
        invariant
            0 <= j <= c.placements.len(),
            placements@ == c@.placements.subrange(0, j as int),
        decreases c.placements.len() - j,
    {
        placements.push(c.placements[j]);
        assert(c@.placements.subrange(0, j + 1 as int) =~= c@.placements.subrange(
            0,
            j as int,
        ).push(c@.placements[j as int]));
        j = j + 1;
    }
    assert(c@.placements.subrange(0, c@.placements.len() as int) =~= c@.placements);
    let mut hashes: Vec<FileHash> = Vec::new();
    let mut k: usize = 0;
    assert(hashes@.map_values(|x: FileHash| x@) =~= c@.hashes.subrange(0, 0));
    while k < c.hashes.len()
        invariant
            0 <= k <= c.hashes.len(),
            hashes@.map_values(|x: FileHash| x@) == c@.hashes.subrange(0, k as int),
        decreases c.hashes.len() - k,
    {
        hashes.push(copy_file_hash(&c.hashes[k]));
        assert(hashes@.map_values(|x: FileHash| x@) =~= c@.hashes.subrange(0, k as int).push(
            c@.hashes[k as int],
        ));
        assert(c@.hashes.subrange(0, k + 1 as int) =~= c@.hashes.subrange(0, k as int).push(
            c@.hashes[k as int],
        ));
        k = k + 1;
    }
    assert(c@.hashes.subrange(0, c@.hashes.len() as int) =~= c@.hashes);
    let mut archives: Vec<FileArchive> = Vec::new();
    let mut m: usize = 0;
    assert(archives@.map_values(|x: FileArchive| x@) =~= c@.archives.subrange(0, 0));
    while m < c.archives.len()
        invariant
            0 <= m <= c.archives.len(),
            archives@.map_values(|x: FileArchive| x@) == c@.archives.subrange(0, m as int),
        decreases c.archives.len() - m,
    {
        let a = &c.archives[m];
        archives.push(FileArchive { id: a.id, file_id: a.file_id, path: a.path.clone(), size: a.size });
        assert(archives@.map_values(|x: FileArchive| x@) =~= c@.archives.subrange(
            0,
            m as int,
        ).push(c@.archives[m as int]));
        assert(c@.archives.subrange(0, m + 1 as int) =~= c@.archives.subrange(0, m as int).push(
            c@.archives[m as int],
        ));
        m = m + 1;
    }
    assert(c@.archives.subrange(0, c@.archives.len() as int) =~= c@.archives);
    let r = Catalog { collections, locations, disks, partitions, files, placements, hashes, archives };
    assert(r@ =~= c@);
    r
}

// ---------------------------------------------------------------------------
// Collections
// ---------------------------------------------------------------------------

pub(crate) fn copy_collection(x: &Collection) -> (r: Collection)
    ensures
        r@ == x@,
{
    Collection { id: x.id, name: x.name.clone(), created_date: x.created_date }
}

impl Collection {
    pub fn for_id<'a>(c: &'a Catalog, id: &Uid) -> (r: Option<&'a Collection>)
        ensures
            match r {
                Some(x) => x@.id == *id && c@.collections.contains(x@),
                None => !c@.has_collection(*id),
            },
    {
        let mut i: usize = 0;
        while i < c.collections.len()
            invariant
                0 <= i <= c.collections.len(),
                forall|j: int| 0 <= j < i ==> (#[trigger] c@.collections[j]).id != *id,
            decreases c.collections.len() - i,
        {
            if c.collections[i].id.value == id.value {
                assert(c@.collections[i as int].id == *id);
                assert(c@.collections.contains(c@.collections[i as int]));
                return Some(&c.collections[i]);
            }
            i = i + 1;
        }
        None
    }

    pub fn for_name<'a>(c: &'a Catalog, name: &str) -> (r: Option<&'a Collection>)
        ensures
            match r {
                Some(x) => x@.name == name@ && c@.collections.contains(x@),
                None => !c@.has_collection_name(name@),
            },
    {
        let gname = String::from_str(name);
        let mut i: usize = 0;
        while i < c.collections.len()
            invariant
                0 <= i <= c.collections.len(),
                gname@ == name@,
                forall|j: int| 0 <= j < i ==> (#[trigger] c@.collections[j]).name != name@,
            decreases c.collections.len() - i,
        {
            if c.collections[i].name == gname {
                assert(c@.collections.contains(c@.collections[i as int]));
                return Some(&c.collections[i]);
            }
            i = i + 1;
        }
        None
    }

    pub fn all(c: &Catalog) -> (r: Vec<Collection>)
        ensures
            r@.map_values(|x: Collection| x@) == c@.collections,
    {
        let mut r: Vec<Collection> = Vec::new();
        let mut i: usize = 0;
        assert(r@.map_values(|x: Collection| x@) =~= c@.collections.subrange(0, 0));
        while i < c.collections.len()
            invariant
                0 <= i <= c.collections.len(),
                r@.map_values(|x: Collection| x@) == c@.collections.subrange(0, i as int),
            decreases c.collections.len() - i,
        {
            r.push(copy_collection(&c.collections[i]));
            assert(r@.map_values(|x: Collection| x@) =~= c@.collections.subrange(
                0,
                i as int,
            ).push(c@.collections[i as int]));
            assert(c@.collections.subrange(0, i + 1 as int) =~= c@.collections.subrange(
                0,
                i as int,
            ).push(c@.collections[i as int]));
            i = i + 1;
        }
        assert(c@.collections.subrange(0, c@.collections.len() as int) =~= c@.collections);
        r
    }
}

/// Insertion of a collection row, all-or-nothing.
pub struct NewCollection {
    pub name: String,
}

impl NewCollection {
    /// The deterministic core of insertion: for the given identifier the
    /// outcome is fixed, and the row is added exactly when neither the name
    /// nor the identifier is already in use.
    pub fn insert_with_id(&self, c: &mut Catalog, id: Uid) -> (r: Result<(), Error>)
        requires
            old(c)@.wf(),
        ensures
            final(c)@.wf(),
            match r {
                Ok(_) => {
                    &&& !old(c)@.has_collection_name(self.name@)
                    &&& !old(c)@.has_collection(id)
                    &&& final(c)@.collections.len() == old(c)@.collections.len() + 1
                    &&& final(c)@.collections == old(c)@.collections.push(
                        final(c)@.collections.last(),
                    )
                    &&& final(c)@.collections.last().id == id
                    &&& final(c)@.collections.last().name == self.name@
                    &&& final(c)@.same_except_collections(old(c)@)
                },
                Err(e) => {
                    &&& final(c)@ == old(c)@
                    &&& (e == Error::CollectionNameTaken <==> old(c)@.has_collection_name(
                        self.name@,
                    ))
                    &&& (e == Error::IdCollision <==> !old(c)@.has_collection_name(self.name@)
                        && old(c)@.has_collection(id))
                    &&& (e == Error::CollectionNameTaken || e == Error::IdCollision)
                },
            },
    {
        let mut i: usize = 0;
        while i < c.collections.len()
            invariant
                0 <= i <= c.collections.len(),
                c@ == old(c)@,
                old(c)@.wf(),
                forall|j: int| 0 <= j < i ==> (#[trigger] c@.collections[j]).name != self.name@,
            decreases c.collections.len() - i,
        {
            if c.collections[i].name == self.name {
                assert(c@.collections[i as int].name == self.name@);
                return Err(Error::CollectionNameTaken);
            }
            i = i + 1;
        }
        assert(!c@.has_collection_name(self.name@));
        let mut k: usize = 0;
        while k < c.collections.len()
            invariant
                0 <= k <= c.collections.len(),
                c@ == old(c)@,
                old(c)@.wf(),
                !old(c)@.has_collection_name(self.name@),
                forall|j: int| 0 <= j < k ==> (#[trigger] c@.collections[j]).id != id,
            decreases c.collections.len() - k,
        {
            if c.collections[k].id.value == id.value {
                assert((c@.collections[k as int]).id == id);
                return Err(Error::IdCollision);
            }
            k = k + 1;
        }
        assert(!c@.has_collection(id));
        let row = Collection { id, name: self.name.clone(), created_date: Timestamp::now() };
        let ghost pre = c@;
        let ghost rowv = row@;
        c.collections.push(row);
        proof {
            assert(c@.collections =~= pre.collections.push(rowv));
            assert(c@.same_except_collections(pre));
            assert(c@.wf()) by {
                assert forall|x: int, y: int|
                    #![trigger c@.collections[x], c@.collections[y]]
                    0 <= x < y < c@.collections.len() implies c@.collections[x].id
                    != c@.collections[y].id && c@.collections[x].name != c@.collections[y].name by {
                    if y < pre.collections.len() {
                        assert(pre.collections[x].id != pre.collections[y].id);
                    } else {
                        assert(c@.collections[y] == rowv);
                        assert(c@.collections[x] == pre.collections[x]);
                    }
                }
                assert forall|k: int| 0 <= k < c@.files.len() implies c@.has_collection(
                    (#[trigger] c@.files[k]).collection_id,
                ) by {
                    assert(pre.has_collection(pre.files[k].collection_id));
                    let w = choose|w: int|
                        0 <= w < pre.collections.len() && (#[trigger] pre.collections[w]).id
                            == pre.files[k].collection_id;
                    assert(c@.collections[w].id == c@.files[k].collection_id);
                }
            }
        }
        Ok(())
    }

    /// Insertion with a freshly drawn random identifier, all-or-nothing.
    pub fn insert(&self, c: &mut Catalog) -> (r: Result<Uid, Error>)
        requires
            old(c)@.wf(),
        ensures
            final(c)@.wf(),
            match r {
                Ok(id) => {
                    &&& !old(c)@.has_collection_name(self.name@)
                    &&& !old(c)@.has_collection(id)
                    &&& final(c)@.collections.len() == old(c)@.collections.len() + 1
                    &&& final(c)@.collections == old(c)@.collections.push(
                        final(c)@.collections.last(),
                    )
                    &&& final(c)@.collections.last().id == id
                    &&& final(c)@.collections.last().name == self.name@
                    &&& final(c)@.same_except_collections(old(c)@)
                },
                Err(e) => {
                    &&& final(c)@ == old(c)@
                    &&& (e == Error::CollectionNameTaken <==> old(c)@.has_collection_name(
                        self.name@,
                    ))
                    &&& (e == Error::CollectionNameTaken || e == Error::IdCollision)
                },
            },
    {
        let id = uid_new();
        match self.insert_with_id(c, id) {
            Ok(_) => Ok(id),
            Err(e) => Err(e),
        }
    }
}

// ---------------------------------------------------------------------------
// Locations
// ---------------------------------------------------------------------------

pub(crate) fn copy_location(x: &Location) -> (r: Location)
    ensures
        r@ == x@,
{
    Location { id: x.id, name: x.name.clone() }
}

impl Location {
    pub fn for_id<'a>(c: &'a Catalog, id: &Uid) -> (r: Option<&'a Location>)
        ensures
            match r {
                Some(x) => x@.id == *id && c@.locations.contains(x@),
                None => !c@.has_location(*id),
            },
    {
        let mut i: usize = 0;
        while i < c.locations.len()
            invariant
                0 <= i <= c.locations.len(),
                forall|j: int| 0 <= j < i ==> (#[trigger] c@.locations[j]).id != *id,
            decreases c.locations.len() - i,
        {
            if c.locations[i].id.value == id.value {
                assert(c@.locations.contains(c@.locations[i as int]));
                return Some(&c.locations[i]);
            }
            i = i + 1;
        }
        None
    }

    pub fn for_name<'a>(c: &'a Catalog, name: &str) -> (r: Option<&'a Location>)
        ensures
            match r {
                Some(x) => x@.name == name@ && c@.locations.contains(x@),
                None => !c@.has_location_name(name@),
            },
    {
        let gname = String::from_str(name);
        let mut i: usize = 0;
        while i < c.locations.len()
            invariant
                0 <= i <= c.locations.len(),
                gname@ == name@,
                forall|j: int| 0 <= j < i ==> (#[trigger] c@.locations[j]).name != name@,
            decreases c.locations.len() - i,
        {
            if c.locations[i].name == gname {
                assert(c@.locations.contains(c@.locations[i as int]));
                return Some(&c.locations[i]);
            }
            i = i + 1;
        }
        None
    }

    pub fn all(c: &Catalog) -> (r: Vec<Location>)
        ensures
            r@.map_values(|x: Location| x@) == c@.locations,
    {
        let mut r: Vec<Location> = Vec::new();
        let mut i: usize = 0;
        assert(r@.map_values(|x: Location| x@) =~= c@.locations.subrange(0, 0));
        while i < c.locations.len()
            invariant
                0 <= i <= c.locations.len(),
                r@.map_values(|x: Location| x@) == c@.locations.subrange(0, i as int),
            decreases c.locations.len() - i,
        {
            r.push(copy_location(&c.locations[i]));
            assert(r@.map_values(|x: Location| x@) =~= c@.locations.subrange(0, i as int).push(
                c@.locations[i as int],
            ));
            assert(c@.locations.subrange(0, i + 1 as int) =~= c@.locations.subrange(
                0,
                i as int,
            ).push(c@.locations[i as int]));
            i = i + 1;
        }
        assert(c@.locations.subrange(0, c@.locations.len() as int) =~= c@.locations);
        r
    }
}

/// Insertion of a location row, all-or-nothing.
pub struct NewLocation {
    pub name: String,
}

impl NewLocation {
    /// The deterministic core of insertion: for the given identifier the
    /// outcome is fixed, and the row is added exactly when every check
    /// passes and the identifier is not already in use.
    pub fn insert_with_id(&self, c: &mut Catalog, id: Uid) -> (r: Result<(), Error>)
        requires
            old(c)@.wf(),
        ensures
            final(c)@.wf(),
            match r {
                Ok(_) => {
                    &&& !old(c)@.has_location_name(self.name@)
                    &&& !old(c)@.has_location(id)
                    &&& final(c)@.locations.len() == old(c)@.locations.len() + 1
                    &&& final(c)@.locations == old(c)@.locations.push(final(c)@.locations.last())
                    &&& final(c)@.locations.last().id == id
                    &&& final(c)@.locations.last().name == self.name@
                    &&& final(c)@.same_except_locations(old(c)@)
                },
                Err(e) => {
                    &&& final(c)@ == old(c)@
                    &&& (e == Error::LocationNameTaken <==> old(c)@.has_location_name(self.name@))
                    &&& (e == Error::IdCollision <==> !old(c)@.has_location_name(
                        self.name@,
                    ) && old(c)@.has_location(id))
                    &&& (e == Error::LocationNameTaken || e == Error::IdCollision)
                },
            },
    {
        let mut i: usize = 0;
        while i < c.locations.len()
            invariant
                0 <= i <= c.locations.len(),
                c@ == old(c)@,
                old(c)@.wf(),
                forall|j: int| 0 <= j < i ==> (#[trigger] c@.locations[j]).name != self.name@,
            decreases c.locations.len() - i,
        {
            if c.locations[i].name == self.name {
                assert(c@.locations[i as int].name == self.name@);
                return Err(Error::LocationNameTaken);
            }
            i = i + 1;
        }
        assert(!c@.has_location_name(self.name@));
        let mut k: usize = 0;
        while k < c.locations.len()
            invariant
                0 <= k <= c.locations.len(),
                c@ == old(c)@,
                old(c)@.wf(),
                !old(c)@.has_location_name(self.name@),
                forall|j: int| 0 <= j < k ==> (#[trigger] c@.locations[j]).id != id,
            decreases c.locations.len() - k,
        {
            if c.locations[k].id.value == id.value {
                assert((c@.locations[k as int]).id == id);
                return Err(Error::IdCollision);
            }
            k = k + 1;
        }
        assert(!c@.has_location(id));
        let row = Location { id, name: self.name.clone() };
        let ghost pre = c@;
        let ghost rowv = row@;
        c.locations.push(row);
        proof {
            assert(c@.locations =~= pre.locations.push(rowv));
            assert(c@.same_except_locations(pre));
            assert(c@.wf()) by {
                assert forall|x: int, y: int|
                    #![trigger c@.locations[x], c@.locations[y]]
                    0 <= x < y < c@.locations.len() implies c@.locations[x].id != c@.locations[y].id
                    && c@.locations[x].name != c@.locations[y].name by {
                    if y < pre.locations.len() {
                        assert(pre.locations[x].id != pre.locations[y].id);
                    } else {
                        assert(c@.locations[y] == rowv);
                        assert(c@.locations[x] == pre.locations[x]);
                    }
                }
                assert forall|k2: int|
                    0 <= k2 < c@.disks.len() && (#[trigger] c@.disks[k2]).location_id
                        is Some implies c@.has_location(c@.disks[k2].location_id->0) by {
                    assert(pre.has_location(pre.disks[k2].location_id->0));
                    let w = choose|w: int|
                        0 <= w < pre.locations.len() && (#[trigger] pre.locations[w]).id
                            == pre.disks[k2].location_id->0;
                    assert(c@.locations[w].id == c@.disks[k2].location_id->0);
                }
            }
        }
        Ok(())
    }

    /// Insertion with a freshly drawn random identifier, all-or-nothing.
    pub fn insert(&self, c: &mut Catalog) -> (r: Result<Uid, Error>)
        requires
            old(c)@.wf(),
        ensures
            final(c)@.wf(),
            match r {
                Ok(id) => {
                    &&& !old(c)@.has_location_name(self.name@)
                    &&& !old(c)@.has_location(id)
                    &&& final(c)@.locations.len() == old(c)@.locations.len() + 1
                    &&& final(c)@.locations == old(c)@.locations.push(final(c)@.locations.last())
                    &&& final(c)@.locations.last().id == id
                    &&& final(c)@.locations.last().name == self.name@
                    &&& final(c)@.same_except_locations(old(c)@)
                },
                Err(e) => {
                    &&& final(c)@ == old(c)@
                    &&& (e == Error::LocationNameTaken <==> old(c)@.has_location_name(self.name@))
                    &&& (e == Error::LocationNameTaken || e == Error::IdCollision)
                },
            },
    {
        let id = uid_new();
        match self.insert_with_id(c, id) {
            Ok(_) => Ok(id),
            Err(e) => Err(e),
        }
    }
}

// ---------------------------------------------------------------------------
// Disks
// ---------------------------------------------------------------------------

pub(crate) fn copy_disk(x: &Disk) -> (r: Disk)
    ensures
        r@ == x@,
{
    Disk {
        id: x.id,
        location_id: x.location_id,
        created_date: x.created_date,
        serial_number: x.serial_number.clone(),
        label: x.label.clone(),
    }
}

impl Disk {
    pub fn for_serial_number<'a>(c: &'a Catalog, serial_number: &str) -> (r: Option<&'a Disk>)
        ensures
            match r {
                Some(x) => x@.serial_number == serial_number@ && c@.disks.contains(x@),
                None => !c@.has_disk_serial(serial_number@),
            },
    {
        let gserial = String::from_str(serial_number);
        let mut i: usize = 0;
        while i < c.disks.len()
            invariant
                0 <= i <= c.disks.len(),
                gserial@ == serial_number@,
                forall|j: int|
                    0 <= j < i ==> (#[trigger] c@.disks[j]).serial_number != serial_number@,
            decreases c.disks.len() - i,
        {
            if c.disks[i].serial_number == gserial {
                assert(c@.disks.contains(c@.disks[i as int]));
                return Some(&c.disks[i]);
            }
            i = i + 1;
        }
        None
    }

    pub fn for_id<'a>(c: &'a Catalog, id: &Uid) -> (r: Option<&'a Disk>)
        ensures
            match r {
                Some(x) => x@.id == *id && c@.disks.contains(x@),
                None => !c@.has_disk(*id),
            },
    {
        let mut i: usize = 0;
        while i < c.disks.len()
            invariant
                0 <= i <= c.disks.len(),
                forall|j: int| 0 <= j < i ==> (#[trigger] c@.disks[j]).id != *id,
            decreases c.disks.len() - i,
        {
            if c.disks[i].id.value == id.value {
                assert(c@.disks.contains(c@.disks[i as int]));
                return Some(&c.disks[i]);
            }
            i = i + 1;
        }
        None
    }

    /// The disk that owns the given partition.
    pub fn for_partition_id(c: &Catalog, partition_id: &Uid) -> (r: Option<Disk>)
        requires
            c@.wf(),
        ensures
            match r {
                Some(d) => c@.disks.contains(d@) && (exists|i: int|
                    0 <= i < c@.partitions.len() && (#[trigger] c@.partitions[i]).id
                        == *partition_id && c@.partitions[i].disk_id == d@.id),
                None => !c@.has_partition(*partition_id),
            },
    {
        let mut i: usize = 0;
        while i < c.partitions.len()
            invariant
                0 <= i <= c.partitions.len(),
                c@.wf(),
                forall|j: int| 0 <= j < i ==> (#[trigger] c@.partitions[j]).id != *partition_id,
            decreases c.partitions.len() - i,
        {
            if c.partitions[i].id.value == partition_id.value {
                let disk_id = c.partitions[i].disk_id;
                assert(disk_id == (c@.partitions[i as int]).disk_id);
                assert(c@.has_disk(disk_id));
                let mut k: usize = 0;
                while k < c.disks.len()
                    invariant
                        0 <= k <= c.disks.len(),
                        c@.wf(),
                        c@.has_disk(disk_id),
                        0 <= i < c@.partitions.len(),
                        c@.partitions[i as int].id == *partition_id,
                        c@.partitions[i as int].disk_id == disk_id,
                        forall|j: int| 0 <= j < k ==> (#[trigger] c@.disks[j]).id != disk_id,
                    decreases c.disks.len() - k,
                {
                    if c.disks[k].id.value == disk_id.value {
                        assert(c@.disks.contains(c@.disks[k as int]));
                        return Some(copy_disk(&c.disks[k]));
                    }
                    k = k + 1;
                }
                assert(!c@.has_disk(disk_id));
                assert(false);
            }
            i = i + 1;
        }
        None
    }

    pub fn all(c: &Catalog) -> (r: Vec<Disk>)
        ensures
            r@.map_values(|x: Disk| x@) == c@.disks,
    {
        let mut r: Vec<Disk> = Vec::new();
        let mut i: usize = 0;
        assert(r@.map_values(|x: Disk| x@) =~= c@.disks.subrange(0, 0));
        while i < c.disks.len()
            invariant
                0 <= i <= c.disks.len(),
                r@.map_values(|x: Disk| x@) == c@.disks.subrange(0, i as int),
            decreases c.disks.len() - i,
        {
            r.push(copy_disk(&c.disks[i]));
            assert(r@.map_values(|x: Disk| x@) =~= c@.disks.subrange(0, i as int).push(
                c@.disks[i as int],
            ));
            assert(c@.disks.subrange(0, i + 1 as int) =~= c@.disks.subrange(0, i as int).push(
                c@.disks[i as int],
            ));
            i = i + 1;
        }
        assert(c@.disks.subrange(0, c@.disks.len() as int) =~= c@.disks);
        r
    }
}

/// Insertion of a disk row, all-or-nothing.
pub struct NewDisk {
    pub location_id: Option<Uid>,
    pub serial_number: String,
    pub label: String,
}

impl NewDisk {
    /// The deterministic core of insertion: for the given identifier the
    /// outcome is fixed, and the row is added exactly when every check
    /// passes and the identifier is not already in use.
    pub fn insert_with_id(&self, c: &mut Catalog, id: Uid) -> (r: Result<(), Error>)
        requires
            old(c)@.wf(),
        ensures
            final(c)@.wf(),
            match r {
                Ok(_) => {
                    &&& !old(c)@.has_disk_serial(self.serial_number@)
                    &&& !old(c)@.has_disk_label(self.label@)
                    &&& (self.location_id is Some ==> old(c)@.has_location(self.location_id->0))
                    &&& !old(c)@.has_disk(id)
                    &&& final(c)@.disks.len() == old(c)@.disks.len() + 1
                    &&& final(c)@.disks == old(c)@.disks.push(final(c)@.disks.last())
                    &&& final(c)@.disks.last().id == id
                    &&& final(c)@.disks.last().serial_number == self.serial_number@
                    &&& final(c)@.disks.last().label == self.label@
                    &&& final(c)@.disks.last().location_id == self.location_id
                    &&& final(c)@.same_except_disks(old(c)@)
                },
                Err(e) => {
                    &&& final(c)@ == old(c)@
                    &&& (e == Error::DiskSerialTaken <==> old(c)@.has_disk_serial(
                        self.serial_number@,
                    ))
                    &&& (e == Error::DiskLabelTaken <==> !old(c)@.has_disk_serial(
                        self.serial_number@,
                    ) && old(c)@.has_disk_label(self.label@))
                    &&& (e == Error::LocationNotFound <==> !old(c)@.has_disk_serial(
                        self.serial_number@,
                    ) && !old(c)@.has_disk_label(self.label@) && self.location_id is Some && !old(
                        c,
                    )@.has_location(self.location_id->0))
                    &&& (e == Error::IdCollision <==> !old(c)@.has_disk_serial(
                        self.serial_number@,
                    ) && !old(c)@.has_disk_label(self.label@) && (self.location_id is Some
                        ==> old(c)@.has_location(self.location_id->0)) && old(c)@.has_disk(id))
                    &&& (e == Error::DiskSerialTaken || e == Error::DiskLabelTaken || e
                        == Error::LocationNotFound || e == Error::IdCollision)
                },
            },
    {
        let mut i: usize = 0;
        while i < c.disks.len()
            invariant
                0 <= i <= c.disks.len(),
                c@ == old(c)@,
                old(c)@.wf(),
                forall|j: int|
                    0 <= j < i ==> (#[trigger] c@.disks[j]).serial_number != self.serial_number@,
            decreases c.disks.len() - i,
        {
            if c.disks[i].serial_number == self.serial_number {
                assert(c@.disks[i as int].serial_number == self.serial_number@);
                return Err(Error::DiskSerialTaken);
            }
            i = i + 1;
        }
        assert(!c@.has_disk_serial(self.serial_number@));
        let mut l: usize = 0;
        while l < c.disks.len()
            invariant
                0 <= l <= c.disks.len(),
                c@ == old(c)@,
                old(c)@.wf(),
                !old(c)@.has_disk_serial(self.serial_number@),
                forall|j: int| 0 <= j < l ==> (#[trigger] c@.disks[j]).label != self.label@,
            decreases c.disks.len() - l,
        {
            if c.disks[l].label == self.label {
                assert(c@.disks[l as int].label == self.label@);
                return Err(Error::DiskLabelTaken);
            }
            l = l + 1;
        }
        assert(!c@.has_disk_label(self.label@));
        if let Some(loc) = &self.location_id {
            if Location::for_id(c, loc).is_none() {
                return Err(Error::LocationNotFound);
            }
        }
        let mut k: usize = 0;
        while k < c.disks.len()
            invariant
                0 <= k <= c.disks.len(),
                c@ == old(c)@,
                old(c)@.wf(),
                !old(c)@.has_disk_serial(self.serial_number@),
                !old(c)@.has_disk_label(self.label@),
                self.location_id is Some ==> old(c)@.has_location(self.location_id->0),
                forall|j: int| 0 <= j < k ==> (#[trigger] c@.disks[j]).id != id,
            decreases c.disks.len() - k,
        {
            if c.disks[k].id.value == id.value {
                assert((c@.disks[k as int]).id == id);
                return Err(Error::IdCollision);
            }
            k = k + 1;
        }
        assert(!c@.has_disk(id));
        let row = Disk {
            id,
            location_id: self.location_id,
            created_date: Timestamp::now(),
            serial_number: self.serial_number.clone(),
            label: self.label.clone(),
        };
        let ghost pre = c@;
        let ghost rowv = row@;
        c.disks.push(row);
        proof {
            assert(c@.disks =~= pre.disks.push(rowv));
            assert(c@.same_except_disks(pre));
            assert(c@.wf()) by {
                assert forall|x: int, y: int|
                    #![trigger c@.disks[x], c@.disks[y]]
                    0 <= x < y < c@.disks.len() implies c@.disks[x].id != c@.disks[y].id
                    && c@.disks[x].serial_number != c@.disks[y].serial_number && c@.disks[x].label
                    != c@.disks[y].label by {
                    if y < pre.disks.len() {
                        assert(pre.disks[x].id != pre.disks[y].id);
                    } else {
                        assert(c@.disks[y] == rowv);
                        assert(c@.disks[x] == pre.disks[x]);
                    }
                }
                assert forall|k2: int|
                    0 <= k2 < c@.disks.len() && (#[trigger] c@.disks[k2]).location_id
                        is Some implies c@.has_location(c@.disks[k2].location_id->0) by {
                    if k2 < pre.disks.len() {
                        assert(pre.has_location(pre.disks[k2].location_id->0));
                    } else {
                        assert(c@.disks[k2] == rowv);
                    }
                }
                assert forall|k2: int| 0 <= k2 < c@.partitions.len() implies c@.has_disk(
                    (#[trigger] c@.partitions[k2]).disk_id,
                ) by {
                    assert(pre.has_disk(pre.partitions[k2].disk_id));
                    let w = choose|w: int|
                        0 <= w < pre.disks.len() && (#[trigger] pre.disks[w]).id
                            == pre.partitions[k2].disk_id;
                    assert(c@.disks[w].id == c@.partitions[k2].disk_id);
                }
            }
        }
        Ok(())
    }

    /// Insertion with a freshly drawn random identifier, all-or-nothing.
    pub fn insert(&self, c: &mut Catalog) -> (r: Result<Uid, Error>)
        requires
            old(c)@.wf(),
        ensures
            final(c)@.wf(),
            match r {
                Ok(id) => {
                    &&& !old(c)@.has_disk_serial(self.serial_number@)
                    &&& !old(c)@.has_disk_label(self.label@)
                    &&& (self.location_id is Some ==> old(c)@.has_location(self.location_id->0))
                    &&& !old(c)@.has_disk(id)
                    &&& final(c)@.disks.len() == old(c)@.disks.len() + 1
                    &&& final(c)@.disks == old(c)@.disks.push(final(c)@.disks.last())
                    &&& final(c)@.disks.last().id == id
                    &&& final(c)@.disks.last().serial_number == self.serial_number@
                    &&& final(c)@.disks.last().label == self.label@
                    &&& final(c)@.disks.last().location_id == self.location_id
                    &&& final(c)@.same_except_disks(old(c)@)
                },
                Err(e) => {
                    &&& final(c)@ == old(c)@
                    &&& (e == Error::DiskSerialTaken <==> old(c)@.has_disk_serial(
                        self.serial_number@,
                    ))
                    &&& (e == Error::DiskLabelTaken <==> !old(c)@.has_disk_serial(
                        self.serial_number@,
                    ) && old(c)@.has_disk_label(self.label@))
                    &&& (e == Error::LocationNotFound <==> !old(c)@.has_disk_serial(
                        self.serial_number@,
                    ) && !old(c)@.has_disk_label(self.label@) && self.location_id is Some && !old(
                        c,
                    )@.has_location(self.location_id->0))
                    &&& (e == Error::DiskSerialTaken || e == Error::DiskLabelTaken || e
                        == Error::LocationNotFound || e == Error::IdCollision)
                },
            },
    {
        let id = uid_new();
        match self.insert_with_id(c, id) {
            Ok(_) => Ok(id),
            Err(e) => Err(e),
        }
    }
}

// ---------------------------------------------------------------------------
// Partitions
// ---------------------------------------------------------------------------

pub(crate) fn copy_partition(x: &Partition) -> (r: Partition)
    ensures
        r@ == x@,
{
    Partition { id: x.id, disk_id: x.disk_id, uuid: x.uuid.clone(), capacity: x.capacity }
}

/// The views of a list of owned strings.
pub open spec fn str_views(v: Seq<String>) -> Seq<Seq<char>> {
    v.map_values(|s: String| s@)
}

/// Whether a partition row joins to one of the currently mounted filesystem
/// UUIDs.
pub open spec fn mounted_pred(uuids: Seq<Seq<char>>) -> spec_fn(PartitionV) -> bool {
    |p: PartitionV| uuids.contains(p.uuid)
}

impl Partition {
    pub fn for_id(c: &Catalog, id: &Uid) -> (r: Option<Partition>)
        ensures
            match r {
                Some(x) => x@.id == *id && c@.partitions.contains(x@),
                None => !c@.has_partition(*id),
            },
    {
        let mut i: usize = 0;
        while i < c.partitions.len()
            invariant
                0 <= i <= c.partitions.len(),
                forall|j: int| 0 <= j < i ==> (#[trigger] c@.partitions[j]).id != *id,
            decreases c.partitions.len() - i,
        {
            if c.partitions[i].id.value == id.value {
                assert(c@.partitions.contains(c@.partitions[i as int]));
                return Some(copy_partition(&c.partitions[i]));
            }
            i = i + 1;
        }
        None
    }

    /// The registered partitions whose filesystem UUID is currently mounted.
    pub fn current(c: &Catalog, current_partition_uuids: &Vec<String>) -> (r: Vec<Partition>)
        ensures
            r@.map_values(|x: Partition| x@) == c@.partitions.filter(
                mounted_pred(str_views(current_partition_uuids@)),
            ),
    {
        let ghost guuids = str_views(current_partition_uuids@);
        let ghost pred = mounted_pred(guuids);
        let mut r: Vec<Partition> = Vec::new();
        proof {
            crate::strutil::lemma_filter_empty(c@.partitions.subrange(0, 0), pred);
        }
        assert(r@.map_values(|x: Partition| x@) =~= c@.partitions.subrange(0, 0).filter(pred));
        let mut i: usize = 0;
        while i < c.partitions.len()
            invariant
                0 <= i <= c.partitions.len(),
                guuids == str_views(current_partition_uuids@),
                pred == mounted_pred(guuids),
                r@.map_values(|x: Partition| x@) == c@.partitions.subrange(0, i as int).filter(
                    pred,
                ),
            decreases c.partitions.len() - i,
        {
            proof {
                crate::strutil::lemma_filter_step(c@.partitions, pred, i as int);
            }
            let mut m = false;
            let mut k: usize = 0;
            while k < current_partition_uuids.len()
                invariant
                    0 <= k <= current_partition_uuids.len(),
                    0 <= i < c.partitions.len(),
                    guuids == str_views(current_partition_uuids@),
                    m == exists|j: int|
                        0 <= j < k && #[trigger] guuids[j] == c@.partitions[i as int].uuid,
                decreases current_partition_uuids.len() - k,
            {
                if current_partition_uuids[k] == c.partitions[i].uuid {
                    assert(guuids[k as int] == c@.partitions[i as int].uuid);
                    m = true;
                }
                k = k + 1;
            }
            assert(m == guuids.contains(c@.partitions[i as int].uuid));
            assert(m == pred(c@.partitions[i as int]));
            if m {
                r.push(copy_partition(&c.partitions[i]));
                assert(r@.map_values(|x: Partition| x@) =~= c@.partitions.subrange(
                    0,
                    i as int,
                ).filter(pred).push(c@.partitions[i as int]));
            }
            i = i + 1;
        }
        assert(c@.partitions.subrange(0, c@.partitions.len() as int) =~= c@.partitions);
        r
    }

    /// A partition chosen among the currently mounted registered ones;
    /// nothing when none is mounted. Which one comes back is left to chance.
    pub fn random(c: &Catalog, current_partition_uuids: &Vec<String>) -> (r: Option<Partition>)
        ensures
            match r {
                Some(p) => c@.partitions.filter(
                    mounted_pred(str_views(current_partition_uuids@)),
                ).contains(p@),
                None => c@.partitions.filter(
                    mounted_pred(str_views(current_partition_uuids@)),
                ).len() == 0,
            },
    {
        let choices = Self::current(c, current_partition_uuids);
        if choices.len() == 0 {
            None
        } else {
            let i = crate::random::pick_index(choices.len());
            let ghost filt = c@.partitions.filter(mounted_pred(str_views(current_partition_uuids@)));
            assert(filt[i as int] == choices@.map_values(|x: Partition| x@)[i as int]);
            assert(filt.contains(filt[i as int]));
            Some(copy_partition(&choices[i]))
        }
    }

    pub fn all(c: &Catalog) -> (r: Vec<Partition>)
        ensures
            r@.map_values(|x: Partition| x@) == c@.partitions,
    {
        let mut r: Vec<Partition> = Vec::new();
        let mut i: usize = 0;
        assert(r@.map_values(|x: Partition| x@) =~= c@.partitions.subrange(0, 0));
        while i < c.partitions.len()
            invariant
                0 <= i <= c.partitions.len(),
                r@.map_values(|x: Partition| x@) == c@.partitions.subrange(0, i as int),
            decreases c.partitions.len() - i,
        {
            r.push(copy_partition(&c.partitions[i]));
            assert(r@.map_values(|x: Partition| x@) =~= c@.partitions.subrange(0, i as int).push(
                c@.partitions[i as int],
            ));
            assert(c@.partitions.subrange(0, i + 1 as int) =~= c@.partitions.subrange(
                0,
                i as int,
            ).push(c@.partitions[i as int]));
            i = i + 1;
        }
        assert(c@.partitions.subrange(0, c@.partitions.len() as int) =~= c@.partitions);
        r
    }
}

/// Insertion of a partition row, all-or-nothing.
pub struct NewPartition {
    pub disk_id: Uid,
    pub uuid: String,
    pub capacity: u64,
}

impl NewPartition {
    /// Register a discovered partition under the disk with the given
    /// hardware serial number, which must have been added first.
    pub fn create_for_disk(
        c: &mut Catalog,
        serial_number: &str,
        uuid: &str,
        capacity: u64,
    ) -> (r: Result<Uid, Error>)
        requires
            old(c)@.wf(),
        ensures
            final(c)@.wf(),
            !old(c)@.has_disk_serial(serial_number@) ==> r == Result::<Uid, Error>::Err(
                Error::DiskNotFound,
            ) && final(c)@ == old(c)@,
            match r {
                Ok(id) => {
                    &&& !old(c)@.has_partition_uuid(uuid@)
                    &&& final(c)@.partitions.len() == old(c)@.partitions.len() + 1
                    &&& final(c)@.partitions == old(c)@.partitions.push(
                        final(c)@.partitions.last(),
                    )
                    &&& final(c)@.partitions.last().id == id
                    &&& final(c)@.partitions.last().uuid == uuid@
                    &&& final(c)@.partitions.last().capacity == capacity
                    &&& final(c)@.same_except_partitions(old(c)@)
                },
                Err(e) => final(c)@ == old(c)@,
            },
            old(c)@.has_disk_serial(serial_number@) && old(c)@.has_partition_uuid(uuid@) ==> r
                == Result::<Uid, Error>::Err(Error::PartitionUuidTaken),
    {
        let disk_id = match Disk::for_serial_number(c, serial_number) {
            Some(d) => {
                proof {
                    let w = choose|w: int|
                        0 <= w < c@.disks.len() && (#[trigger] c@.disks[w]) == d@;
                    assert(c@.disks[w].id == d.id);
                }
                d.id
            },
            None => {
                return Err(Error::DiskNotFound);
            },
        };
        assert(c@.has_disk(disk_id));
        let np = NewPartition { disk_id, uuid: String::from_str(uuid), capacity };
        np.insert(c)
    }

    /// The deterministic core of insertion: for the given identifier the
    /// outcome is fixed, and the row is added exactly when every check
    /// passes and the identifier is not already in use.
    pub fn insert_with_id(&self, c: &mut Catalog, id: Uid) -> (r: Result<(), Error>)
        requires
            old(c)@.wf(),
        ensures
            final(c)@.wf(),
            match r {
                Ok(_) => {
                    &&& !old(c)@.has_partition_uuid(self.uuid@)
                    &&& old(c)@.has_disk(self.disk_id)
                    &&& !old(c)@.has_partition(id)
                    &&& final(c)@.partitions.len() == old(c)@.partitions.len() + 1
                    &&& final(c)@.partitions == old(c)@.partitions.push(
                        final(c)@.partitions.last(),
                    )
                    &&& final(c)@.partitions.last().id == id
                    &&& final(c)@.partitions.last().uuid == self.uuid@
                    &&& final(c)@.partitions.last().disk_id == self.disk_id
                    &&& final(c)@.partitions.last().capacity == self.capacity
                    &&& final(c)@.same_except_partitions(old(c)@)
                },
                Err(e) => {
                    &&& final(c)@ == old(c)@
                    &&& (e == Error::PartitionUuidTaken <==> old(c)@.has_partition_uuid(
                        self.uuid@,
                    ))
                    &&& (e == Error::DiskNotFound <==> !old(c)@.has_partition_uuid(self.uuid@)
                        && !old(c)@.has_disk(self.disk_id))
                    &&& (e == Error::IdCollision <==> !old(c)@.has_partition_uuid(
                        self.uuid@,
                    ) && old(c)@.has_disk(self.disk_id) && old(c)@.has_partition(id))
                    &&& (e == Error::PartitionUuidTaken || e == Error::DiskNotFound || e
                        == Error::IdCollision)
                },
            },
    {
        let mut i: usize = 0;
        while i < c.partitions.len()
            invariant
                0 <= i <= c.partitions.len(),
                c@ == old(c)@,
                old(c)@.wf(),
                forall|j: int| 0 <= j < i ==> (#[trigger] c@.partitions[j]).uuid != self.uuid@,
            decreases c.partitions.len() - i,
        {
            if c.partitions[i].uuid == self.uuid {
                assert(c@.partitions[i as int].uuid == self.uuid@);
                return Err(Error::PartitionUuidTaken);
            }
            i = i + 1;
        }
        assert(!c@.has_partition_uuid(self.uuid@));
        if Disk::for_id(c, &self.disk_id).is_none() {
            return Err(Error::DiskNotFound);
        }
        let mut k: usize = 0;
        while k < c.partitions.len()
            invariant
                0 <= k <= c.partitions.len(),
                c@ == old(c)@,
                old(c)@.wf(),
                !old(c)@.has_partition_uuid(self.uuid@),
                old(c)@.has_disk(self.disk_id),
                forall|j: int| 0 <= j < k ==> (#[trigger] c@.partitions[j]).id != id,
            decreases c.partitions.len() - k,
        {
            if c.partitions[k].id.value == id.value {
                assert((c@.partitions[k as int]).id == id);
                return Err(Error::IdCollision);
            }
            k = k + 1;
        }
        assert(!c@.has_partition(id));
        let row = Partition {
            id,
            disk_id: self.disk_id,
            uuid: self.uuid.clone(),
            capacity: self.capacity,
        };
        let ghost pre = c@;
        let ghost rowv = row@;
        c.partitions.push(row);
        proof {
            assert(c@.partitions =~= pre.partitions.push(rowv));
            assert(c@.same_except_partitions(pre));
            assert(c@.wf()) by {
                assert forall|x: int, y: int|
                    #![trigger c@.partitions[x], c@.partitions[y]]
                    0 <= x < y < c@.partitions.len() implies c@.partitions[x].id
                    != c@.partitions[y].id && c@.partitions[x].uuid != c@.partitions[y].uuid by {
                    if y < pre.partitions.len() {
                        assert(pre.partitions[x].id != pre.partitions[y].id);
                    } else {
                        assert(c@.partitions[y] == rowv);
                        assert(c@.partitions[x] == pre.partitions[x]);
                    }
                }
                assert forall|k2: int| 0 <= k2 < c@.partitions.len() implies c@.has_disk(
                    (#[trigger] c@.partitions[k2]).disk_id,
                ) by {
                    if k2 < pre.partitions.len() {
                        assert(pre.has_disk(pre.partitions[k2].disk_id));
                        let w = choose|w: int|
                            0 <= w < pre.disks.len() && (#[trigger] pre.disks[w]).id
                                == pre.partitions[k2].disk_id;
                        assert(c@.disks[w].id == c@.partitions[k2].disk_id);
                    } else {
                        assert(c@.partitions[k2] == rowv);
                        let w = choose|w: int|
                            0 <= w < pre.disks.len() && (#[trigger] pre.disks[w]).id
                                == self.disk_id;
                        assert(c@.disks[w].id == self.disk_id);
                    }
                }
                assert forall|k2: int| 0 <= k2 < c@.placements.len() implies c@.has_file(
                    (#[trigger] c@.placements[k2]).file_id,
                ) && c@.has_partition(c@.placements[k2].partition_id) by {
                    assert(pre.has_file(pre.placements[k2].file_id));
                    assert(pre.has_partition(pre.placements[k2].partition_id));
                    let w = choose|w: int|
                        0 <= w < pre.partitions.len() && (#[trigger] pre.partitions[w]).id
                            == pre.placements[k2].partition_id;
                    assert(c@.partitions[w].id == c@.placements[k2].partition_id);
                }
            }
        }
        Ok(())
    }

    /// Insertion with a freshly drawn random identifier, all-or-nothing.
    pub fn insert(&self, c: &mut Catalog) -> (r: Result<Uid, Error>)
        requires
            old(c)@.wf(),
        ensures
            final(c)@.wf(),
            match r {
                Ok(id) => {
                    &&& !old(c)@.has_partition_uuid(self.uuid@)
                    &&& old(c)@.has_disk(self.disk_id)
                    &&& !old(c)@.has_partition(id)
                    &&& final(c)@.partitions.len() == old(c)@.partitions.len() + 1
                    &&& final(c)@.partitions == old(c)@.partitions.push(
                        final(c)@.partitions.last(),
                    )
                    &&& final(c)@.partitions.last().id == id
                    &&& final(c)@.partitions.last().uuid == self.uuid@
                    &&& final(c)@.partitions.last().disk_id == self.disk_id
                    &&& final(c)@.partitions.last().capacity == self.capacity
                    &&& final(c)@.same_except_partitions(old(c)@)
                },
                Err(e) => {
                    &&& final(c)@ == old(c)@
                    &&& (e == Error::PartitionUuidTaken <==> old(c)@.has_partition_uuid(
                        self.uuid@,
                    ))
                    &&& (e == Error::DiskNotFound <==> !old(c)@.has_partition_uuid(self.uuid@)
                        && !old(c)@.has_disk(self.disk_id))
                    &&& (e == Error::PartitionUuidTaken || e == Error::DiskNotFound || e
                        == Error::IdCollision)
                },
            },
    {
        let id = uid_new();
        match self.insert_with_id(c, id) {
            Ok(_) => Ok(id),
            Err(e) => Err(e),
        }
    }
}

// ---------------------------------------------------------------------------
// Files
// ---------------------------------------------------------------------------

pub(crate) fn copy_file(x: &File) -> (r: File)
    ensures
        r@ == x@,
{
    File {
        id: x.id,
        collection_id: x.collection_id,
        path: x.path.clone(),
        created_date: x.created_date,
        size: x.size,
    }
}

pub(crate) fn copy_bytes(v: &Vec<u8>) -> (r: Vec<u8>)
    ensures
        r@ == v@,
{
    let mut r: Vec<u8> = Vec::new();
    let mut i: usize = 0;
    while i < v.len()
        invariant
            0 <= i <= v.len(),
            r@ == v@.subrange(0, i as int),
        decreases v.len() - i,
    {
        r.push(v[i]);
        assert(v@.subrange(0, i + 1 as int) =~= v@.subrange(0, i as int).push(v@[i as int]));
        i = i + 1;
    }
    assert(v@.subrange(0, v@.len() as int) =~= v@);
    r
}

/// Whether a file row appears in the non-recursive listing of a directory
/// root within one collection.
pub open spec fn ls_pred(collection_id: Uid, all: bool, root: Seq<char>) -> spec_fn(FileV) -> bool {
    |f: FileV| f.collection_id == collection_id && crate::fs_utils::ls_matches(root, all, f.path)
}

/// Whether a file's depth beneath the given root lies within the requested
/// bounds; with no bounds given, every file qualifies.
pub open spec fn depth_in_range(
    prefix: Seq<char>,
    p: Seq<char>,
    min_depth: Option<u32>,
    max_depth: Option<u32>,
) -> bool {
    match (min_depth, max_depth) {
        (Some(mn), Some(mx)) => match crate::fs_utils::rel_depth_of(prefix, p) {
            Some(d) => mn as int <= d && d <= mx as int,
            None => false,
        },
        (Some(mn), None) => match crate::fs_utils::rel_depth_of(prefix, p) {
            Some(d) => mn as int <= d,
            None => false,
        },
        (None, Some(mx)) => match crate::fs_utils::rel_depth_of(prefix, p) {
            Some(d) => d <= mx as int,
            None => false,
        },
        (None, None) => true,
    }
}

pub open spec fn name_matches(name: Option<Seq<char>>, p: Seq<char>) -> bool {
    match name {
        Some(pat) => match crate::fs_utils::basename_of(p) {
            Some(b) => crate::regex_utils::regex_match(pat, b),
            None => false,
        },
        None => true,
    }
}

pub open spec fn path_matches(pat: Option<Seq<char>>, p: Seq<char>) -> bool {
    match pat {
        Some(q) => crate::regex_utils::regex_match(q, p),
        None => true,
    }
}

/// The row filter of a recursive find: collection, depth window, basename
/// pattern and full-path pattern, each applied only when given.
pub open spec fn find_pred(
    collection_id: Uid,
    prefix: Seq<char>,
    min_depth: Option<u32>,
    max_depth: Option<u32>,
    name: Option<Seq<char>>,
    path_re: Option<Seq<char>>,
) -> spec_fn(FileV) -> bool {
    |f: FileV|
        f.collection_id == collection_id && depth_in_range(prefix, f.path, min_depth, max_depth)
            && name_matches(name, f.path) && path_matches(path_re, f.path)
}

pub open spec fn opt_view(o: Option<&str>) -> Option<Seq<char>> {
    match o {
        Some(s) => Some(s@),
        None => None,
    }
}

pub open spec fn opt_pattern_ok(p: Option<Seq<char>>) -> bool {
    match p {
        Some(q) => crate::regex_utils::regex_accepts(q),
        None => true,
    }
}

impl File {
    pub fn for_id(c: &Catalog, id: &Uid) -> (r: Option<File>)
        ensures
            match r {
                Some(x) => x@.id == *id && c@.files.contains(x@),
                None => !c@.has_file(*id),
            },
    {
        let mut i: usize = 0;
        while i < c.files.len()
            invariant
                0 <= i <= c.files.len(),
                forall|j: int| 0 <= j < i ==> (#[trigger] c@.files[j]).id != *id,
            decreases c.files.len() - i,
        {
            if c.files[i].id.value == id.value {
                assert(c@.files.contains(c@.files[i as int]));
                return Some(copy_file(&c.files[i]));
            }
            i = i + 1;
        }
        None
    }

    pub fn get_by_collection_and_path(c: &Catalog, collection_id: &Uid, path: &str) -> (r: Option<
        File,
    >)
        ensures
            match r {
                Some(x) => x@.collection_id == *collection_id && x@.path == path@
                    && c@.files.contains(x@),
                None => !c@.has_file_at(*collection_id, path@),
            },
    {
        let gpath = String::from_str(path);
        let mut i: usize = 0;
        while i < c.files.len()
            invariant
                0 <= i <= c.files.len(),
                gpath@ == path@,
                forall|j: int|
                    0 <= j < i ==> !((#[trigger] c@.files[j]).collection_id == *collection_id
                        && c@.files[j].path == path@),
            decreases c.files.len() - i,
        {
            if c.files[i].collection_id.value == collection_id.value && c.files[i].path == gpath {
                assert(c@.files.contains(c@.files[i as int]));
                return Some(copy_file(&c.files[i]));
            }
            i = i + 1;
        }
        None
    }

    /// The direct entries of a directory root: every file of the collection
    /// whose path extends the root by exactly one further name, hidden ones
    /// only when asked for.
    pub fn get_by_collection_and_directory(
        c: &Catalog,
        collection_id: &Uid,
        all: bool,
        path: &str,
    ) -> (r: Vec<File>)
        ensures
            r@.map_values(|x: File| x@) == c@.files.filter(ls_pred(*collection_id, all, path@)),
    {
        let ghost pred = ls_pred(*collection_id, all, path@);
        let mut r: Vec<File> = Vec::new();
        proof {
            crate::strutil::lemma_filter_empty(c@.files.subrange(0, 0), pred);
        }
        assert(r@.map_values(|x: File| x@) =~= c@.files.subrange(0, 0).filter(pred));
        let mut i: usize = 0;
        while i < c.files.len()
            invariant
                0 <= i <= c.files.len(),
                pred == ls_pred(*collection_id, all, path@),
                r@.map_values(|x: File| x@) == c@.files.subrange(0, i as int).filter(pred),
            decreases c.files.len() - i,
        {
            proof {
                crate::strutil::lemma_filter_step(c@.files, pred, i as int);
            }
            let same = c.files[i].collection_id.value == collection_id.value;
            let m = same && crate::fs_utils::ls_match(path, all, c.files[i].path.as_str());
            assert(m == pred(c@.files[i as int]));
            if m {
                r.push(copy_file(&c.files[i]));
                assert(r@.map_values(|x: File| x@) =~= c@.files.subrange(0, i as int).filter(
                    pred,
                ).push(c@.files[i as int]));
            }
            i = i + 1;
        }
        assert(c@.files.subrange(0, c@.files.len() as int) =~= c@.files);
        r
    }

    /// Recursive search beneath a root: files of the collection whose depth
    /// beneath the root lies in the requested window and which match the
    /// optional basename and path patterns. An invalid pattern is rejected
    /// before any row is read.
    pub fn find_in_dir(
        c: &Catalog,
        collection_id: &Uid,
        prefix: &str,
        min_depth: Option<u32>,
        max_depth: Option<u32>,
        name: Option<&str>,
        path: Option<&str>,
    ) -> (r: Result<Vec<File>, Error>)
        ensures
            r is Ok <==> opt_pattern_ok(opt_view(name)) && opt_pattern_ok(opt_view(path)),
            r is Err ==> r->Err_0 == Error::BadPattern,
            r is Ok ==> (r->Ok_0)@.map_values(|x: File| x@) == c@.files.filter(
                find_pred(
                    *collection_id,
                    prefix@,
                    min_depth,
                    max_depth,
                    opt_view(name),
                    opt_view(path),
                ),
            ),
    {
        match name {
            Some(np) => {
                if crate::regex_utils::regex_is_match(np, "").is_none() {
                    return Err(Error::BadPattern);
                }
            },
            None => {},
        }
        match path {
            Some(pp) => {
                if crate::regex_utils::regex_is_match(pp, "").is_none() {
                    return Err(Error::BadPattern);
                }
            },
            None => {},
        }
        let ghost pred = find_pred(
            *collection_id,
            prefix@,
            min_depth,
            max_depth,
            opt_view(name),
            opt_view(path),
        );
        let mut r: Vec<File> = Vec::new();
        proof {
            crate::strutil::lemma_filter_empty(c@.files.subrange(0, 0), pred);
        }
        assert(r@.map_values(|x: File| x@) =~= c@.files.subrange(0, 0).filter(pred));
        let mut i: usize = 0;
        while i < c.files.len()
            invariant
                0 <= i <= c.files.len(),
                pred == find_pred(
                    *collection_id,
                    prefix@,
                    min_depth,
                    max_depth,
                    opt_view(name),
                    opt_view(path),
                ),
                opt_pattern_ok(opt_view(name)),
                opt_pattern_ok(opt_view(path)),
                r@.map_values(|x: File| x@) == c@.files.subrange(0, i as int).filter(pred),
            decreases c.files.len() - i,
        {
            proof {
                crate::strutil::lemma_filter_step(c@.files, pred, i as int);
            }
            let row = &c.files[i];
            let mut m = row.collection_id.value == collection_id.value;
            if m {
                let depth = crate::fs_utils::relative_depth(prefix, row.path.as_str());
                let depth_ok: bool = match (min_depth, max_depth) {
                    (Some(mn), Some(mx)) => match depth {
                        Some(d) => mn as usize <= d && d <= mx as usize,
                        None => false,
                    },
                    (Some(mn), None) => match depth {
                        Some(d) => mn as usize <= d,
                        None => false,
                    },
                    (None, Some(mx)) => match depth {
                        Some(d) => d <= mx as usize,
                        None => false,
                    },
                    (None, None) => true,
                };
                assert(depth_ok == depth_in_range(
                    prefix@,
                    c@.files[i as int].path,
                    min_depth,
                    max_depth,
                ));
                m = depth_ok;
            }
            if m {
                match name {
                    Some(np) => {
                        let nm: bool = match crate::fs_utils::basename(row.path.as_str()) {
                            Some(b) => {
                                match crate::regex_utils::regex_is_match(np, b.as_str()) {
                                    Some(x) => x,
                                    None => {
                                        proof {
                                            assert(false);
                                        }
                                        unreached()
                                    },
                                }
                            },
                            None => false,
                        };
                        assert(nm == name_matches(opt_view(name), c@.files[i as int].path));
                        m = nm;
                    },
                    None => {},
                }
            }
            if m {
                match path {
                    Some(pp) => {
                        let pm: bool = match crate::regex_utils::regex_is_match(
                            pp,
                            row.path.as_str(),
                        ) {
                            Some(x) => x,
                            None => {
                                proof {
                                    assert(false);
                                }
                                unreached()
                            },
                        };
                        assert(pm == path_matches(opt_view(path), c@.files[i as int].path));
                        m = pm;
                    },
                    None => {},
                }
            }
            assert(m == pred(c@.files[i as int]));
            if m {
                r.push(copy_file(&c.files[i]));
                assert(r@.map_values(|x: File| x@) =~= c@.files.subrange(0, i as int).filter(
                    pred,
                ).push(c@.files[i as int]));
            }
            i = i + 1;
        }
        assert(c@.files.subrange(0, c@.files.len() as int) =~= c@.files);
        Ok(r)
    }
}

/// Insertion of a file row, all-or-nothing. The path must already be in
/// canonical form and must not denote the root directory.
pub struct NewFile {
    pub collection_id: Uid,
    pub path: String,
    pub size: u64,
}

impl NewFile {
    /// The deterministic core of insertion: for the given identifier the
    /// outcome is fixed, and the row is added exactly when every check
    /// passes and the identifier is not already in use.
    pub fn insert_with_id(&self, c: &mut Catalog, id: Uid) -> (r: Result<(), Error>)
        requires
            old(c)@.wf(),
        ensures
            final(c)@.wf(),
            match r {
                Ok(_) => {
                    &&& is_canonical_path(self.path@)
                    &&& self.path@.len() > 1
                    &&& old(c)@.has_collection(self.collection_id)
                    &&& !old(c)@.has_file_at(self.collection_id, self.path@)
                    &&& !old(c)@.has_file(id)
                    &&& final(c)@.files.len() == old(c)@.files.len() + 1
                    &&& final(c)@.files == old(c)@.files.push(final(c)@.files.last())
                    &&& final(c)@.files.last().id == id
                    &&& final(c)@.files.last().collection_id == self.collection_id
                    &&& final(c)@.files.last().path == self.path@
                    &&& final(c)@.files.last().size == self.size
                    &&& final(c)@.same_except_files(old(c)@)
                },
                Err(e) => {
                    &&& final(c)@ == old(c)@
                    &&& (e == Error::PathNotAbsolute <==> !crate::fs_utils::is_absolute(
                        self.path@,
                    ))
                    &&& (e == Error::PathCurDirSegment <==> crate::fs_utils::is_absolute(
                        self.path@,
                    ) && crate::fs_utils::cur_seg_first(crate::fs_utils::path_parts(self.path@)))
                    &&& (e == Error::PathParentDirSegment <==> crate::fs_utils::is_absolute(
                        self.path@,
                    ) && crate::fs_utils::par_seg_first(crate::fs_utils::path_parts(self.path@)))
                    &&& (e == Error::PathNotCanonical <==> canon_ok(self.path@) && canon_of(
                        self.path@,
                    ) != self.path@)
                    &&& (e == Error::DestIsDirectory <==> is_canonical_path(self.path@)
                        && self.path@.len() <= 1)
                    &&& (e == Error::CollectionNotFound <==> is_canonical_path(self.path@)
                        && self.path@.len() > 1 && !old(c)@.has_collection(self.collection_id))
                    &&& (e == Error::FilePathTaken <==> is_canonical_path(self.path@)
                        && self.path@.len() > 1 && old(c)@.has_collection(self.collection_id)
                        && old(c)@.has_file_at(self.collection_id, self.path@))
                    &&& (e == Error::IdCollision <==> is_canonical_path(self.path@)
                        && self.path@.len() > 1 && old(c)@.has_collection(self.collection_id)
                        && !old(c)@.has_file_at(self.collection_id, self.path@) && old(
                        c,
                    )@.has_file(id))
                    &&& (e == Error::PathNotAbsolute || e == Error::PathCurDirSegment || e
                        == Error::PathParentDirSegment || e == Error::PathNotCanonical || e
                        == Error::DestIsDirectory || e == Error::CollectionNotFound || e
                        == Error::FilePathTaken || e == Error::IdCollision)
                },
            },
    {
        let canon = match canonical_path(self.path.as_str()) {
            Ok(x) => x,
            Err(e) => {
                return Err(e);
            },
        };
        if !(canon == self.path) {
            return Err(Error::PathNotCanonical);
        }
        assert(is_canonical_path(self.path@));
        if canon.unicode_len() <= 1 {
            return Err(Error::DestIsDirectory);
        }
        assert(self.path@.len() > 1);
        if Collection::for_id(c, &self.collection_id).is_none() {
            return Err(Error::CollectionNotFound);
        }
        assert(c@.has_collection(self.collection_id));
        let gpath = &self.path;
        let mut i: usize = 0;
        while i < c.files.len()
            invariant
                0 <= i <= c.files.len(),
                c@ == old(c)@,
                old(c)@.wf(),
                is_canonical_path(self.path@),
                self.path@.len() > 1,
                old(c)@.has_collection(self.collection_id),
                forall|j: int|
                    0 <= j < i ==> !((#[trigger] c@.files[j]).collection_id == self.collection_id
                        && c@.files[j].path == self.path@),
            decreases c.files.len() - i,
        {
            if c.files[i].collection_id.value == self.collection_id.value && c.files[i].path
                == self.path {
                assert((c@.files[i as int]).collection_id == self.collection_id);
                assert((c@.files[i as int]).path == self.path@);
                return Err(Error::FilePathTaken);
            }
            i = i + 1;
        }
        assert(!c@.has_file_at(self.collection_id, self.path@));
        let mut k: usize = 0;
        while k < c.files.len()
            invariant
                0 <= k <= c.files.len(),
                c@ == old(c)@,
                old(c)@.wf(),
                is_canonical_path(self.path@),
                self.path@.len() > 1,
                old(c)@.has_collection(self.collection_id),
                !old(c)@.has_file_at(self.collection_id, self.path@),
                forall|j: int| 0 <= j < k ==> (#[trigger] c@.files[j]).id != id,
            decreases c.files.len() - k,
        {
            if c.files[k].id.value == id.value {
                assert((c@.files[k as int]).id == id);
                return Err(Error::IdCollision);
            }
            k = k + 1;
        }
        assert(!c@.has_file(id));
        let row = File {
            id,
            collection_id: self.collection_id,
            path: self.path.clone(),
            created_date: Timestamp::now(),
            size: self.size,
        };
        let ghost pre = c@;
        let ghost rowv = row@;
        c.files.push(row);
        proof {
            assert(c@.files =~= pre.files.push(rowv));
            assert(c@.same_except_files(pre));
            assert(c@.wf()) by {
                assert forall|x: int, y: int|
                    #![trigger c@.files[x], c@.files[y]]
                    0 <= x < y < c@.files.len() implies c@.files[x].id != c@.files[y].id && !(
                c@.files[x].collection_id == c@.files[y].collection_id && c@.files[x].path
                    == c@.files[y].path) by {
                    if y < pre.files.len() {
                        assert(pre.files[x].id != pre.files[y].id);
                    } else {
                        assert(c@.files[y] == rowv);
                        assert(c@.files[x] == pre.files[x]);
                    }
                }
                assert forall|k2: int| 0 <= k2 < c@.files.len() implies c@.has_collection(
                    (#[trigger] c@.files[k2]).collection_id,
                ) && is_canonical_path(c@.files[k2].path) && c@.files[k2].path.len() > 1 by {
                    if k2 < pre.files.len() {
                        assert(pre.has_collection(pre.files[k2].collection_id));
                        let w = choose|w: int|
                            0 <= w < pre.collections.len() && (#[trigger] pre.collections[w]).id
                                == pre.files[k2].collection_id;
                        assert(c@.collections[w].id == c@.files[k2].collection_id);
                    } else {
                        assert(c@.files[k2] == rowv);
                        let w = choose|w: int|
                            0 <= w < pre.collections.len() && (#[trigger] pre.collections[w]).id
                                == self.collection_id;
                        assert(c@.collections[w].id == self.collection_id);
                    }
                }
                assert forall|k2: int| 0 <= k2 < c@.placements.len() implies c@.has_file(
                    (#[trigger] c@.placements[k2]).file_id,
                ) && c@.has_partition(c@.placements[k2].partition_id) by {
                    assert(pre.has_file(pre.placements[k2].file_id));
                    assert(pre.has_partition(pre.placements[k2].partition_id));
                    let w = choose|w: int|
                        0 <= w < pre.files.len() && (#[trigger] pre.files[w]).id
                            == pre.placements[k2].file_id;
                    assert(c@.files[w].id == c@.placements[k2].file_id);
                }
                assert forall|k2: int| 0 <= k2 < c@.hashes.len() implies c@.has_file(
                    (#[trigger] c@.hashes[k2]).file_id,
                ) by {
                    assert(pre.has_file(pre.hashes[k2].file_id));
                    let w = choose|w: int|
                        0 <= w < pre.files.len() && (#[trigger] pre.files[w]).id
                            == pre.hashes[k2].file_id;
                    assert(c@.files[w].id == c@.hashes[k2].file_id);
                }
                assert forall|k2: int| 0 <= k2 < c@.archives.len() implies c@.has_file(
                    (#[trigger] c@.archives[k2]).file_id,
                ) by {
                    assert(pre.has_file(pre.archives[k2].file_id));
                    let w = choose|w: int|
                        0 <= w < pre.files.len() && (#[trigger] pre.files[w]).id
                            == pre.archives[k2].file_id;
                    assert(c@.files[w].id == c@.archives[k2].file_id);
                }
            }
        }
        Ok(())
    }

    /// Insertion with a freshly drawn random identifier, all-or-nothing.
    pub fn insert(&self, c: &mut Catalog) -> (r: Result<Uid, Error>)
        requires
            old(c)@.wf(),
        ensures
            final(c)@.wf(),
            match r {
                Ok(id) => {
                    &&& is_canonical_path(self.path@)
                    &&& self.path@.len() > 1
                    &&& old(c)@.has_collection(self.collection_id)
                    &&& !old(c)@.has_file_at(self.collection_id, self.path@)
                    &&& !old(c)@.has_file(id)
                    &&& final(c)@.files.len() == old(c)@.files.len() + 1
                    &&& final(c)@.files == old(c)@.files.push(final(c)@.files.last())
                    &&& final(c)@.files.last().id == id
                    &&& final(c)@.files.last().collection_id == self.collection_id
                    &&& final(c)@.files.last().path == self.path@
                    &&& final(c)@.files.last().size == self.size
                    &&& final(c)@.same_except_files(old(c)@)
                },
                Err(e) => {
                    &&& final(c)@ == old(c)@
                    &&& (e == Error::PathNotAbsolute <==> !crate::fs_utils::is_absolute(
                        self.path@,
                    ))
                    &&& (e == Error::PathCurDirSegment <==> crate::fs_utils::is_absolute(
                        self.path@,
                    ) && crate::fs_utils::cur_seg_first(crate::fs_utils::path_parts(self.path@)))
                    &&& (e == Error::PathParentDirSegment <==> crate::fs_utils::is_absolute(
                        self.path@,
                    ) && crate::fs_utils::par_seg_first(crate::fs_utils::path_parts(self.path@)))
                    &&& (e == Error::PathNotCanonical <==> canon_ok(self.path@) && canon_of(
                        self.path@,
                    ) != self.path@)
                    &&& (e == Error::DestIsDirectory <==> is_canonical_path(self.path@)
                        && self.path@.len() <= 1)
                    &&& (e == Error::CollectionNotFound <==> is_canonical_path(self.path@)
                        && self.path@.len() > 1 && !old(c)@.has_collection(self.collection_id))
                    &&& (e == Error::FilePathTaken <==> is_canonical_path(self.path@)
                        && self.path@.len() > 1 && old(c)@.has_collection(self.collection_id)
                        && old(c)@.has_file_at(self.collection_id, self.path@))
                    &&& (e == Error::PathNotAbsolute || e == Error::PathCurDirSegment || e
                        == Error::PathParentDirSegment || e == Error::PathNotCanonical || e
                        == Error::DestIsDirectory || e == Error::CollectionNotFound || e
                        == Error::FilePathTaken || e == Error::IdCollision)
                },
            },
    {
        let id = uid_new();
        match self.insert_with_id(c, id) {
            Ok(_) => Ok(id),
            Err(e) => Err(e),
        }
    }
}

// ---------------------------------------------------------------------------
// Placements, hashes, archive members
// ---------------------------------------------------------------------------

pub open spec fn placement_of_file(file_id: Uid) -> spec_fn(FilePlacement) -> bool {
    |p: FilePlacement| p.file_id == file_id
}

pub open spec fn hash_of_file(file_id: Uid) -> spec_fn(FileHashV) -> bool {
    |h: FileHashV| h.file_id == file_id
}

impl FilePlacement {
    pub fn get_by_file_id(c: &Catalog, file_id: &Uid) -> (r: Vec<FilePlacement>)
        ensures
            r@ == c@.placements.filter(placement_of_file(*file_id)),
    {
        let ghost pred = placement_of_file(*file_id);
        let mut r: Vec<FilePlacement> = Vec::new();
        proof {
            crate::strutil::lemma_filter_empty(c@.placements.subrange(0, 0), pred);
        }
        assert(r@ =~= c@.placements.subrange(0, 0).filter(pred));
        let mut i: usize = 0;
        while i < c.placements.len()
            invariant
                0 <= i <= c.placements.len(),
                pred == placement_of_file(*file_id),
                r@ == c@.placements.subrange(0, i as int).filter(pred),
            decreases c.placements.len() - i,
        {
            proof {
                crate::strutil::lemma_filter_step(c@.placements, pred, i as int);
            }
            if c.placements[i].file_id.value == file_id.value {
                r.push(c.placements[i]);
            }
            i = i + 1;
        }
        assert(c@.placements.subrange(0, c@.placements.len() as int) =~= c@.placements);
        r
    }
}

/// Insertion of a placement row, all-or-nothing.
pub struct NewFilePlacement {
    pub file_id: Uid,
    pub partition_id: Uid,
}

impl NewFilePlacement {
    pub fn insert(&self, c: &mut Catalog) -> (r: Result<(), Error>)
        requires
            old(c)@.wf(),
        ensures
            final(c)@.wf(),
            match r {
                Ok(_) => {
                    &&& !old(c)@.has_placement(self.file_id, self.partition_id)
                    &&& old(c)@.has_file(self.file_id)
                    &&& old(c)@.has_partition(self.partition_id)
                    &&& final(c)@.placements == old(c)@.placements.push(
                        FilePlacement { file_id: self.file_id, partition_id: self.partition_id },
                    )
                    &&& final(c)@.same_except_placements(old(c)@)
                },
                Err(e) => {
                    &&& final(c)@ == old(c)@
                    &&& (e == Error::PlacementExists <==> old(c)@.has_placement(
                        self.file_id,
                        self.partition_id,
                    ))
                    &&& (e == Error::FileNotFound <==> !old(c)@.has_placement(
                        self.file_id,
                        self.partition_id,
                    ) && !old(c)@.has_file(self.file_id))
                    &&& (e == Error::PartitionNotFound <==> !old(c)@.has_placement(
                        self.file_id,
                        self.partition_id,
                    ) && old(c)@.has_file(self.file_id) && !old(c)@.has_partition(
                        self.partition_id,
                    ))
                    &&& (e == Error::PlacementExists || e == Error::FileNotFound || e
                        == Error::PartitionNotFound)
                },
            },
    {
        let mut i: usize = 0;
        while i < c.placements.len()
            invariant
                0 <= i <= c.placements.len(),
                c@ == old(c)@,
                old(c)@.wf(),
                forall|j: int|
                    0 <= j < i ==> !((#[trigger] c@.placements[j]).file_id == self.file_id
                        && c@.placements[j].partition_id == self.partition_id),
            decreases c.placements.len() - i,
        {
            if c.placements[i].file_id.value == self.file_id.value
                && c.placements[i].partition_id.value == self.partition_id.value {
                assert((c@.placements[i as int]).file_id == self.file_id);
                assert((c@.placements[i as int]).partition_id == self.partition_id);
                return Err(Error::PlacementExists);
            }
            i = i + 1;
        }
        assert(!c@.has_placement(self.file_id, self.partition_id));
        if File::for_id(c, &self.file_id).is_none() {
            return Err(Error::FileNotFound);
        }
        if Partition::for_id(c, &self.partition_id).is_none() {
            return Err(Error::PartitionNotFound);
        }
        let row = FilePlacement { file_id: self.file_id, partition_id: self.partition_id };
        let ghost pre = c@;
        c.placements.push(row);
        proof {
            assert(c@.placements =~= pre.placements.push(row));
            assert(c@.same_except_placements(pre));
            assert(c@.wf()) by {
                assert forall|x: int, y: int|
                    #![trigger c@.placements[x], c@.placements[y]]
                    0 <= x < y < c@.placements.len() implies !(c@.placements[x].file_id
                    == c@.placements[y].file_id && c@.placements[x].partition_id
                    == c@.placements[y].partition_id) by {
                    if y < pre.placements.len() {
                        assert(!(pre.placements[x].file_id == pre.placements[y].file_id
                            && pre.placements[x].partition_id == pre.placements[y].partition_id));
                    } else {
                        assert(c@.placements[y] == row);
                        assert(c@.placements[x] == pre.placements[x]);
                    }
                }
                assert forall|k2: int| 0 <= k2 < c@.placements.len() implies c@.has_file(
                    (#[trigger] c@.placements[k2]).file_id,
                ) && c@.has_partition(c@.placements[k2].partition_id) by {
                    if k2 < pre.placements.len() {
                        assert(pre.has_file(pre.placements[k2].file_id));
                        assert(pre.has_partition(pre.placements[k2].partition_id));
                    } else {
                        assert(c@.placements[k2] == row);
                    }
                }
            }
        }
        Ok(())
    }
}

pub(crate) fn copy_file_hash(x: &FileHash) -> (r: FileHash)
    ensures
        r@ == x@,
{
    FileHash {
        id: x.id,
        file_id: x.file_id,
        hash_algorithm: x.hash_algorithm,
        hash_value: copy_bytes(&x.hash_value),
    }
}

impl FileHash {
    pub fn get_by_file_id(c: &Catalog, file_id: &Uid) -> (r: Vec<FileHash>)
        ensures
            r@.map_values(|x: FileHash| x@) == c@.hashes.filter(hash_of_file(*file_id)),
    {
        let ghost pred = hash_of_file(*file_id);
        let mut r: Vec<FileHash> = Vec::new();
        proof {
            crate::strutil::lemma_filter_empty(c@.hashes.subrange(0, 0), pred);
        }
        assert(r@.map_values(|x: FileHash| x@) =~= c@.hashes.subrange(0, 0).filter(pred));
        let mut i: usize = 0;
        while i < c.hashes.len()
            invariant
                0 <= i <= c.hashes.len(),
                pred == hash_of_file(*file_id),
                r@.map_values(|x: FileHash| x@) == c@.hashes.subrange(0, i as int).filter(pred),
            decreases c.hashes.len() - i,
        {
            proof {
                crate::strutil::lemma_filter_step(c@.hashes, pred, i as int);
            }
            if c.hashes[i].file_id.value == file_id.value {
                r.push(copy_file_hash(&c.hashes[i]));
                assert(r@.map_values(|x: FileHash| x@) =~= c@.hashes.subrange(0, i as int).filter(
                    pred,
                ).push(c@.hashes[i as int]));
            }
            i = i + 1;
        }
        assert(c@.hashes.subrange(0, c@.hashes.len() as int) =~= c@.hashes);
        r
    }
}

/// Insertion of one digest row, all-or-nothing: at most one digest per file
/// and algorithm is ever recorded.
pub struct NewFileHash {
    pub file_id: Uid,
    pub hash_algorithm: HashAlgorithm,
    pub hash_value: Vec<u8>,
}

impl NewFileHash {
    /// The deterministic core of insertion: for the given identifier the
    /// outcome is fixed, and the row is added exactly when every check
    /// passes and the identifier is not already in use.
    pub fn insert_with_id(&self, c: &mut Catalog, id: Uid) -> (r: Result<(), Error>)
        requires
            old(c)@.wf(),
        ensures
            final(c)@.wf(),
            match r {
                Ok(_) => {
                    &&& !old(c)@.has_hash(self.file_id, self.hash_algorithm)
                    &&& old(c)@.has_file(self.file_id)
                    &&& final(c)@.hashes.len() == old(c)@.hashes.len() + 1
                    &&& final(c)@.hashes == old(c)@.hashes.push(final(c)@.hashes.last())
                    &&& final(c)@.hashes.last().id == id
                    &&& final(c)@.hashes.last().file_id == self.file_id
                    &&& final(c)@.hashes.last().hash_algorithm == self.hash_algorithm
                    &&& final(c)@.hashes.last().hash_value == self.hash_value@
                    &&& final(c)@.same_except_hashes(old(c)@)
                },
                Err(e) => {
                    &&& final(c)@ == old(c)@
                    &&& (e == Error::HashExists <==> old(c)@.has_hash(
                        self.file_id,
                        self.hash_algorithm,
                    ))
                    &&& (e == Error::FileNotFound <==> !old(c)@.has_hash(
                        self.file_id,
                        self.hash_algorithm,
                    ) && !old(c)@.has_file(self.file_id))
                    &&& (e == Error::IdCollision <==> !old(c)@.has_hash(
                        self.file_id,
                        self.hash_algorithm,
                    ) && old(c)@.has_file(self.file_id) && old(c)@.has_hash_id(id))
                    &&& (e == Error::HashExists || e == Error::FileNotFound || e
                        == Error::IdCollision)
                },
            },
    {
        let mut i: usize = 0;
        while i < c.hashes.len()
            invariant
                0 <= i <= c.hashes.len(),
                c@ == old(c)@,
                old(c)@.wf(),
                forall|j: int|
                    0 <= j < i ==> !((#[trigger] c@.hashes[j]).file_id == self.file_id
                        && c@.hashes[j].hash_algorithm == self.hash_algorithm),
            decreases c.hashes.len() - i,
        {
            if c.hashes[i].file_id.value == self.file_id.value && c.hashes[i].hash_algorithm
                == self.hash_algorithm {
                assert((c@.hashes[i as int]).file_id == self.file_id);
                assert((c@.hashes[i as int]).hash_algorithm == self.hash_algorithm);
                return Err(Error::HashExists);
            }
            i = i + 1;
        }
        assert(!c@.has_hash(self.file_id, self.hash_algorithm));
        if File::for_id(c, &self.file_id).is_none() {
            return Err(Error::FileNotFound);
        }
        let mut k: usize = 0;
        while k < c.hashes.len()
            invariant
                0 <= k <= c.hashes.len(),
                c@ == old(c)@,
                old(c)@.wf(),
                !old(c)@.has_hash(self.file_id, self.hash_algorithm),
                old(c)@.has_file(self.file_id),
                forall|j: int| 0 <= j < k ==> (#[trigger] c@.hashes[j]).id != id,
            decreases c.hashes.len() - k,
        {
            if c.hashes[k].id.value == id.value {
                assert((c@.hashes[k as int]).id == id);
                return Err(Error::IdCollision);
            }
            k = k + 1;
        }
        let row = FileHash {
            id,
            file_id: self.file_id,
            hash_algorithm: self.hash_algorithm,
            hash_value: copy_bytes(&self.hash_value),
        };
        let ghost pre = c@;
        let ghost rowv = row@;
        c.hashes.push(row);
        proof {
            assert(c@.hashes =~= pre.hashes.push(rowv));
            assert(c@.same_except_hashes(pre));
            assert(c@.wf()) by {
                assert forall|x: int, y: int|
                    #![trigger c@.hashes[x], c@.hashes[y]]
                    0 <= x < y < c@.hashes.len() implies c@.hashes[x].id != c@.hashes[y].id && !(
                c@.hashes[x].file_id == c@.hashes[y].file_id && c@.hashes[x].hash_algorithm
                    == c@.hashes[y].hash_algorithm) by {
                    if y < pre.hashes.len() {
                        assert(pre.hashes[x].id != pre.hashes[y].id);
                        assert(!(pre.hashes[x].file_id == pre.hashes[y].file_id
                            && pre.hashes[x].hash_algorithm == pre.hashes[y].hash_algorithm));
                    } else {
                        assert(c@.hashes[y] == rowv);
                        assert(c@.hashes[x] == pre.hashes[x]);
                    }
                }
                assert forall|k2: int| 0 <= k2 < c@.hashes.len() implies c@.has_file(
                    (#[trigger] c@.hashes[k2]).file_id,
                ) by {
                    if k2 < pre.hashes.len() {
                        assert(pre.has_file(pre.hashes[k2].file_id));
                    } else {
                        assert(c@.hashes[k2] == rowv);
                    }
                }
            }
        }
        Ok(())
    }

    /// Insertion with a freshly drawn random identifier, all-or-nothing.
    pub fn insert(&self, c: &mut Catalog) -> (r: Result<Uid, Error>)
        requires
            old(c)@.wf(),
        ensures
            final(c)@.wf(),
            match r {
                Ok(id) => {
                    &&& !old(c)@.has_hash(self.file_id, self.hash_algorithm)
                    &&& old(c)@.has_file(self.file_id)
                    &&& final(c)@.hashes.len() == old(c)@.hashes.len() + 1
                    &&& final(c)@.hashes == old(c)@.hashes.push(final(c)@.hashes.last())
                    &&& final(c)@.hashes.last().id == id
                    &&& final(c)@.hashes.last().file_id == self.file_id
                    &&& final(c)@.hashes.last().hash_algorithm == self.hash_algorithm
                    &&& final(c)@.hashes.last().hash_value == self.hash_value@
                    &&& final(c)@.same_except_hashes(old(c)@)
                },
                Err(e) => {
                    &&& final(c)@ == old(c)@
                    &&& (e == Error::HashExists <==> old(c)@.has_hash(
                        self.file_id,
                        self.hash_algorithm,
                    ))
                    &&& (e == Error::FileNotFound <==> !old(c)@.has_hash(
                        self.file_id,
                        self.hash_algorithm,
                    ) && !old(c)@.has_file(self.file_id))
                    &&& (e == Error::HashExists || e == Error::FileNotFound || e
                        == Error::IdCollision)
                },
            },
    {
        let id = uid_new();
        match self.insert_with_id(c, id) {
            Ok(_) => Ok(id),
            Err(e) => Err(e),
        }
    }
}

/// Insertion of one archive-member row, all-or-nothing.
pub struct NewFileArchive {
    pub file_id: Uid,
    pub path: String,
    pub size: u64,
}

impl NewFileArchive {
    /// The deterministic core of insertion: for the given identifier the
    /// outcome is fixed, and the row is added exactly when every check
    /// passes and the identifier is not already in use.
    pub fn insert_with_id(&self, c: &mut Catalog, id: Uid) -> (r: Result<(), Error>)
        requires
            old(c)@.wf(),
        ensures
            final(c)@.wf(),
            match r {
                Ok(_) => {
                    &&& !old(c)@.has_archive_member(self.file_id, self.path@)
                    &&& old(c)@.has_file(self.file_id)
                    &&& final(c)@.archives.len() == old(c)@.archives.len() + 1
                    &&& final(c)@.archives == old(c)@.archives.push(final(c)@.archives.last())
                    &&& final(c)@.archives.last().id == id
                    &&& final(c)@.archives.last().file_id == self.file_id
                    &&& final(c)@.archives.last().path == self.path@
                    &&& final(c)@.archives.last().size == self.size
                    &&& final(c)@.same_except_archives(old(c)@)
                },
                Err(e) => {
                    &&& final(c)@ == old(c)@
                    &&& (e == Error::ArchiveMemberExists <==> old(c)@.has_archive_member(
                        self.file_id,
                        self.path@,
                    ))
                    &&& (e == Error::FileNotFound <==> !old(c)@.has_archive_member(
                        self.file_id,
                        self.path@,
                    ) && !old(c)@.has_file(self.file_id))
                    &&& (e == Error::IdCollision <==> !old(c)@.has_archive_member(
                        self.file_id,
                        self.path@,
                    ) && old(c)@.has_file(self.file_id) && old(c)@.has_archive_id(id))
                    &&& (e == Error::ArchiveMemberExists || e == Error::FileNotFound || e
                        == Error::IdCollision)
                },
            },
    {
        let mut i: usize = 0;
        while i < c.archives.len()
            invariant
                0 <= i <= c.archives.len(),
                c@ == old(c)@,
                old(c)@.wf(),
                forall|j: int|
                    0 <= j < i ==> !((#[trigger] c@.archives[j]).file_id == self.file_id
                        && c@.archives[j].path == self.path@),
            decreases c.archives.len() - i,
        {
            if c.archives[i].file_id.value == self.file_id.value && c.archives[i].path
                == self.path {
                assert((c@.archives[i as int]).file_id == self.file_id);
                assert((c@.archives[i as int]).path == self.path@);
                return Err(Error::ArchiveMemberExists);
            }
            i = i + 1;
        }
        assert(!c@.has_archive_member(self.file_id, self.path@));
        if File::for_id(c, &self.file_id).is_none() {
            return Err(Error::FileNotFound);
        }
        let mut k: usize = 0;
        while k < c.archives.len()
            invariant
                0 <= k <= c.archives.len(),
                c@ == old(c)@,
                old(c)@.wf(),
                !old(c)@.has_archive_member(self.file_id, self.path@),
                old(c)@.has_file(self.file_id),
                forall|j: int| 0 <= j < k ==> (#[trigger] c@.archives[j]).id != id,
            decreases c.archives.len() - k,
        {
            if c.archives[k].id.value == id.value {
                assert((c@.archives[k as int]).id == id);
                return Err(Error::IdCollision);
            }
            k = k + 1;
        }
        let row = FileArchive {
            id,
            file_id: self.file_id,
            path: self.path.clone(),
            size: self.size,
        };
        let ghost pre = c@;
        let ghost rowv = row@;
        c.archives.push(row);
        proof {
            assert(c@.archives =~= pre.archives.push(rowv));
            assert(c@.same_except_archives(pre));
            assert(c@.wf()) by {
                assert forall|x: int, y: int|
                    #![trigger c@.archives[x], c@.archives[y]]
                    0 <= x < y < c@.archives.len() implies c@.archives[x].id != c@.archives[y].id
                    && !(c@.archives[x].file_id == c@.archives[y].file_id && c@.archives[x].path
                    == c@.archives[y].path) by {
                    if y < pre.archives.len() {
                        assert(pre.archives[x].id != pre.archives[y].id);
                        assert(!(pre.archives[x].file_id == pre.archives[y].file_id
                            && pre.archives[x].path == pre.archives[y].path));
                    } else {
                        assert(c@.archives[y] == rowv);
                        assert(c@.archives[x] == pre.archives[x]);
                    }
                }
                assert forall|k2: int| 0 <= k2 < c@.archives.len() implies c@.has_file(
                    (#[trigger] c@.archives[k2]).file_id,
                ) by {
                    if k2 < pre.archives.len() {
                        assert(pre.has_file(pre.archives[k2].file_id));
                    } else {
                        assert(c@.archives[k2] == rowv);
                    }
                }
            }
        }
        Ok(())
    }

    /// Insertion with a freshly drawn random identifier, all-or-nothing.
    pub fn insert(&self, c: &mut Catalog) -> (r: Result<Uid, Error>)
        requires
            old(c)@.wf(),
        ensures
            final(c)@.wf(),
            match r {
                Ok(id) => {
                    &&& !old(c)@.has_archive_member(self.file_id, self.path@)
                    &&& old(c)@.has_file(self.file_id)
                    &&& final(c)@.archives.len() == old(c)@.archives.len() + 1
                    &&& final(c)@.archives == old(c)@.archives.push(final(c)@.archives.last())
                    &&& final(c)@.archives.last().id == id
                    &&& final(c)@.archives.last().file_id == self.file_id
                    &&& final(c)@.archives.last().path == self.path@
                    &&& final(c)@.archives.last().size == self.size
                    &&& final(c)@.same_except_archives(old(c)@)
                },
                Err(e) => {
                    &&& final(c)@ == old(c)@
                    &&& (e == Error::ArchiveMemberExists <==> old(c)@.has_archive_member(
                        self.file_id,
                        self.path@,
                    ))
                    &&& (e == Error::FileNotFound <==> !old(c)@.has_archive_member(
                        self.file_id,
                        self.path@,
                    ) && !old(c)@.has_file(self.file_id))
                    &&& (e == Error::ArchiveMemberExists || e == Error::FileNotFound || e
                        == Error::IdCollision)
                },
            },
    {
        let id = uid_new();
        match self.insert_with_id(c, id) {
            Ok(_) => Ok(id),
            Err(e) => Err(e),
        }
    }
}

} // verus!
