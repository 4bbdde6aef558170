use hoard::catalog::Catalog;
use hoard::catalog::Collection;
use hoard::catalog::Disk;
use hoard::catalog::File;
use hoard::catalog::Location;
use hoard::catalog::NewCollection;
use hoard::catalog::NewDisk;
use hoard::catalog::NewFile;
use hoard::catalog::NewFileArchive;
use hoard::catalog::NewFileHash;
use hoard::catalog::NewFilePlacement;
use hoard::catalog::NewLocation;
use hoard::catalog::NewPartition;
use hoard::catalog::Partition;
use hoard::error::Error;
use hoard::hash_utils::HashAlgorithm;
use hoard::ids::Uid;

fn fixture_location(c: &mut Catalog) -> Location {
    let id = NewLocation { name: "test-location".to_string() }.insert(c).unwrap();
    let loc = Location::for_id(c, &id).unwrap();
    Location { id: loc.id, name: loc.name.clone() }
}

fn fixture_disk(c: &mut Catalog, location: &Location) -> Uid {
    NewDisk {
        location_id: Some(location.id),
        serial_number: "some-serial-123".to_string(),
        label: "test-disk".to_string(),
    }
    .insert(c)
    .unwrap()
}

fn fixture_partition(c: &mut Catalog, disk_id: Uid) -> Partition {
    let id = NewPartition {
        disk_id,
        uuid: "AFA-161-420-69".to_string(),
        capacity: 420,
    }
    .insert(c)
    .unwrap();
    Partition::for_id(c, &id).unwrap()
}

fn fixture_collection(c: &mut Catalog) -> Uid {
    NewCollection { name: "some-collection".to_string() }.insert(c).unwrap()
}

fn fixture_file(c: &mut Catalog, collection_id: Uid) -> File {
    let id = NewFile {
        collection_id,
        path: "/foo.txt".to_string(),
        size: 6969,
    }
    .insert(c)
    .unwrap();
    File::for_id(c, &id).unwrap()
}

#[test]
fn collection_insert_and_fetch() {
    let mut c = Catalog::new();
    let id = NewCollection { name: "hella leaks".to_string() }.insert(&mut c).unwrap();
    let ids: Vec<Uid> = Collection::all(&c).iter().map(|x| x.id).collect();
    assert_eq!(ids, vec![id]);
}

#[test]
fn location_insert_and_fetch() {
    let mut c = Catalog::new();
    let id = NewLocation { name: "somewhere".to_string() }.insert(&mut c).unwrap();
    let ids: Vec<Uid> = Location::all(&c).iter().map(|x| x.id).collect();
    assert_eq!(ids, vec![id]);
}

#[test]
fn disk_insert_and_fetch() {
    let mut c = Catalog::new();
    let loc = fixture_location(&mut c);
    let id = NewDisk {
        location_id: Some(loc.id),
        serial_number: "acab-1312".to_string(),
        label: "s3cr3t d4t4".to_string(),
    }
    .insert(&mut c)
    .unwrap();
    let ids: Vec<Uid> = Disk::all(&c).iter().map(|x| x.id).collect();
    assert_eq!(ids, vec![id]);
}

#[test]
fn partition_insert_and_fetch() {
    let mut c = Catalog::new();
    let loc = fixture_location(&mut c);
    let disk_id = fixture_disk(&mut c, &loc);
    let part_id = NewPartition {
        disk_id,
        uuid: "abc-123".to_string(),
        capacity: 161,
    }
    .insert(&mut c)
    .unwrap();
    let ids: Vec<Uid> = Partition::all(&c).iter().map(|x| x.id).collect();
    assert_eq!(ids, vec![part_id]);
}

#[test]
fn current_partitions_none() {
    let c = Catalog::new();
    let current = Partition::current(&c, &vec!["abc".to_string()]);
    assert_eq!(current, Vec::<Partition>::new());
}

#[test]
fn current_partitions_some() {
    let mut c = Catalog::new();
    let loc = fixture_location(&mut c);
    let disk_id = fixture_disk(&mut c, &loc);
    let partition = fixture_partition(&mut c, disk_id);
    let current = Partition::current(&c, &vec![partition.uuid().to_string()]);
    assert_eq!(&current, &[partition]);
}

#[test]
fn file_insert_and_fetch() {
    let mut c = Catalog::new();
    let coll = fixture_collection(&mut c);
    let file_id = NewFile {
        collection_id: coll,
        path: "/foo".to_string(),
        size: 123,
    }
    .insert(&mut c)
    .unwrap();
    assert_eq!(File::for_id(&c, &file_id).unwrap().id(), file_id);
}

#[test]
fn file_placement_insert() {
    let mut c = Catalog::new();
    let coll = fixture_collection(&mut c);
    let loc = fixture_location(&mut c);
    let disk_id = fixture_disk(&mut c, &loc);
    let partition = fixture_partition(&mut c, disk_id);
    let file = fixture_file(&mut c, coll);
    NewFilePlacement { file_id: file.id(), partition_id: partition.id() }
        .insert(&mut c)
        .unwrap();
}

#[test]
fn file_hash_insert() {
    let mut c = Catalog::new();
    let coll = fixture_collection(&mut c);
    let file = fixture_file(&mut c, coll);
    NewFileHash {
        file_id: file.id(),
        hash_algorithm: HashAlgorithm::Sha256,
        hash_value: b"1337".to_vec(),
    }
    .insert(&mut c)
    .unwrap();
}

#[test]
fn file_archive_insert() {
    let mut c = Catalog::new();
    let coll = fixture_collection(&mut c);
    let file = fixture_file(&mut c, coll);
    NewFileArchive {
        file_id: file.id(),
        path: "./wat.txt".to_string(),
        size: 6969,
    }
    .insert(&mut c)
    .unwrap();
}

fn insert_paths(c: &mut Catalog, coll: Uid, paths: &[&str]) {
    for path in paths {
        NewFile { collection_id: coll, path: path.to_string(), size: 123 }
            .insert(c)
            .unwrap();
    }
}

#[test]
fn file_ls_dir_simple() {
    let mut c = Catalog::new();
    let coll = fixture_collection(&mut c);
    let paths = ["/foo/bar", "/foo/.baz"];
    insert_paths(&mut c, coll, &paths);
    let files = File::get_by_collection_and_directory(&c, &coll, true, "/foo");
    let mut found: Vec<&str> = files.iter().map(|f| f.path()).collect();
    found.sort_unstable();
    assert_eq!(found, vec!["/foo/.baz", "/foo/bar"]);
}

#[test]
fn file_ls_dir_hidden() {
    let mut c = Catalog::new();
    let coll = fixture_collection(&mut c);
    insert_paths(&mut c, coll, &["/foo/bar", "/foo/.baz"]);
    let files = File::get_by_collection_and_directory(&c, &coll, false, "/foo");
    let found: Vec<&str> = files.iter().map(|f| f.path()).collect();
    assert_eq!(found, vec!["/foo/bar"]);
}

const FIND_IN_DIR_PATHS: &[&str] = &[
    "/foo.txt",
    "/foo/bar.txt",
    "/foo/bar/baz.txt",
    "/foo/bar/baz/quux.txt",
    "/foo/bar/baz/quux/lol.txt",
];

fn find_in_dir_test_cases() -> (Catalog, Uid) {
    let mut c = Catalog::new();
    let coll = fixture_collection(&mut c);
    insert_paths(&mut c, coll, FIND_IN_DIR_PATHS);
    (c, coll)
}

fn sorted_paths(files: &[File]) -> Vec<String> {
    let mut v: Vec<String> = files.iter().map(|f| f.path().to_string()).collect();
    v.sort_unstable();
    v
}

fn expected_paths(paths: &[&str]) -> Vec<String> {
    let mut v: Vec<String> = paths.iter().map(|p| p.to_string()).collect();
    v.sort_unstable();
    v
}

#[test]
fn find_in_dir_simple() {
    let (c, coll) = find_in_dir_test_cases();
    let res = File::find_in_dir(&c, &coll, "/", None, None, None, None).unwrap();
    assert_eq!(sorted_paths(&res), expected_paths(FIND_IN_DIR_PATHS));
}

#[test]
fn find_in_dir_max_depth() {
    let (c, coll) = find_in_dir_test_cases();
    let res = File::find_in_dir(&c, &coll, "/", None, Some(2), None, None).unwrap();
    assert_eq!(sorted_paths(&res), expected_paths(&FIND_IN_DIR_PATHS[0..2]));
}

#[test]
fn find_in_dir_min_depth() {
    let (c, coll) = find_in_dir_test_cases();
    let res = File::find_in_dir(&c, &coll, "/", Some(2), None, None, None).unwrap();
    assert_eq!(sorted_paths(&res), expected_paths(&FIND_IN_DIR_PATHS[1..]));
}

#[test]
fn find_in_dir_max_and_min_depth() {
    let (c, coll) = find_in_dir_test_cases();
    let res = File::find_in_dir(&c, &coll, "/", Some(2), Some(4), None, None).unwrap();
    assert_eq!(sorted_paths(&res), expected_paths(&FIND_IN_DIR_PATHS[1..4]));
}

#[test]
fn find_in_dir_non_root_max_and_min_depth() {
    let (c, coll) = find_in_dir_test_cases();
    let res = File::find_in_dir(&c, &coll, "/foo", Some(1), Some(3), None, None).unwrap();
    assert_eq!(sorted_paths(&res), expected_paths(&FIND_IN_DIR_PATHS[1..4]));
}

#[test]
fn find_in_dir_file_name_regex() {
    let (c, coll) = find_in_dir_test_cases();
    let res = File::find_in_dir(&c, &coll, "/", None, None, Some("^bar"), None).unwrap();
    assert_eq!(sorted_paths(&res), expected_paths(&FIND_IN_DIR_PATHS[1..2]));
}

#[test]
fn find_in_dir_file_path_regex() {
    let (c, coll) = find_in_dir_test_cases();
    let res = File::find_in_dir(&c, &coll, "/", None, None, None, Some("/bar/")).unwrap();
    assert_eq!(sorted_paths(&res), expected_paths(&FIND_IN_DIR_PATHS[2..]));
}

#[test]
fn find_in_dir_bad_pattern() {
    let (c, coll) = find_in_dir_test_cases();
    let res = File::find_in_dir(&c, &coll, "/", None, None, Some("["), None);
    assert_eq!(res.unwrap_err(), Error::BadPattern);
}

#[test]
fn uniqueness_conflicts_are_reported() {
    let mut c = Catalog::new();
    let coll = fixture_collection(&mut c);
    assert_eq!(
        NewCollection { name: "some-collection".to_string() }.insert(&mut c).unwrap_err(),
        Error::CollectionNameTaken,
    );
    let loc = fixture_location(&mut c);
    assert_eq!(
        NewLocation { name: "test-location".to_string() }.insert(&mut c).unwrap_err(),
        Error::LocationNameTaken,
    );
    let disk_id = fixture_disk(&mut c, &loc);
    assert_eq!(
        NewDisk {
            location_id: None,
            serial_number: "some-serial-123".to_string(),
            label: "another".to_string(),
        }
        .insert(&mut c)
        .unwrap_err(),
        Error::DiskSerialTaken,
    );
    assert_eq!(
        NewDisk {
            location_id: None,
            serial_number: "another-serial".to_string(),
            label: "test-disk".to_string(),
        }
        .insert(&mut c)
        .unwrap_err(),
        Error::DiskLabelTaken,
    );
    let partition = fixture_partition(&mut c, disk_id);
    assert_eq!(
        NewPartition { disk_id, uuid: "AFA-161-420-69".to_string(), capacity: 1 }
            .insert(&mut c)
            .unwrap_err(),
        Error::PartitionUuidTaken,
    );
    let file = fixture_file(&mut c, coll);
    assert_eq!(
        NewFile { collection_id: coll, path: "/foo.txt".to_string(), size: 1 }
            .insert(&mut c)
            .unwrap_err(),
        Error::FilePathTaken,
    );
    NewFilePlacement { file_id: file.id(), partition_id: partition.id() }
        .insert(&mut c)
        .unwrap();
    assert_eq!(
        NewFilePlacement { file_id: file.id(), partition_id: partition.id() }
            .insert(&mut c)
            .unwrap_err(),
        Error::PlacementExists,
    );
    NewFileHash {
        file_id: file.id(),
        hash_algorithm: HashAlgorithm::Sha1,
        hash_value: vec![1, 3, 1, 2],
    }
    .insert(&mut c)
    .unwrap();
    assert_eq!(
        NewFileHash {
            file_id: file.id(),
            hash_algorithm: HashAlgorithm::Sha1,
            hash_value: vec![9],
        }
        .insert(&mut c)
        .unwrap_err(),
        Error::HashExists,
    );
    NewFileArchive { file_id: file.id(), path: "m".to_string(), size: 1 }
        .insert(&mut c)
        .unwrap();
    assert_eq!(
        NewFileArchive { file_id: file.id(), path: "m".to_string(), size: 2 }
            .insert(&mut c)
            .unwrap_err(),
        Error::ArchiveMemberExists,
    );
}

#[test]
fn missing_references_are_reported() {
    let mut c = Catalog::new();
    assert_eq!(
        NewFile { collection_id: Uid::from_value(7), path: "/a".to_string(), size: 1 }
            .insert(&mut c)
            .unwrap_err(),
        Error::CollectionNotFound,
    );
    assert_eq!(
        NewPartition::create_for_disk(&mut c, "no-such-serial", "u", 1).unwrap_err(),
        Error::DiskNotFound,
    );
    assert_eq!(
        NewFilePlacement { file_id: Uid::from_value(1), partition_id: Uid::from_value(2) }
            .insert(&mut c)
            .unwrap_err(),
        Error::FileNotFound,
    );
    let coll = fixture_collection(&mut c);
    let file = fixture_file(&mut c, coll);
    assert_eq!(
        NewFilePlacement { file_id: file.id(), partition_id: Uid::from_value(2) }
            .insert(&mut c)
            .unwrap_err(),
        Error::PartitionNotFound,
    );
}

#[test]
fn file_paths_must_be_canonical() {
    let mut c = Catalog::new();
    let coll = fixture_collection(&mut c);
    assert_eq!(
        NewFile { collection_id: coll, path: "a/b".to_string(), size: 1 }
            .insert(&mut c)
            .unwrap_err(),
        Error::PathNotAbsolute,
    );
    assert_eq!(
        NewFile { collection_id: coll, path: "/a//b".to_string(), size: 1 }
            .insert(&mut c)
            .unwrap_err(),
        Error::PathNotCanonical,
    );
    assert_eq!(
        NewFile { collection_id: coll, path: "/".to_string(), size: 1 }
            .insert(&mut c)
            .unwrap_err(),
        Error::DestIsDirectory,
    );
}

#[test]
fn insert_with_known_identifier() {
    // with the identifier given, the outcome is fixed: success exactly when
    // neither the key nor the identifier is in use
    let mut c = Catalog::new();
    let id = Uid::from_value(42);
    NewCollection { name: "a".to_string() }.insert_with_id(&mut c, id).unwrap();
    assert_eq!(
        NewCollection { name: "b".to_string() }.insert_with_id(&mut c, id).unwrap_err(),
        Error::IdCollision,
    );
    let other = Uid::from_value(43);
    assert_eq!(
        NewCollection { name: "a".to_string() }.insert_with_id(&mut c, other).unwrap_err(),
        Error::CollectionNameTaken,
    );
    NewCollection { name: "b".to_string() }.insert_with_id(&mut c, other).unwrap();
    assert_eq!(c.collections.len(), 2);
    let coll = c.collections[0].id();
    NewFile { collection_id: coll, path: "/f".to_string(), size: 1 }
        .insert_with_id(&mut c, Uid::from_value(50))
        .unwrap();
    assert_eq!(
        NewFile { collection_id: coll, path: "/g".to_string(), size: 1 }
            .insert_with_id(&mut c, Uid::from_value(50))
            .unwrap_err(),
        Error::IdCollision,
    );
}
