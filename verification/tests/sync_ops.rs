use hoard::catalog::Catalog;
use hoard::catalog::FileHash;
use hoard::catalog::NewCollection;
use hoard::catalog::NewDisk;
use hoard::catalog::NewFile;
use hoard::catalog::NewFileHash;
use hoard::catalog::NewFilePlacement;
use hoard::catalog::NewPartition;
use hoard::error::Error;
use hoard::hash_utils::ComputedHash;
use hoard::hash_utils::HashAlgorithm;
use hoard::hash_utils::make_hashes;
use hoard::ids::Uid;
use hoard::sync_db::is_sync_hash_needed;
use hoard::sync_db::plan_sync_hashes;
use hoard::sync_db::record_repair;

fn coll_with_file(c: &mut Catalog, path: &str) -> (Uid, Uid) {
    let coll = NewCollection { name: "sync-collection".to_string() }.insert(c).unwrap();
    let file = NewFile { collection_id: coll, path: path.to_string(), size: 3 }
        .insert(c)
        .unwrap();
    (coll, file)
}

fn placed_partition(c: &mut Catalog, file_id: Uid, uuid: &str) -> Uid {
    let disk = NewDisk {
        location_id: None,
        serial_number: "sync-serial".to_string(),
        label: "sync-disk".to_string(),
    }
    .insert(c)
    .unwrap();
    let part = NewPartition { disk_id: disk, uuid: uuid.to_string(), capacity: 9 }
        .insert(c)
        .unwrap();
    NewFilePlacement { file_id, partition_id: part }.insert(c).unwrap();
    part
}

#[test]
fn is_sync_hash_needed_empty_tables() {
    let c = Catalog::new();
    assert!(!is_sync_hash_needed(&c, &vec![HashAlgorithm::Sha1], &Uid::from_value(4)));
}

#[test]
fn is_sync_hash_needed_all_present() {
    let mut c = Catalog::new();
    let (coll, file) = coll_with_file(&mut c, "/foo.txt");
    NewFileHash {
        file_id: file,
        hash_algorithm: HashAlgorithm::Sha1,
        hash_value: vec![1, 3, 1, 2],
    }
    .insert(&mut c)
    .unwrap();
    assert!(!is_sync_hash_needed(&c, &vec![HashAlgorithm::Sha1], &coll));
}

#[test]
fn is_sync_hash_needed_all_one_missing() {
    let mut c = Catalog::new();
    let (coll, file) = coll_with_file(&mut c, "/foo.txt");
    NewFileHash {
        file_id: file,
        hash_algorithm: HashAlgorithm::Sha1,
        hash_value: vec![1, 3, 1, 2],
    }
    .insert(&mut c)
    .unwrap();
    assert!(!is_sync_hash_needed(&c, &vec![HashAlgorithm::Sha1], &coll));
    assert!(is_sync_hash_needed(
        &c,
        &vec![HashAlgorithm::Sha1, HashAlgorithm::Sha3_256],
        &coll,
    ));
}

#[test]
fn get_hashes_all_present() {
    let mut c = Catalog::new();
    let (coll, file) = coll_with_file(&mut c, "/foo.txt");
    let _part = placed_partition(&mut c, file, "abc-123");
    NewFileHash {
        file_id: file,
        hash_algorithm: HashAlgorithm::Sha256,
        hash_value: b"a1c3a1b2".to_vec(),
    }
    .insert(&mut c)
    .unwrap();
    let plan = plan_sync_hashes(&c, &vec![HashAlgorithm::Sha256], &coll, &Vec::new());
    assert_eq!(plan.repairs.len(), 0);
    assert_eq!(plan.skipped_files, 0);
    assert_eq!(plan.skipped_partition_ids.len(), 0);
}

#[test]
fn get_hashes_one_missing() {
    // target algorithms = {A, B}; the file already has A and its only
    // holding partition is not mounted: one skipped file, that partition's
    // id reported, and no writes for the file
    let mut c = Catalog::new();
    let (coll, file) = coll_with_file(&mut c, "/foo.txt");
    let part = placed_partition(&mut c, file, "abc-123");
    NewFileHash {
        file_id: file,
        hash_algorithm: HashAlgorithm::Sha1,
        hash_value: vec![1, 3, 1, 2],
    }
    .insert(&mut c)
    .unwrap();
    let target = vec![HashAlgorithm::Sha1, HashAlgorithm::Sha256];
    let rows_before = FileHash::get_by_file_id(&c, &file).len();
    let plan = plan_sync_hashes(&c, &target, &coll, &Vec::new());
    assert_eq!(plan.repairs.len(), 0);
    assert_eq!(plan.skipped_files, 1);
    assert_eq!(plan.skipped_partition_ids, vec![part]);
    assert_eq!(FileHash::get_by_file_id(&c, &file).len(), rows_before);
}

#[test]
fn repair_computes_only_the_missing_digest() {
    // the partition becomes mounted: exactly the missing digest is computed
    // and inserted, nothing is skipped, and a second pass has nothing to do
    let mut c = Catalog::new();
    let (coll, file) = coll_with_file(&mut c, "/foo.txt");
    let _part = placed_partition(&mut c, file, "abc-123");
    NewFileHash {
        file_id: file,
        hash_algorithm: HashAlgorithm::Sha1,
        hash_value: vec![1, 3, 1, 2],
    }
    .insert(&mut c)
    .unwrap();
    let target = vec![HashAlgorithm::Sha1, HashAlgorithm::Sha256];
    let mounted = vec!["abc-123".to_string()];
    let plan = plan_sync_hashes(&c, &target, &coll, &mounted);
    assert_eq!(plan.skipped_files, 0);
    assert_eq!(plan.repairs.len(), 1);
    assert_eq!(plan.repairs[0].file_id, file);
    assert_eq!(plan.repairs[0].file_path, "/foo.txt");
    assert_eq!(plan.repairs[0].partition_uuid, "abc-123");
    assert_eq!(plan.repairs[0].missing, vec![HashAlgorithm::Sha256]);
    // the caller reads the bytes at the planned location and hands back the
    // computed digests
    let computed = make_hashes(b"abc", &plan.repairs[0].missing);
    record_repair(&mut c, &file, &computed).unwrap();
    let rows = FileHash::get_by_file_id(&c, &file);
    assert_eq!(rows.len(), 2);
    let sha256 = rows
        .iter()
        .find(|h| h.hash_algorithm() == HashAlgorithm::Sha256)
        .unwrap();
    assert_eq!(
        sha256.hash_value_hex(),
        "ba7816bf8f01cfea414140de5dae2223b00361a396177a9cb410ff61f20015ad",
    );
    // a second pass with the same media and targets performs zero writes
    let again = plan_sync_hashes(&c, &target, &coll, &mounted);
    assert_eq!(again.repairs.len(), 0);
    assert_eq!(again.skipped_files, 0);
    assert!(!is_sync_hash_needed(&c, &target, &coll));
}

#[test]
fn record_repair_rejects_conflicts() {
    let mut c = Catalog::new();
    let (_, file) = coll_with_file(&mut c, "/foo.txt");
    NewFileHash {
        file_id: file,
        hash_algorithm: HashAlgorithm::Sha1,
        hash_value: vec![1],
    }
    .insert(&mut c)
    .unwrap();
    let dup = vec![ComputedHash { algorithm: HashAlgorithm::Sha1, value: vec![2] }];
    assert_eq!(record_repair(&mut c, &file, &dup).unwrap_err(), Error::HashExists);
    assert_eq!(
        record_repair(&mut c, &Uid::from_value(77), &Vec::new()).unwrap_err(),
        Error::FileNotFound,
    );
}
