use hoard::catalog::Catalog;
use hoard::catalog::FileHash;
use hoard::catalog::NewCollection;
use hoard::catalog::NewDisk;
use hoard::catalog::NewFileHash;
use hoard::catalog::NewFilePlacement;
use hoard::catalog::NewPartition;
use hoard::config::Config;
use hoard::config::DbConfig;
use hoard::config::FileConfig;
use hoard::error::Error;
use hoard::hash_utils::HashAlgorithm;
use hoard::ids::Uid;
use hoard::manager::Manager;
use hoard::manager::SourceFile;

fn fixture_manager() -> Manager {
    Manager::new(Config::default(), Catalog::new())
}

fn source(name: &str, bytes: &[u8]) -> SourceFile {
    SourceFile { name: name.to_string(), is_regular: true, bytes: bytes.to_vec() }
}

/// Registers a disk and one mounted partition; returns the mounted UUID list.
fn fixture_mounted(m: &mut Manager, uuid: &str) -> Vec<String> {
    m.add_disk("serial-1", "disk-1", None).unwrap();
    m.add_partition("serial-1", uuid, 1 << 30).unwrap();
    vec![uuid.to_string()]
}

fn fixture_coll(m: &mut Manager, name: &str) -> Uid {
    m.add_collection(name).unwrap();
    m.list_collections()
        .iter()
        .find(|c| c.name() == name)
        .map(|c| c.id())
        .unwrap()
}

#[test]
fn add_collection() {
    let mut manager = fixture_manager();
    manager.add_collection("foo").unwrap();
}

#[test]
fn list_collections() {
    let mut manager = fixture_manager();
    manager.add_collection("some-collection").unwrap();
    let colls = manager.list_collections();
    assert_ne!(colls.len(), 0);
}

#[test]
fn list_disks() {
    let mut manager = fixture_manager();
    manager.add_disk("some-serial-123", "test-disk", None).unwrap();
    let disks = manager.list_disks();
    assert_ne!(disks.len(), 0);
}

#[test]
fn list_partitions() {
    let mut manager = fixture_manager();
    manager.add_disk("some-serial-123", "test-disk", None).unwrap();
    manager.add_partition("some-serial-123", "AFA-161-420-69", 420).unwrap();
    let parts = manager.list_partitions();
    assert_ne!(parts.len(), 0);
}

#[test]
fn list_files() {
    let mut manager = fixture_manager();
    let coll = fixture_coll(&mut manager, "some-collection");
    let mounted = fixture_mounted(&mut manager, "uu-1");
    manager
        .add_file(&coll, None, &source("foo.txt", b"data"), "/foo.txt", &mounted)
        .unwrap();
    let files = manager.list_files(&coll, &vec!["/foo.txt".to_string()], true);
    assert_ne!(files.len(), 0);
}

#[test]
fn list_files_is_sorted_and_merged() {
    let mut manager = fixture_manager();
    let coll = fixture_coll(&mut manager, "c");
    let mounted = fixture_mounted(&mut manager, "uu-1");
    for p in ["/dir/c.txt", "/dir/a.txt", "/dir/b.txt"] {
        manager
            .add_file(&coll, None, &source("x", b"1"), p, &mounted)
            .unwrap();
    }
    let files = manager.list_files(&coll, &vec!["/dir/".to_string()], true);
    let paths: Vec<&str> = files.iter().map(|f| f.path()).collect();
    assert_eq!(paths, vec!["/dir/a.txt", "/dir/b.txt", "/dir/c.txt"]);
}

#[test]
fn ingest_records_configured_digests() {
    // the digest rows read back equal an independently computed digest of
    // the same source bytes
    let mut manager = fixture_manager();
    let coll = fixture_coll(&mut manager, "c");
    let mounted = fixture_mounted(&mut manager, "uu-1");
    let added = manager
        .add_file(&coll, None, &source("abc.bin", b"abc"), "/abc.bin", &mounted)
        .unwrap();
    let rows = FileHash::get_by_file_id(manager.catalog(), &added.file_id);
    assert_eq!(rows.len(), 3);
    let hex_for = |a: HashAlgorithm| -> String {
        rows.iter()
            .find(|h| h.hash_algorithm() == a)
            .map(|h| h.hash_value_hex())
            .unwrap()
    };
    assert_eq!(
        hex_for(HashAlgorithm::Sha256),
        "ba7816bf8f01cfea414140de5dae2223b00361a396177a9cb410ff61f20015ad",
    );
    assert_eq!(
        hex_for(HashAlgorithm::Sha512),
        "ddaf35a193617abacc417349ae20413112e6fa4e89a97ea20a9eeee64b55d39a2192992a274fc1a836ba3c23a3feebbd454d4423643ce80e2a9ac94fa54ca49f",
    );
    assert_eq!(
        hex_for(HashAlgorithm::Sha3_256),
        "3a985da74fe225b2045c172d6bd390bd855f086e3e9d525b46bfe24511431532",
    );
    // the same digests come from an independent computation over the bytes
    let independent = hoard::hash_utils::make_hashes(b"abc", manager.config.files.hashes());
    for ch in independent.iter() {
        assert_eq!(hoard::hash_utils::hex_encode(&ch.value), hex_for(ch.algorithm));
    }
}

#[test]
fn ingest_rejects_ancestor_collisions_in_both_orders() {
    // shallow path first, deep path second
    let mut manager = fixture_manager();
    let coll = fixture_coll(&mut manager, "c");
    let mounted = fixture_mounted(&mut manager, "uu-1");
    manager.add_file(&coll, None, &source("a", b"1"), "/a", &mounted).unwrap();
    assert_eq!(
        manager
            .add_file(&coll, None, &source("b", b"2"), "/a/b", &mounted)
            .unwrap_err(),
        Error::PathCollision,
    );
    // deep path first, shallow path second
    let mut manager = fixture_manager();
    let coll = fixture_coll(&mut manager, "c");
    let mounted = fixture_mounted(&mut manager, "uu-1");
    manager.add_file(&coll, None, &source("b", b"2"), "/a/b", &mounted).unwrap();
    assert_eq!(
        manager
            .add_file(&coll, None, &source("a", b"1"), "/a", &mounted)
            .unwrap_err(),
        Error::PathCollision,
    );
}

#[test]
fn ingest_validates_inputs() {
    let mut manager = fixture_manager();
    let coll = fixture_coll(&mut manager, "c");
    let mounted = fixture_mounted(&mut manager, "uu-1");
    let dir_source = SourceFile {
        name: "d".to_string(),
        is_regular: false,
        bytes: Vec::new(),
    };
    assert_eq!(
        manager.add_file(&coll, None, &dir_source, "/d", &mounted).unwrap_err(),
        Error::SourceIsDirectory,
    );
    assert_eq!(
        manager.add_file(&coll, None, &source("x", b"1"), "x", &mounted).unwrap_err(),
        Error::PathNotAbsolute,
    );
    assert_eq!(
        manager.add_file(&coll, None, &source("x", b"1"), "/", &mounted).unwrap_err(),
        Error::DestIsDirectory,
    );
    assert_eq!(
        manager
            .add_file(&Uid::from_value(9), None, &source("x", b"1"), "/x", &mounted)
            .unwrap_err(),
        Error::CollectionNotFound,
    );
}

#[test]
fn ingest_requires_a_mounted_partition() {
    let mut manager = fixture_manager();
    let coll = fixture_coll(&mut manager, "c");
    // nothing registered at all
    assert_eq!(
        manager
            .add_file(&coll, None, &source("x", b"1"), "/x", &vec!["uu-9".to_string()])
            .unwrap_err(),
        Error::NoMountedPartition,
    );
    // a registered partition that is not currently mounted
    let _ = fixture_mounted(&mut manager, "uu-1");
    let pid = manager.list_partitions()[0].id();
    assert_eq!(
        manager
            .add_file(&coll, Some(&pid), &source("x", b"1"), "/x", &vec!["other".to_string()])
            .unwrap_err(),
        Error::PartitionNotMounted,
    );
    assert_eq!(
        manager
            .add_file(
                &coll,
                Some(&Uid::from_value(5)),
                &source("x", b"1"),
                "/x",
                &vec!["uu-1".to_string()],
            )
            .unwrap_err(),
        Error::PartitionNotFound,
    );
    // with the partition mounted the explicit choice is honoured
    let added = manager
        .add_file(
            &coll,
            Some(&pid),
            &source("x", b"1"),
            "/x",
            &vec!["uu-1".to_string()],
        )
        .unwrap();
    assert_eq!(added.partition_id, pid);
    assert_eq!(added.partition_uuid, "uu-1");
    assert!(added.physical_path.starts_with("hoard/collections/"));
    assert!(added.physical_path.ends_with("/x"));
}

#[test]
fn find_depth_windows() {
    // collection with /a.txt, /dir/b.txt, /dir/sub/c.txt and a hidden file
    let mut manager = fixture_manager();
    let coll = fixture_coll(&mut manager, "c");
    let mounted = fixture_mounted(&mut manager, "uu-1");
    for p in ["/a.txt", "/dir/b.txt", "/dir/sub/c.txt"] {
        manager.add_file(&coll, None, &source("x", b"1"), p, &mounted).unwrap();
    }
    let roots = vec!["/dir".to_string()];
    let one = manager
        .find_files(&coll, Some(1), Some(1), None, None, &roots)
        .unwrap();
    let one_paths: Vec<&str> = one.iter().map(|f| f.path()).collect();
    assert_eq!(one_paths, vec!["/dir/b.txt"]);
    let two = manager
        .find_files(&coll, Some(2), Some(2), None, None, &roots)
        .unwrap();
    let two_paths: Vec<&str> = two.iter().map(|f| f.path()).collect();
    assert_eq!(two_paths, vec!["/dir/sub/c.txt"]);
    manager
        .add_file(&coll, None, &source("x", b"1"), "/dir/.hidden", &mounted)
        .unwrap();
    let ls = manager.list_files(&coll, &vec!["/dir/".to_string()], false);
    let ls_paths: Vec<&str> = ls.iter().map(|f| f.path()).collect();
    assert_eq!(ls_paths, vec!["/dir/b.txt"]);
}

#[test]
fn find_rejects_inverted_window_and_bad_pattern() {
    let manager = fixture_manager();
    let coll = Uid::from_value(1);
    assert_eq!(
        manager
            .find_files(&coll, Some(3), Some(1), None, None, &vec!["/".to_string()])
            .unwrap_err(),
        Error::InvalidDepthRange,
    );
    assert_eq!(
        manager
            .find_files(&coll, None, None, Some("["), None, &vec!["/".to_string()])
            .unwrap_err(),
        Error::BadPattern,
    );
}

#[test]
fn inspect_file() {
    let mut c = Catalog::new();
    let coll_id = NewCollection { name: "some-collection".to_string() }
        .insert(&mut c)
        .unwrap();
    let disk_id = NewDisk {
        location_id: None,
        serial_number: "some-serial-123".to_string(),
        label: "test-disk".to_string(),
    }
    .insert(&mut c)
    .unwrap();
    let part_id = NewPartition {
        disk_id,
        uuid: "AFA-161-420-69".to_string(),
        capacity: 420,
    }
    .insert(&mut c)
    .unwrap();
    let file_id = hoard::catalog::NewFile {
        collection_id: coll_id,
        path: "/foo.txt".to_string(),
        size: 6969,
    }
    .insert(&mut c)
    .unwrap();
    NewFileHash {
        file_id,
        hash_algorithm: HashAlgorithm::Sha256,
        hash_value: b"a1c3a1b2".to_vec(),
    }
    .insert(&mut c)
    .unwrap();
    NewFilePlacement { file_id, partition_id: part_id }.insert(&mut c).unwrap();
    let manager = Manager::new(Config::default(), c);
    let report = manager.inspect_file(&coll_id, "/foo.txt").unwrap();
    assert_eq!(report.path, "/foo.txt");
    assert_eq!(report.size, 6969);
    assert_eq!(report.file_id, file_id);
    assert_eq!(report.collection_name, "some-collection");
    assert_eq!(report.placements, vec!["test-disk".to_string()]);
    assert_eq!(report.hashes.len(), 1);
    assert_eq!(report.hashes[0].algorithm, "sha2-256");
    assert_eq!(report.hashes[0].value, "6131633361316232");
    assert_eq!(
        manager.inspect_file(&coll_id, "/absent").unwrap_err(),
        Error::FileNotFound,
    );
    assert_eq!(
        manager.inspect_file(&Uid::from_value(3), "/foo.txt").unwrap_err(),
        Error::CollectionNotFound,
    );
}

#[test]
fn default_config_values() {
    let config = Config::default();
    assert_eq!(config.db().path(), "db.sqlite");
    assert_eq!(
        config.files().hashes(),
        &vec![HashAlgorithm::Sha256, HashAlgorithm::Sha512, HashAlgorithm::Sha3_256],
    );
    let custom = Config::from_parts(
        DbConfig::from_path("x.sqlite".to_string()),
        FileConfig::from_hashes(vec![HashAlgorithm::Sha1]),
    );
    assert_eq!(custom.db().path(), "x.sqlite");
}
