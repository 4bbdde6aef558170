use std::io::Write;

use hoard::archive_utils::ArchiveKind;
use hoard::archive_utils::archive_kind;
use hoard::archive_utils::list_files;
use hoard::error::Error;
use hoard::hash_utils::HashAlgorithm;
use hoard::hash_utils::hex_encode;
use hoard::hash_utils::make_hashes;

#[test]
fn known_digest_values() {
    let all = vec![
        HashAlgorithm::Sha1,
        HashAlgorithm::Sha256,
        HashAlgorithm::Sha512,
        HashAlgorithm::Sha3_256,
    ];
    let hashes = make_hashes(b"abc", &all);
    assert_eq!(hashes.len(), 4);
    let hex_for = |a: HashAlgorithm| -> String {
        hashes
            .iter()
            .find(|h| h.algorithm == a)
            .map(|h| hex_encode(&h.value))
            .unwrap()
    };
    assert_eq!(hex_for(HashAlgorithm::Sha1), "a9993e364706816aba3e25717850c26c9cd0d89d");
    assert_eq!(
        hex_for(HashAlgorithm::Sha256),
        "ba7816bf8f01cfea414140de5dae2223b00361a396177a9cb410ff61f20015ad",
    );
    assert_eq!(
        hex_for(HashAlgorithm::Sha512),
        "ddaf35a193617abacc417349ae20413112e6fa4e89a97ea20a9eeee64b55d39a2192992a274fc1a836ba3c23a3feebbd454d4423643ce80e2a9ac94fa54ca49f",
    );
    assert_eq!(
        hex_for(HashAlgorithm::Sha3_256),
        "3a985da74fe225b2045c172d6bd390bd855f086e3e9d525b46bfe24511431532",
    );
}

#[test]
fn repeated_algorithms_are_computed_once() {
    let hashes = make_hashes(b"xyz", &vec![HashAlgorithm::Sha256, HashAlgorithm::Sha256]);
    assert_eq!(hashes.len(), 1);
    assert_eq!(hashes[0].algorithm, HashAlgorithm::Sha256);
}

#[test]
fn hex_encoding_is_two_digits_per_byte() {
    assert_eq!(hex_encode(&[]), "");
    assert_eq!(hex_encode(&[0x00, 0xff, 0x1a]), "00ff1a");
}

#[test]
fn algorithm_names_round_trip() {
    let all = [
        HashAlgorithm::Sha1,
        HashAlgorithm::Sha256,
        HashAlgorithm::Sha384,
        HashAlgorithm::Sha512,
        HashAlgorithm::Sha3_256,
        HashAlgorithm::Sha3_384,
        HashAlgorithm::Sha3_512,
    ];
    for a in all {
        let parsed = match HashAlgorithm::from_name(&a.name()) {
            Ok(p) => p,
            Err(_) => panic!("a well-known name failed to parse"),
        };
        assert_eq!(parsed, a);
    }
    let parsed = match HashAlgorithm::from_name("sha2-256") {
        Ok(p) => p,
        Err(_) => panic!("a well-known name failed to parse"),
    };
    assert_eq!(parsed, HashAlgorithm::Sha256);
    let err = HashAlgorithm::from_name("md5").unwrap_err();
    assert_eq!(err.message(), "not a known hash algorithm: md5");
}

#[test]
fn extension_sniffing() {
    assert_eq!(archive_kind("a.tar"), ArchiveKind::Tar);
    assert_eq!(archive_kind("a.tar.gz"), ArchiveKind::TarGz);
    assert_eq!(archive_kind("a.tgz"), ArchiveKind::TarGz);
    assert_eq!(archive_kind("a.tar.xz"), ArchiveKind::TarXz);
    assert_eq!(archive_kind("a.tar.zst"), ArchiveKind::TarZst);
    assert_eq!(archive_kind("a.tar.zstd"), ArchiveKind::TarZst);
    assert_eq!(archive_kind("a.zip"), ArchiveKind::Zip);
    assert_eq!(archive_kind("a.txt"), ArchiveKind::NotArchive);
    assert_eq!(archive_kind("gz"), ArchiveKind::NotArchive);
    assert_eq!(archive_kind("a.bin.gz"), ArchiveKind::NotArchive);
    assert_eq!(archive_kind("tar"), ArchiveKind::NotArchive);
}

fn sample_tar() -> Vec<u8> {
    let mut builder = tar::Builder::new(Vec::new());
    let data = b"hello";
    let mut header = tar::Header::new_gnu();
    header.set_size(data.len() as u64);
    header.set_cksum();
    builder.append_data(&mut header, "inner.txt", &data[..]).unwrap();
    builder.into_inner().unwrap()
}

#[test]
fn tar_members_are_listed() {
    let bytes = sample_tar();
    let members = list_files("a.tar", &bytes).unwrap();
    assert_eq!(members, vec![("inner.txt".to_string(), 5u64)]);
}

#[test]
fn compressed_tar_members_are_listed() {
    let bytes = sample_tar();
    let mut enc = flate2::write::GzEncoder::new(Vec::new(), flate2::Compression::default());
    enc.write_all(&bytes).unwrap();
    let gz = enc.finish().unwrap();
    let members = list_files("a.tar.gz", &gz).unwrap();
    assert_eq!(members, vec![("inner.txt".to_string(), 5u64)]);
    // a corrupted stream fails loudly rather than listing nothing
    let err = list_files("a.tar.gz", &bytes).unwrap_err();
    assert_eq!(err, Error::ArchiveUnreadable);
}

#[test]
fn unrecognized_extensions_list_nothing() {
    let members = list_files("notes.txt", b"anything").unwrap();
    assert_eq!(members, Vec::<(String, u64)>::new());
}
