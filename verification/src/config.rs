//! The operator-facing configuration: where the catalog database lives and
//! which digest algorithms ingestion computes.

use vstd::prelude::*;

use crate::hash_utils::HashAlgorithm;

verus! {

pub struct DbConfig {
    pub path: String,
}

impl DbConfig {
    pub fn path(&self) -> (r: &str)
        ensures
            r@ == self.path@,
    {
        self.path.as_str()
    }

    pub fn from_path(path: String) -> (r: DbConfig)
        ensures
            r.path@ == path@,
    {
        DbConfig { path }
    }
}

impl Default for DbConfig {
    fn default() -> (r: DbConfig)
        ensures
            r.path@ == "db.sqlite"@,
    {
        DbConfig { path: String::from_str("db.sqlite") }
    }
}

pub struct FileConfig {
    pub hashes: Vec<HashAlgorithm>,
}

impl FileConfig {
    pub fn hashes(&self) -> (r: &Vec<HashAlgorithm>)
        ensures
            r@ == self.hashes@,
    {
        &self.hashes
    }

    pub fn from_hashes(hashes: Vec<HashAlgorithm>) -> (r: FileConfig)
        ensures
            r.hashes@ == hashes@,
    {
        FileConfig { hashes }
    }
}

impl Default for FileConfig {
    fn default() -> (r: FileConfig)
        ensures
            r.hashes@ == seq![
                HashAlgorithm::Sha256,
                HashAlgorithm::Sha512,
                HashAlgorithm::Sha3_256,
            ],
    {
        let mut hashes: Vec<HashAlgorithm> = Vec::new();
        hashes.push(HashAlgorithm::Sha256);
        hashes.push(HashAlgorithm::Sha512);
        hashes.push(HashAlgorithm::Sha3_256);
        assert(hashes@ =~= seq![
            HashAlgorithm::Sha256,
            HashAlgorithm::Sha512,
            HashAlgorithm::Sha3_256,
        ]);
        FileConfig { hashes }
    }
}

pub struct Config {
    pub db: DbConfig,
    pub files: FileConfig,
}

impl Config {
    pub fn db(&self) -> (r: &DbConfig)
        ensures
            r.path@ == self.db.path@,
    {
        &self.db
    }

    pub fn files(&self) -> (r: &FileConfig)
        ensures
            r.hashes@ == self.files.hashes@,
    {
        &self.files
    }

    pub fn from_parts(db: DbConfig, files: FileConfig) -> (r: Config)
        ensures
            r.db.path@ == db.path@,
            r.files.hashes@ == files.hashes@,
    {
        Config { db, files }
    }
}

impl Default for Config {
    fn default() -> (r: Config)
        ensures
            r.db.path@ == "db.sqlite"@,
            r.files.hashes@ == seq![
                HashAlgorithm::Sha256,
                HashAlgorithm::Sha512,
                HashAlgorithm::Sha3_256,
            ],
    {
        Config { db: DbConfig::default(), files: FileConfig::default() }
    }
}

} // verus!
