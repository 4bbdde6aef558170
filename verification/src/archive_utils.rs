//! Container indexing: recognize an archive by its file name's extensions
//! and list its member entries, so the catalog can answer membership
//! questions without extracting anything. The decoders are collaborators;
//! the extension dispatch and everything downstream is verified against
//! their named results.

use vstd::prelude::*;

use crate::error::Error;
use crate::strutil::chars_eq;
use crate::strutil::split_chars;
use crate::strutil::split_on;
use crate::strutil::str_chars;

verus! {

pub uninterp spec fn gzip_of(data: Seq<u8>) -> Option<Seq<u8>>;

pub uninterp spec fn xz_of(data: Seq<u8>) -> Option<Seq<u8>>;

pub uninterp spec fn zstd_of(data: Seq<u8>) -> Option<Seq<u8>>;

pub uninterp spec fn tar_members_of(data: Seq<u8>) -> Option<Seq<(Seq<char>, u64)>>;

pub uninterp spec fn zip_members_of(data: Seq<u8>) -> Option<Seq<(Seq<char>, u64)>>;

/// Relies on flate2::read::GzDecoder: inflating a gzip stream is a function
/// of the bytes alone; nothing when the stream is not valid gzip.
#[verifier::external_body]
fn gzip_decode(data: &[u8]) -> (r: Option<Vec<u8>>)
    ensures
        match r {
            Some(v) => gzip_of(data@) == Some(v@),
            None => gzip_of(data@) is None,
        },
{
    let mut out = Vec::new();
    let mut d = flate2::read::GzDecoder::new(data);
    std::io::Read::read_to_end(&mut d, &mut out).ok()?;
    Some(out)
}

/// Relies on lzma::reader::LzmaReader: decompressing an xz stream is a
/// function of the bytes alone; nothing when the stream is not valid xz.
#[verifier::external_body]
fn xz_decode(data: &[u8]) -> (r: Option<Vec<u8>>)
    ensures
        match r {
            Some(v) => xz_of(data@) == Some(v@),
            None => xz_of(data@) is None,
        },
{
    let mut out = Vec::new();
    let mut d = lzma::reader::LzmaReader::new_decompressor(data).ok()?;
    std::io::Read::read_to_end(&mut d, &mut out).ok()?;
    Some(out)
}

/// Relies on zstd::stream::read::Decoder: decompressing a zstd stream is a
/// function of the bytes alone; nothing when the stream is not valid zstd.
#[verifier::external_body]
fn zstd_decode(data: &[u8]) -> (r: Option<Vec<u8>>)
    ensures
        match r {
            Some(v) => zstd_of(data@) == Some(v@),
            None => zstd_of(data@) is None,
        },
{
    let mut out = Vec::new();
    let mut d = zstd::stream::read::Decoder::new(data).ok()?;
    std::io::Read::read_to_end(&mut d, &mut out).ok()?;
    Some(out)
}

/// Relies on tar::Archive: the member paths and sizes of a tar stream are a
/// function of the bytes alone; nothing when the stream cannot be walked or
/// a member path is not valid text.
#[verifier::external_body]
fn tar_members(data: &[u8]) -> (r: Option<Vec<(String, u64)>>)
    ensures
        match r {
            Some(v) => tar_members_of(data@) == Some(members_view(v@)),
            None => tar_members_of(data@) is None,
        },
{
    let mut ar = tar::Archive::new(data);
    let mut out = Vec::new();
    for ent in ar.entries().ok()? {
        let ent = ent.ok()?;
        let size = ent.size();
        let path = ent.path().ok()?;
        out.push((path.to_str()?.to_string(), size));
    }
    Some(out)
}

/// Relies on zip::ZipArchive: the member names and sizes of a zip file are a
/// function of the bytes alone; nothing when the file cannot be read.
#[verifier::external_body]
fn zip_members(data: &[u8]) -> (r: Option<Vec<(String, u64)>>)
    ensures
        match r {
            Some(v) => zip_members_of(data@) == Some(members_view(v@)),
            None => zip_members_of(data@) is None,
        },
{
    let cur = std::io::Cursor::new(data);
    let mut zip = zip::ZipArchive::new(cur).ok()?;
    let mut out = Vec::new();
    for i in 0..zip.len() {
        let f = zip.by_index(i).ok()?;
        out.push((f.name().to_string(), f.size()));
    }
    Some(out)
}

/// The views of a list of member entries.
pub open spec fn members_view(v: Seq<(String, u64)>) -> Seq<(Seq<char>, u64)> {
    v.map_values(|m: (String, u64)| (m.0@, m.1))
}

/// The container formats the catalog recognizes by extension.
#[derive(Clone, Copy, PartialEq, Eq, Structural, Debug)]
pub enum ArchiveKind {
    NotArchive,
    Tar,
    TarGz,
    TarXz,
    TarZst,
    Zip,
}

/// Extension sniffing over the dot-separated pieces of the file name: plain
/// and compressed tar archives, and zip archives, exactly as the catalog
/// indexes them.
pub open spec fn spec_kind(name: Seq<char>) -> ArchiveKind {
    let parts = split_on(name, '.');
    let n = parts.len() as int;
    let last = parts[n - 1];
    if (last == "gz"@ || last == "xz"@ || last == "zst"@ || last == "zstd"@) && n < 2 {
        ArchiveKind::NotArchive
    } else if last == "gz"@ {
        if parts[n - 2] == "tar"@ {
            ArchiveKind::TarGz
        } else {
            ArchiveKind::NotArchive
        }
    } else if last == "xz"@ {
        if parts[n - 2] == "tar"@ {
            ArchiveKind::TarXz
        } else {
            ArchiveKind::NotArchive
        }
    } else if last == "zst"@ || last == "zstd"@ {
        if parts[n - 2] == "tar"@ {
            ArchiveKind::TarZst
        } else {
            ArchiveKind::NotArchive
        }
    } else if last == "tgz"@ && n >= 2 {
        ArchiveKind::TarGz
    } else if last == "tar"@ && n >= 2 {
        ArchiveKind::Tar
    } else if last == "zip"@ && n >= 2 {
        ArchiveKind::Zip
    } else {
        ArchiveKind::NotArchive
    }
}

pub fn archive_kind(name: &str) -> (r: ArchiveKind)
    ensures
        r == spec_kind(name@),
{
    let cs = str_chars(name);
    let parts = split_chars(&cs, '.');
    let n = parts.len();
    let ghost gparts = split_on(name@, '.');
    proof {
        assert(parts@.map_values(|p: Vec<char>| p@) == gparts);
    }
    let last = &parts[n - 1];
    assert(last@ == gparts[n - 1]);
    let s_gz = str_chars("gz");
    let s_xz = str_chars("xz");
    let s_zst = str_chars("zst");
    let s_zstd = str_chars("zstd");
    let s_tgz = str_chars("tgz");
    let s_tar = str_chars("tar");
    let s_zip = str_chars("zip");
    let is_gz = chars_eq(last, &s_gz);
    let is_xz = chars_eq(last, &s_xz);
    let is_zst = chars_eq(last, &s_zst) || chars_eq(last, &s_zstd);
    if (is_gz || is_xz || is_zst) && n < 2 {
        return ArchiveKind::NotArchive;
    }
    if is_gz || is_xz || is_zst {
        let second = &parts[n - 2];
        assert(second@ == gparts[n - 2]);
        let is_tar_inner = chars_eq(second, &s_tar);
        if !is_tar_inner {
            return ArchiveKind::NotArchive;
        }
        if is_gz {
            return ArchiveKind::TarGz;
        }
        if is_xz {
            return ArchiveKind::TarXz;
        }
        return ArchiveKind::TarZst;
    }
    if n >= 2 {
        if chars_eq(last, &s_tgz) {
            return ArchiveKind::TarGz;
        }
        if chars_eq(last, &s_tar) {
            return ArchiveKind::Tar;
        }
        if chars_eq(last, &s_zip) {
            return ArchiveKind::Zip;
        }
    }
    ArchiveKind::NotArchive
}

/// The member entries the catalog records for a file: empty for an
/// unrecognized extension, the decoded member list for a recognized one, and
/// nothing when the container cannot be read.
pub open spec fn spec_archive_members(name: Seq<char>, data: Seq<u8>) -> Option<
    Seq<(Seq<char>, u64)>,
> {
    match spec_kind(name) {
        ArchiveKind::NotArchive => Some(Seq::<(Seq<char>, u64)>::empty()),
        ArchiveKind::Tar => tar_members_of(data),
        ArchiveKind::TarGz => match gzip_of(data) {
            Some(d) => tar_members_of(d),
            None => None,
        },
        ArchiveKind::TarXz => match xz_of(data) {
            Some(d) => tar_members_of(d),
            None => None,
        },
        ArchiveKind::TarZst => match zstd_of(data) {
            Some(d) => tar_members_of(d),
            None => None,
        },
        ArchiveKind::Zip => zip_members_of(data),
    }
}

/// List the member entries of a recognized container, or an empty list for
/// any other file.
pub fn list_files(file_name: &str, data: &[u8]) -> (r: Result<Vec<(String, u64)>, Error>)
    ensures
        match r {
            Ok(v) => spec_archive_members(file_name@, data@) == Some(members_view(v@)),
            Err(e) => e == Error::ArchiveUnreadable && spec_archive_members(file_name@, data@)
                is None,
        },
{
    let kind = archive_kind(file_name);
    match kind {
        ArchiveKind::NotArchive => {
            let out: Vec<(String, u64)> = Vec::new();
            assert(members_view(out@) =~= Seq::<(Seq<char>, u64)>::empty());
            Ok(out)
        },
        ArchiveKind::Tar => {
            match tar_members(data) {
                Some(v) => Ok(v),
                None => Err(Error::ArchiveUnreadable),
            }
        },
        ArchiveKind::TarGz => {
            match gzip_decode(data) {
                Some(d) => match tar_members(d.as_slice()) {
                    Some(v) => Ok(v),
                    None => Err(Error::ArchiveUnreadable),
                },
                None => Err(Error::ArchiveUnreadable),
            }
        },
        ArchiveKind::TarXz => {
            match xz_decode(data) {
                Some(d) => match tar_members(d.as_slice()) {
                    Some(v) => Ok(v),
                    None => Err(Error::ArchiveUnreadable),
                },
                None => Err(Error::ArchiveUnreadable),
            }
        },
        ArchiveKind::TarZst => {
            match zstd_decode(data) {
                Some(d) => match tar_members(d.as_slice()) {
                    Some(v) => Ok(v),
                    None => Err(Error::ArchiveUnreadable),
                },
                None => Err(Error::ArchiveUnreadable),
            }
        },
        ArchiveKind::Zip => {
            match zip_members(data) {
                Some(v) => Ok(v),
                None => Err(Error::ArchiveUnreadable),
            }
        },
    }
}

} // verus!
