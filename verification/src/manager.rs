//! The operator-facing engine: registration of collections, locations,
//! disks and partitions, file listing and recursive search over the virtual
//! namespace, transactional file ingestion with collision detection and
//! placement, and inspection of a file's placements and digests.

use vstd::prelude::*;

use crate::catalog::Catalog;
use crate::catalog::CatalogV;
use crate::catalog::Collection;
use crate::catalog::Disk;
use crate::catalog::File;
use crate::catalog::FileV;
use crate::catalog::NewCollection;
use crate::catalog::NewDisk;
use crate::catalog::NewFile;
use crate::catalog::NewFilePlacement;
use crate::catalog::NewPartition;
use crate::catalog::Partition;
use crate::catalog::find_pred;
use crate::catalog::ls_pred;
use crate::catalog::opt_pattern_ok;
use crate::catalog::opt_view;
use crate::config::Config;
use crate::error::Error;
use crate::ids::Uid;
use crate::strutil::chars_is_prefix;
use crate::strutil::chars_le;
use crate::strutil::lemma_filter_empty;
use crate::strutil::lemma_filter_step;
use crate::strutil::lemma_lex_le_refl;
use crate::strutil::lemma_lex_le_total;
use crate::strutil::lemma_seq_insert_multiset;
use crate::strutil::lex_le;
use crate::strutil::str_chars;

verus! {

// ---------------------------------------------------------------------------
// Sorting listings by path
// ---------------------------------------------------------------------------

pub open spec fn fviews(s: Seq<File>) -> Seq<FileV> {
    s.map_values(|x: File| x@)
}

pub open spec fn files_sorted(s: Seq<FileV>) -> bool {
    forall|i: int, j: int|
        #![trigger s[i], s[j]]
        0 <= i < j < s.len() ==> lex_le(s[i].path, s[j].path)
}

fn file_path_le(a: &File, b: &File) -> (r: bool)
    ensures
        r == lex_le(a@.path, b@.path),
{
    let ca = str_chars(a.path.as_str());
    let cb = str_chars(b.path.as_str());
    chars_le(&ca, &cb)
}

fn lower_insert_pos(out: &Vec<File>, x: &File) -> (p: usize)
    ensures
        p <= out.len(),
        forall|k: int| 0 <= k < p ==> lex_le((#[trigger] fviews(out@)[k]).path, x@.path),
        p < out.len() ==> !lex_le(fviews(out@)[p as int].path, x@.path),
{
    let mut p: usize = 0;
    while p < out.len()
        invariant
            0 <= p <= out.len(),
            forall|k: int| 0 <= k < p ==> lex_le((#[trigger] fviews(out@)[k]).path, x@.path),
        decreases out.len() - p,
    {
        if !file_path_le(&out[p], x) {
            return p;
        }
        assert(fviews(out@)[p as int] == out@[p as int]@);
        p = p + 1;
    }
    p
}

/// Sort a listing by path, ascending, lexicographic on the raw characters.
/// The result holds exactly the given rows.
pub fn sort_files_by_path(v: Vec<File>) -> (r: Vec<File>)
    ensures
        fviews(r@).to_multiset() == fviews(v@).to_multiset(),
        files_sorted(fviews(r@)),
{
    let mut out: Vec<File> = Vec::new();
    assert(fviews(out@) =~= fviews(v@.subrange(0, 0)));
    let mut i: usize = 0;
    while i < v.len()
        invariant
            0 <= i <= v.len(),
            files_sorted(fviews(out@)),
            fviews(out@).to_multiset() == fviews(v@.subrange(0, i as int)).to_multiset(),
        decreases v.len() - i,
    {
        let x = crate::catalog::copy_file(&v[i]);
        let ghost xval = x;
        let ghost xv = x@;
        assert(xv == v@[i as int]@);
        let p = lower_insert_pos(&out, &x);
        let ghost pre_vec = out@;
        let ghost pre = fviews(out@);
        out.insert(p, x);
        proof {
            pre_vec.insert_ensures(p as int, xval);
            assert(fviews(out@) =~= pre.insert(p as int, xv)) by {
                pre.insert_ensures(p as int, xv);
                assert forall|k: int| 0 <= k < fviews(out@).len() implies fviews(out@)[k]
                    == pre.insert(p as int, xv)[k] by {
                    if k < p {
                        assert(out@[k] == pre_vec[k]);
                    } else if k == p {
                        assert(out@[k] == xval);
                        assert(out@[k]@ == xv);
                    } else {
                        assert(out@[k] == pre_vec[k - 1]);
                    }
                }
            }
            lemma_seq_insert_multiset(pre, p as int, xv);
            assert(fviews(v@.subrange(0, i + 1)) =~= fviews(v@.subrange(0, i as int)).push(xv));
            broadcast use vstd::seq_lib::group_to_multiset_ensures;

            assert(fviews(v@.subrange(0, i + 1)).to_multiset() =~= fviews(
                v@.subrange(0, i as int),
            ).to_multiset().insert(xv));
            let nv = fviews(out@);
            pre.insert_ensures(p as int, xv);
            assert forall|a: int, b: int|
                #![trigger nv[a], nv[b]]
                0 <= a < b < nv.len() implies lex_le(nv[a].path, nv[b].path) by {
                if b < p {
                    assert(nv[a] == pre[a] && nv[b] == pre[b]);
                } else if b == p {
                    assert(nv[b] == xv);
                    assert(nv[a] == pre[a]);
                    assert(lex_le(pre[a].path, xv.path));
                } else {
                    assert(nv[b] == pre[b - 1]);
                    if a < p {
                        assert(nv[a] == pre[a]);
                        assert(a < b - 1 || a == b - 1);
                        if a == b - 1 {
                            lemma_lex_le_refl(pre[a].path);
                        } else {
                            assert(lex_le(pre[a].path, pre[b - 1].path));
                        }
                    } else if a == p {
                        assert(nv[a] == xv);
                        assert(p < pre.len());
                        lemma_lex_le_total(pre[p as int].path, xv.path);
                        assert(lex_le(xv.path, pre[p as int].path));
                        if p == b - 1 {
                        } else {
                            assert(lex_le(pre[p as int].path, pre[b - 1].path));
                            crate::strutil::lemma_lex_le_trans(
                                xv.path,
                                pre[p as int].path,
                                pre[b - 1].path,
                            );
                        }
                    } else {
                        assert(nv[a] == pre[a - 1]);
                        assert(lex_le(pre[a - 1].path, pre[b - 1].path));
                    }
                }
            }
        }
        i = i + 1;
    }
    assert(v@.subrange(0, v@.len() as int) =~= v@);
    out
}

// ---------------------------------------------------------------------------
// Multi-root listing and search
// ---------------------------------------------------------------------------

pub open spec fn exact_pred(collection_id: Uid, path: Seq<char>) -> spec_fn(FileV) -> bool {
    |f: FileV| f.collection_id == collection_id && f.path == path
}

/// A root that does not end in a separator names a file, not a directory.
pub open spec fn root_is_file_query(root: Seq<char>) -> bool {
    !(root.len() > 0 && root.last() == '/')
}

/// The rows one root contributes to a listing: the exact file when the root
/// names one, else the direct entries of the directory.
pub open spec fn list_one_root(c: CatalogV, coll: Uid, all: bool, root: Seq<char>) -> Seq<FileV> {
    if root_is_file_query(root) && c.has_file_at(coll, root) {
        c.files.filter(exact_pred(coll, root))
    } else {
        c.files.filter(ls_pred(coll, all, root))
    }
}

pub open spec fn list_roots(c: CatalogV, coll: Uid, all: bool, roots: Seq<Seq<char>>) -> Seq<FileV>
    decreases roots.len(),
{
    if roots.len() == 0 {
        Seq::<FileV>::empty()
    } else {
        list_roots(c, coll, all, roots.drop_last()) + list_one_root(c, coll, all, roots.last())
    }
}

proof fn lemma_list_roots_step(c: CatalogV, coll: Uid, all: bool, roots: Seq<Seq<char>>, i: int)
    requires
        0 <= i < roots.len(),
    ensures
        list_roots(c, coll, all, roots.subrange(0, i + 1)) == list_roots(
            c,
            coll,
            all,
            roots.subrange(0, i),
        ) + list_one_root(c, coll, all, roots[i]),
{
    assert(roots.subrange(0, i + 1).drop_last() =~= roots.subrange(0, i));
    assert(roots.subrange(0, i + 1).last() == roots[i]);
}

/// The rows one root contributes to a recursive find: the exact file when
/// the root names one, else every file matching the depth window and the
/// patterns.
pub open spec fn find_one_root(
    c: CatalogV,
    coll: Uid,
    min_depth: Option<u32>,
    max_depth: Option<u32>,
    name: Option<Seq<char>>,
    path_re: Option<Seq<char>>,
    root: Seq<char>,
) -> Seq<FileV> {
    if root_is_file_query(root) && c.has_file_at(coll, root) {
        c.files.filter(exact_pred(coll, root))
    } else {
        c.files.filter(find_pred(coll, root, min_depth, max_depth, name, path_re))
    }
}

pub open spec fn find_roots(
    c: CatalogV,
    coll: Uid,
    min_depth: Option<u32>,
    max_depth: Option<u32>,
    name: Option<Seq<char>>,
    path_re: Option<Seq<char>>,
    roots: Seq<Seq<char>>,
) -> Seq<FileV>
    decreases roots.len(),
{
    if roots.len() == 0 {
        Seq::<FileV>::empty()
    } else {
        find_roots(c, coll, min_depth, max_depth, name, path_re, roots.drop_last())
            + find_one_root(c, coll, min_depth, max_depth, name, path_re, roots.last())
    }
}

proof fn lemma_find_roots_step(
    c: CatalogV,
    coll: Uid,
    min_depth: Option<u32>,
    max_depth: Option<u32>,
    name: Option<Seq<char>>,
    path_re: Option<Seq<char>>,
    roots: Seq<Seq<char>>,
    i: int,
)
    requires
        0 <= i < roots.len(),
    ensures
        find_roots(c, coll, min_depth, max_depth, name, path_re, roots.subrange(0, i + 1))
            == find_roots(c, coll, min_depth, max_depth, name, path_re, roots.subrange(0, i))
            + find_one_root(c, coll, min_depth, max_depth, name, path_re, roots[i]),
{
    assert(roots.subrange(0, i + 1).drop_last() =~= roots.subrange(0, i));
    assert(roots.subrange(0, i + 1).last() == roots[i]);
}

fn get_exact(c: &Catalog, collection_id: &Uid, path: &str) -> (r: Vec<File>)
    ensures
        fviews(r@) == c@.files.filter(exact_pred(*collection_id, path@)),
{
    let ghost pred = exact_pred(*collection_id, path@);
    let gpath = String::from_str(path);
    let mut r: Vec<File> = Vec::new();
    proof {
        lemma_filter_empty(c@.files.subrange(0, 0), pred);
    }
    assert(fviews(r@) =~= c@.files.subrange(0, 0).filter(pred));
    let mut i: usize = 0;
    while i < c.files.len()
        invariant
            0 <= i <= c.files.len(),
            gpath@ == path@,
            pred == exact_pred(*collection_id, path@),
            fviews(r@) == c@.files.subrange(0, i as int).filter(pred),
        decreases c.files.len() - i,
    {
        proof {
            lemma_filter_step(c@.files, pred, i as int);
        }
        if c.files[i].collection_id.value == collection_id.value && c.files[i].path == gpath {
            r.push(crate::catalog::copy_file(&c.files[i]));
            assert(fviews(r@) =~= c@.files.subrange(0, i as int).filter(pred).push(
                c@.files[i as int],
            ));
        }
        i = i + 1;
    }
    assert(c@.files.subrange(0, c@.files.len() as int) =~= c@.files);
    r
}

fn append_files(dst: &mut Vec<File>, src: &Vec<File>)
    ensures
        final(dst)@.len() == old(dst)@.len() + src@.len(),
        fviews(final(dst)@) == fviews(old(dst)@) + fviews(src@),
{
    let mut i: usize = 0;
    while i < src.len()
        invariant
            0 <= i <= src.len(),
            dst@.len() == old(dst)@.len() + i,
            fviews(dst@) == fviews(old(dst)@) + fviews(src@.subrange(0, i as int)),
        decreases src.len() - i,
    {
        let piece = crate::catalog::copy_file(&src[i]);
        let ghost pieceval = piece;
        let ghost pv = piece@;
        assert(pv == src@[i as int]@);
        let ghost before = dst@;
        dst.push(piece);
        assert(dst@ == before.push(pieceval));
        assert(fviews(dst@) =~= fviews(before).push(pv)) by {
            assert forall|k: int| 0 <= k < dst@.len() implies fviews(dst@)[k] == fviews(
                before,
            ).push(pv)[k] by {
                if k < before.len() {
                    assert(dst@[k] == before[k]);
                } else {
                    assert(dst@[k] == pieceval);
                    assert(dst@[k]@ == pv);
                }
            }
        }
        assert(fviews(dst@) =~= fviews(old(dst)@) + fviews(src@.subrange(0, i as int)).push(pv));
        assert(fviews(src@.subrange(0, i + 1 as int)) =~= fviews(src@.subrange(0, i as int)).push(
            pv,
        ));
        assert(fviews(dst@) =~= fviews(old(dst)@) + fviews(src@.subrange(0, i + 1 as int)));
        i = i + 1;
    }
    assert(src@.subrange(0, src@.len() as int) =~= src@);
    assert(fviews(dst@) =~= fviews(old(dst)@) + fviews(src@));
}

// ---------------------------------------------------------------------------
// The manager
// ---------------------------------------------------------------------------

pub struct Manager {
    pub config: Config,
    pub catalog: Catalog,
}

impl Manager {
    pub fn new(config: Config, catalog: Catalog) -> (r: Manager)
        ensures
            r.catalog@ == catalog@,
            r.config.files.hashes@ == config.files.hashes@,
            r.config.db.path@ == config.db.path@,
    {
        Manager { config, catalog }
    }

    pub fn catalog(&self) -> (r: &Catalog)
        ensures
            r@ == self.catalog@,
    {
        &self.catalog
    }

    pub fn add_collection(&mut self, name: &str) -> (r: Result<(), Error>)
        requires
            old(self).catalog@.wf(),
        ensures
            final(self).catalog@.wf(),
            final(self).config == old(self).config,
            match r {
                Ok(_) => {
                    &&& !old(self).catalog@.has_collection_name(name@)
                    &&& final(self).catalog@.collections.len() == old(
                        self,
                    ).catalog@.collections.len() + 1
                    &&& final(self).catalog@.collections.last().name == name@
                    &&& final(self).catalog@.collections == old(self).catalog@.collections.push(
                        final(self).catalog@.collections.last(),
                    )
                    &&& final(self).catalog@.same_except_collections(old(self).catalog@)
                },
                Err(e) => {
                    &&& final(self).catalog@ == old(self).catalog@
                    &&& (e == Error::CollectionNameTaken <==> old(
                        self,
                    ).catalog@.has_collection_name(name@))
                    &&& (e == Error::CollectionNameTaken || e == Error::IdCollision)
                },
            },
    {
        let nc = NewCollection { name: String::from_str(name) };
        match nc.insert(&mut self.catalog) {
            Ok(_) => Ok(()),
            Err(e) => Err(e),
        }
    }

    pub fn list_collections(&self) -> (r: Vec<Collection>)
        ensures
            r@.map_values(|x: Collection| x@) == self.catalog@.collections,
    {
        Collection::all(&self.catalog)
    }

    pub fn add_disk(
        &mut self,
        serial_number: &str,
        label: &str,
        location_id: Option<Uid>,
    ) -> (r: Result<(), Error>)
        requires
            old(self).catalog@.wf(),
        ensures
            final(self).catalog@.wf(),
            final(self).config == old(self).config,
            match r {
                Ok(_) => {
                    &&& !old(self).catalog@.has_disk_serial(serial_number@)
                    &&& !old(self).catalog@.has_disk_label(label@)
                    &&& final(self).catalog@.disks.len() == old(self).catalog@.disks.len() + 1
                    &&& final(self).catalog@.disks.last().serial_number == serial_number@
                    &&& final(self).catalog@.disks.last().label == label@
                    &&& final(self).catalog@.disks.last().location_id == location_id
                    &&& final(self).catalog@.disks == old(self).catalog@.disks.push(
                        final(self).catalog@.disks.last(),
                    )
                    &&& final(self).catalog@.same_except_disks(old(self).catalog@)
                },
                Err(e) => final(self).catalog@ == old(self).catalog@,
            },
            old(self).catalog@.has_disk_serial(serial_number@) ==> r == Result::<(), Error>::Err(
                Error::DiskSerialTaken,
            ),
    {
        let nd = NewDisk {
            location_id,
            serial_number: String::from_str(serial_number),
            label: String::from_str(label),
        };
        match nd.insert(&mut self.catalog) {
            Ok(_) => Ok(()),
            Err(e) => Err(e),
        }
    }

    pub fn list_disks(&self) -> (r: Vec<Disk>)
        ensures
            r@.map_values(|x: Disk| x@) == self.catalog@.disks,
    {
        Disk::all(&self.catalog)
    }

    pub fn add_partition(&mut self, serial_number: &str, uuid: &str, capacity: u64) -> (r: Result<
        (),
        Error,
    >)
        requires
            old(self).catalog@.wf(),
        ensures
            final(self).catalog@.wf(),
            final(self).config == old(self).config,
            !old(self).catalog@.has_disk_serial(serial_number@) ==> r == Result::<(), Error>::Err(
                Error::DiskNotFound,
            ) && final(self).catalog@ == old(self).catalog@,
            match r {
                Ok(_) => {
                    &&& !old(self).catalog@.has_partition_uuid(uuid@)
                    &&& final(self).catalog@.partitions.len() == old(
                        self,
                    ).catalog@.partitions.len() + 1
                    &&& final(self).catalog@.partitions.last().uuid == uuid@
                    &&& final(self).catalog@.partitions.last().capacity == capacity
                    &&& final(self).catalog@.partitions == old(self).catalog@.partitions.push(
                        final(self).catalog@.partitions.last(),
                    )
                    &&& final(self).catalog@.same_except_partitions(old(self).catalog@)
                },
                Err(e) => final(self).catalog@ == old(self).catalog@,
            },
    {
        match NewPartition::create_for_disk(&mut self.catalog, serial_number, uuid, capacity) {
            Ok(_) => Ok(()),
            Err(e) => Err(e),
        }
    }

    pub fn list_partitions(&self) -> (r: Vec<Partition>)
        ensures
            r@.map_values(|x: Partition| x@) == self.catalog@.partitions,
    {
        Partition::all(&self.catalog)
    }

    /// List files under each given root: a root naming a file contributes
    /// that file, a directory root contributes its direct entries, hidden
    /// ones only when `all` is set; the merged result is sorted by path.
    pub fn list_files(&self, collection_id: &Uid, files: &Vec<String>, all: bool) -> (r: Vec<File>)
        ensures
            fviews(r@).to_multiset() == list_roots(
                self.catalog@,
                *collection_id,
                all,
                crate::catalog::str_views(files@),
            ).to_multiset(),
            files_sorted(fviews(r@)),
    {
        let ghost groots = crate::catalog::str_views(files@);
        let mut out: Vec<File> = Vec::new();
        assert(fviews(out@) =~= list_roots(self.catalog@, *collection_id, all, groots.subrange(0, 0)));
        let mut i: usize = 0;
        while i < files.len()
            invariant
                0 <= i <= files.len(),
                groots == crate::catalog::str_views(files@),
                fviews(out@) == list_roots(
                    self.catalog@,
                    *collection_id,
                    all,
                    groots.subrange(0, i as int),
                ),
            decreases files.len() - i,
        {
            proof {
                lemma_list_roots_step(self.catalog@, *collection_id, all, groots, i as int);
            }
            let root = &files[i];
            assert(root@ == groots[i as int]);
            let rc = str_chars(root.as_str());
            let is_file_q = !(rc.len() > 0 && rc[rc.len() - 1] == '/');
            assert(is_file_q == root_is_file_query(root@));
            let mut used_exact = false;
            if is_file_q {
                if File::get_by_collection_and_path(&self.catalog, collection_id, root.as_str())
                    .is_some() {
                    used_exact = true;
                }
            }
            assert(used_exact == (root_is_file_query(root@) && self.catalog@.has_file_at(
                *collection_id,
                root@,
            )));
            if used_exact {
                let part = get_exact(&self.catalog, collection_id, root.as_str());
                append_files(&mut out, &part);
            } else {
                let part = File::get_by_collection_and_directory(
                    &self.catalog,
                    collection_id,
                    all,
                    root.as_str(),
                );
                append_files(&mut out, &part);
            }
            assert(fviews(out@) == list_roots(
                self.catalog@,
                *collection_id,
                all,
                groots.subrange(0, i + 1),
            ));
            i = i + 1;
        }
        assert(groots.subrange(0, groots.len() as int) =~= groots);
        sort_files_by_path(out)
    }

    /// Recursive search: each root contributes its exact file or every file
    /// within the depth window matching the optional basename and path
    /// patterns; an inverted depth window or an invalid pattern is rejected
    /// before any row is read. The merged result is sorted by path.
    pub fn find_files(
        &self,
        collection_id: &Uid,
        min_depth: Option<u32>,
        max_depth: Option<u32>,
        name: Option<&str>,
        path: Option<&str>,
        files: &Vec<String>,
    ) -> (r: Result<Vec<File>, Error>)
        ensures
            (r == Result::<Vec<File>, Error>::Err(Error::InvalidDepthRange)) <==> (match (
                min_depth,
                max_depth,
            ) {
                (Some(mn), Some(mx)) => mn > mx,
                _ => false,
            }),
            (r == Result::<Vec<File>, Error>::Err(Error::BadPattern)) <==> (!(match (
                min_depth,
                max_depth,
            ) {
                (Some(mn), Some(mx)) => mn > mx,
                _ => false,
            }) && !(opt_pattern_ok(opt_view(name)) && opt_pattern_ok(opt_view(path)))),
            r is Ok <==> (!(match (min_depth, max_depth) {
                (Some(mn), Some(mx)) => mn > mx,
                _ => false,
            }) && opt_pattern_ok(opt_view(name)) && opt_pattern_ok(opt_view(path))),
            r is Ok ==> fviews((r->Ok_0)@).to_multiset() == find_roots(
                self.catalog@,
                *collection_id,
                min_depth,
                max_depth,
                opt_view(name),
                opt_view(path),
                crate::catalog::str_views(files@),
            ).to_multiset() && files_sorted(fviews((r->Ok_0)@)),
    {
        match (min_depth, max_depth) {
            (Some(mn), Some(mx)) => {
                if mn > mx {
                    return Err(Error::InvalidDepthRange);
                }
            },
            _ => {},
        }
        match name {
            Some(np) => {
                if crate::regex_utils::regex_is_match(np, "").is_none() {
                    return Err(Error::BadPattern);
                }
            },
            None => {},
        }
        match path {
            Some(pp) => {
                if crate::regex_utils::regex_is_match(pp, "").is_none() {
                    return Err(Error::BadPattern);
                }
            },
            None => {},
        }
        let ghost groots = crate::catalog::str_views(files@);
        let mut out: Vec<File> = Vec::new();
        assert(fviews(out@) =~= find_roots(
            self.catalog@,
            *collection_id,
            min_depth,
            max_depth,
            opt_view(name),
            opt_view(path),
            groots.subrange(0, 0),
        ));
        let mut i: usize = 0;
        while i < files.len()
            invariant
                0 <= i <= files.len(),
                groots == crate::catalog::str_views(files@),
                opt_pattern_ok(opt_view(name)),
                opt_pattern_ok(opt_view(path)),
                fviews(out@) == find_roots(
                    self.catalog@,
                    *collection_id,
                    min_depth,
                    max_depth,
                    opt_view(name),
                    opt_view(path),
                    groots.subrange(0, i as int),
                ),
            decreases files.len() - i,
        {
            proof {
                lemma_find_roots_step(
                    self.catalog@,
                    *collection_id,
                    min_depth,
                    max_depth,
                    opt_view(name),
                    opt_view(path),
                    groots,
                    i as int,
                );
            }
            let root = &files[i];
            assert(root@ == groots[i as int]);
            let rc = str_chars(root.as_str());
            let is_file_q = !(rc.len() > 0 && rc[rc.len() - 1] == '/');
            assert(is_file_q == root_is_file_query(root@));
            let mut used_exact = false;
            if is_file_q {
                if File::get_by_collection_and_path(&self.catalog, collection_id, root.as_str())
                    .is_some() {
                    used_exact = true;
                }
            }
            assert(used_exact == (root_is_file_query(root@) && self.catalog@.has_file_at(
                *collection_id,
                root@,
            )));
            if used_exact {
                let part = get_exact(&self.catalog, collection_id, root.as_str());
                append_files(&mut out, &part);
            } else {
                let part = match File::find_in_dir(
                    &self.catalog,
                    collection_id,
                    root.as_str(),
                    min_depth,
                    max_depth,
                    name,
                    path,
                ) {
                    Ok(p) => p,
                    Err(_) => {
                        proof {
                            assert(false);
                        }
                        unreached()
                    },
                };
                append_files(&mut out, &part);
            }
            assert(fviews(out@) == find_roots(
                self.catalog@,
                *collection_id,
                min_depth,
                max_depth,
                opt_view(name),
                opt_view(path),
                groots.subrange(0, i + 1),
            ));
            i = i + 1;
        }
        assert(groots.subrange(0, groots.len() as int) =~= groots);
        Ok(sort_files_by_path(out))
    }
}

// ---------------------------------------------------------------------------
// File ingestion
// ---------------------------------------------------------------------------

/// What ingestion reads of the source: its local name (for container
/// sniffing), whether it is a regular file, and its bytes.
#[derive(Debug)]
pub struct SourceFile {
    pub name: String,
    pub is_regular: bool,
    pub bytes: Vec<u8>,
}

/// What a successful ingestion hands back: the new file's identifier, the
/// chosen partition, and the physical path (relative to the partition's
/// mount point) where the bytes belong.
#[derive(Debug)]
pub struct AddedFile {
    pub file_id: Uid,
    pub partition_id: Uid,
    pub partition_uuid: String,
    pub physical_path: String,
}

/// Whether `a` is `b` itself or names a directory above it.
pub open spec fn ancestor_or_self(a: Seq<char>, b: Seq<char>) -> bool {
    a == b || (a + seq!['/']).is_prefix_of(b)
}

/// Whether placing a file at `dest` would clash with an existing file of the
/// collection: an existing file at `dest` or at an ancestor of it, or an
/// existing file below `dest`.
pub open spec fn path_collides(c: CatalogV, coll: Uid, dest: Seq<char>) -> bool {
    exists|i: int|
        0 <= i < c.files.len() && (#[trigger] c.files[i]).collection_id == coll && (ancestor_or_self(
            c.files[i].path,
            dest,
        ) || ancestor_or_self(dest, c.files[i].path))
}

/// An existing file whose path stands in an ancestor relation, in either
/// direction, with a new destination always collides: whichever of the two
/// paths is ingested second is rejected, regardless of order.
pub proof fn lemma_ancestor_paths_collide(c: CatalogV, coll: Uid, existing: Seq<char>, dest: Seq<char>)
    requires
        c.has_file_at(coll, existing),
        ancestor_or_self(existing, dest) || ancestor_or_self(dest, existing),
    ensures
        path_collides(c, coll, dest),
{
    let i = choose|i: int|
        0 <= i < c.files.len() && (#[trigger] c.files[i]).collection_id == coll && c.files[i].path
            == existing;
    assert(c.files[i].collection_id == coll);
}

fn is_ancestor_or_self(a: &str, b: &str) -> (r: bool)
    ensures
        r == ancestor_or_self(a@, b@),
{
    let sa = String::from_str(a);
    let sb = String::from_str(b);
    if sa == sb {
        return true;
    }
    let mut ac = str_chars(a);
    ac.push('/');
    assert(ac@ =~= a@ + seq!['/']);
    let bc = str_chars(b);
    chars_is_prefix(&ac, &bc)
}

/// The filesystem UUID of the partition with the given identifier.
pub open spec fn partition_uuid_of(c: CatalogV, pid: Uid) -> Seq<char> {
    c.partitions[choose|i: int|
        0 <= i < c.partitions.len() && (#[trigger] c.partitions[i]).id == pid].uuid
}

pub open spec fn dup_member_paths(members: Seq<(Seq<char>, u64)>) -> bool {
    exists|i: int, j: int|
        0 <= i < j < members.len() && (#[trigger] members[i]).0 == (#[trigger] members[j]).0
}

pub open spec fn opt_uid(o: Option<&Uid>) -> Option<Uid> {
    match o {
        Some(u) => Some(*u),
        None => None,
    }
}

/// The deterministic decision sequence of ingestion: the first condition
/// that fails, in the order the engine checks them, and nothing when every
/// check passes.
pub open spec fn add_file_check(
    c: CatalogV,
    collection_id: Uid,
    partition_id: Option<Uid>,
    src_name: Seq<char>,
    src_is_regular: bool,
    data: Seq<u8>,
    dest: Seq<char>,
    mounted: Seq<Seq<char>>,
) -> Option<Error> {
    if !src_is_regular {
        Some(Error::SourceIsDirectory)
    } else if !crate::fs_utils::is_absolute(dest) {
        Some(Error::PathNotAbsolute)
    } else if crate::fs_utils::cur_seg_first(crate::fs_utils::path_parts(dest)) {
        Some(Error::PathCurDirSegment)
    } else if crate::fs_utils::par_seg_first(crate::fs_utils::path_parts(dest)) {
        Some(Error::PathParentDirSegment)
    } else if crate::fs_utils::canon_of(dest).len() <= 1 {
        Some(Error::DestIsDirectory)
    } else if !c.has_collection(collection_id) {
        Some(Error::CollectionNotFound)
    } else if path_collides(c, collection_id, crate::fs_utils::canon_of(dest)) {
        Some(Error::PathCollision)
    } else if match partition_id {
        Some(pid) => !c.has_partition(pid),
        None => false,
    } {
        Some(Error::PartitionNotFound)
    } else if match partition_id {
        Some(pid) => !mounted.contains(partition_uuid_of(c, pid)),
        None => false,
    } {
        Some(Error::PartitionNotMounted)
    } else if partition_id is None && c.partitions.filter(crate::catalog::mounted_pred(mounted)).len()
        == 0 {
        Some(Error::NoMountedPartition)
    } else if crate::archive_utils::spec_archive_members(src_name, data) is None {
        Some(Error::ArchiveUnreadable)
    } else if dup_member_paths(crate::archive_utils::spec_archive_members(src_name, data)->0) {
        Some(Error::ArchiveMemberExists)
    } else {
        None
    }
}

impl Manager {
    /// Ingest one source file at a destination virtual path: validate the
    /// path, reject collisions in both directions, resolve the target
    /// partition (explicit, or chosen among the mounted ones), compute every
    /// configured digest and the container member list, and extend the
    /// catalog by the new file, its placement, its digests and its members
    /// as one all-or-nothing step. The physical copy is the caller's to
    /// perform afterwards, at the returned physical path.
    #[verifier::rlimit(100)]
    pub fn add_file(
        &mut self,
        collection_id: &Uid,
        partition_id: Option<&Uid>,
        src: &SourceFile,
        dest_path: &str,
        mounted: &Vec<String>,
    ) -> (r: Result<AddedFile, Error>)
        requires
            old(self).catalog@.wf(),
        ensures
            final(self).catalog@.wf(),
            final(self).config == old(self).config,
            match add_file_check(
                old(self).catalog@,
                *collection_id,
                opt_uid(partition_id),
                src.name@,
                src.is_regular,
                src.bytes@,
                dest_path@,
                crate::catalog::str_views(mounted@),
            ) {
                Some(e) => r == Result::<AddedFile, Error>::Err(e) && final(self).catalog@ == old(
                    self,
                ).catalog@,
                None => (r is Ok || r == Result::<AddedFile, Error>::Err(Error::IdCollision)) && (r
                    is Err ==> final(self).catalog@ == old(self).catalog@),
            },
            r is Ok ==> {
                let out = r->Ok_0;
                let canon = crate::fs_utils::canon_of(dest_path@);
                let members = crate::archive_utils::spec_archive_members(src.name@, src.bytes@)->0;
                let algos = crate::hash_utils::dedup_algos(old(self).config.files.hashes@);
                let c0 = old(self).catalog@;
                let c1 = final(self).catalog@;
                &&& out.physical_path@ == crate::fs_utils::physical_rel_path_of(
                    *collection_id,
                    canon,
                )
                &&& (match partition_id {
                    Some(pid) => out.partition_id == *pid,
                    None => true,
                })
                &&& (exists|i: int|
                    0 <= i < c0.partitions.len() && (#[trigger] c0.partitions[i]).id
                        == out.partition_id && c0.partitions[i].uuid == out.partition_uuid@
                        && crate::catalog::str_views(mounted@).contains(c0.partitions[i].uuid))
                &&& c1.files == c0.files.push(c1.files.last())
                &&& c1.files.last().id == out.file_id
                &&& c1.files.last().collection_id == *collection_id
                &&& c1.files.last().path == canon
                &&& c1.files.last().size == src.bytes@.len()
                &&& c1.placements == c0.placements.push(
                    crate::catalog::FilePlacement {
                        file_id: out.file_id,
                        partition_id: out.partition_id,
                    },
                )
                &&& c1.hashes.len() == c0.hashes.len() + algos.len()
                &&& c1.hashes.subrange(0, c0.hashes.len() as int) == c0.hashes
                &&& (forall|k: int|
                    0 <= k < algos.len() ==> (#[trigger] c1.hashes[c0.hashes.len() + k]).file_id
                        == out.file_id && c1.hashes[c0.hashes.len() + k].hash_algorithm == algos[k]
                        && c1.hashes[c0.hashes.len() + k].hash_value
                        == crate::hash_utils::digest_of(algos[k], src.bytes@))
                &&& c1.archives.len() == c0.archives.len() + members.len()
                &&& c1.archives.subrange(0, c0.archives.len() as int) == c0.archives
                &&& (forall|k: int|
                    0 <= k < members.len() ==> (#[trigger] c1.archives[c0.archives.len()
                        + k]).file_id == out.file_id && c1.archives[c0.archives.len() + k].path
                        == members[k].0 && c1.archives[c0.archives.len() + k].size
                        == members[k].1)
                &&& c1.collections == c0.collections
                &&& c1.locations == c0.locations
                &&& c1.disks == c0.disks
                &&& c1.partitions == c0.partitions
            },
    {
        let ghost c0 = self.catalog@;
        let ghost gmounted = crate::catalog::str_views(mounted@);
        let ghost gcheck = add_file_check(
            c0,
            *collection_id,
            opt_uid(partition_id),
            src.name@,
            src.is_regular,
            src.bytes@,
            dest_path@,
            gmounted,
        );
        if !src.is_regular {
            return Err(Error::SourceIsDirectory);
        }
        let canon = match crate::fs_utils::canonical_path(dest_path) {
            Ok(x) => x,
            Err(e) => {
                proof {
                    crate::fs_utils::lemma_dot_first_exclusive(
                        crate::fs_utils::path_parts(dest_path@),
                    );
                }
                return Err(e);
            },
        };
        proof {
            crate::fs_utils::lemma_canon_ok_no_dot_first(dest_path@);
        }
        if canon.unicode_len() <= 1 {
            return Err(Error::DestIsDirectory);
        }
        if Collection::for_id(&self.catalog, collection_id).is_none() {
            return Err(Error::CollectionNotFound);
        }
        assert(self.catalog@.has_collection(*collection_id));
        let mut ci: usize = 0;
        while ci < self.catalog.files.len()
            invariant
                0 <= ci <= self.catalog.files.len(),
                self.catalog@ == c0,
                c0 == old(self).catalog@,
                self.config == old(self).config,
                old(self).catalog@.wf(),
                gmounted == crate::catalog::str_views(mounted@),
                gcheck == add_file_check(
                    c0,
                    *collection_id,
                    opt_uid(partition_id),
                    src.name@,
                    src.is_regular,
                    src.bytes@,
                    dest_path@,
                    gmounted,
                ),
                src.is_regular,
                canon@ == crate::fs_utils::canon_of(dest_path@),
                crate::fs_utils::canon_ok(dest_path@),
                canon@.len() > 1,
                c0.has_collection(*collection_id),
                forall|j: int|
                    0 <= j < ci ==> !((#[trigger] c0.files[j]).collection_id == *collection_id && (
                    ancestor_or_self(c0.files[j].path, canon@) || ancestor_or_self(
                        canon@,
                        c0.files[j].path,
                    ))),
            decreases self.catalog.files.len() - ci,
        {
            let f = &self.catalog.files[ci];
            if f.collection_id.value == collection_id.value {
                let anc1 = is_ancestor_or_self(f.path.as_str(), canon.as_str());
                let anc2 = is_ancestor_or_self(canon.as_str(), f.path.as_str());
                if anc1 || anc2 {
                    proof {
                        assert((c0.files[ci as int]).collection_id == *collection_id);
                        assert(path_collides(c0, *collection_id, canon@));
                        crate::fs_utils::lemma_canon_ok_no_dot_first(dest_path@);
                        assert(gcheck == Some(Error::PathCollision));
                    }
                    return Err(Error::PathCollision);
                }
            }
            ci = ci + 1;
        }
        assert(!path_collides(c0, *collection_id, canon@));
        let part: Partition = match partition_id {
            Some(pid) => {
                let p = match Partition::for_id(&self.catalog, pid) {
                    Some(p) => p,
                    None => {
                        proof {
                            assert(!c0.has_partition(*pid));
                            assert(gcheck == Some(Error::PartitionNotFound));
                        }
                        return Err(Error::PartitionNotFound);
                    },
                };
                proof {
                    let w = choose|w: int|
                        0 <= w < c0.partitions.len() && (#[trigger] c0.partitions[w]) == p@;
                    assert(c0.partitions[w].id == *pid);
                    assert(c0.has_partition(*pid));
                    let ciw = choose|ciw: int|
                        0 <= ciw < c0.partitions.len() && (#[trigger] c0.partitions[ciw]).id
                            == *pid;
                    assert(w == ciw || c0.partitions[w].id != c0.partitions[ciw].id);
                    assert(partition_uuid_of(c0, *pid) == p@.uuid);
                }
                let m = uuid_is_mounted(mounted, &p.uuid);
                if !m {
                    assert(gcheck == Some(Error::PartitionNotMounted));
                    return Err(Error::PartitionNotMounted);
                }
                p
            },
            None => {
                match Partition::random(&self.catalog, mounted) {
                    Some(p) => {
                        proof {
                            let filt = c0.partitions.filter(crate::catalog::mounted_pred(gmounted));
                            let w = choose|w: int| 0 <= w < filt.len() && (#[trigger] filt[w]) == p@;
                            c0.partitions.lemma_filter_pred(
                                crate::catalog::mounted_pred(gmounted),
                                w,
                            );
                            c0.partitions.lemma_filter_contains_rev(
                                crate::catalog::mounted_pred(gmounted),
                                p@,
                            );
                        }
                        p
                    },
                    None => {
                        assert(gcheck == Some(Error::NoMountedPartition));
                        return Err(Error::NoMountedPartition);
                    },
                }
            },
        };
        assert(c0.partitions.contains(part@));
        assert(gmounted.contains(part@.uuid));
        let phys = match crate::fs_utils::physical_relative_path(collection_id, dest_path) {
            Ok(p) => p,
            Err(_) => {
                proof {
                    assert(false);
                }
                unreached()
            },
        };
        let computed = crate::hash_utils::make_hashes(
            src.bytes.as_slice(),
            self.config.files.hashes.as_slice(),
        );
        let members = match crate::archive_utils::list_files(
            src.name.as_str(),
            src.bytes.as_slice(),
        ) {
            Ok(m) => m,
            Err(e) => {
                assert(gcheck == Some(Error::ArchiveUnreadable));
                return Err(e);
            },
        };
        let ghost gmembers = crate::archive_utils::members_view(members@);
        if has_dup_member_paths(&members) {
            assert(gcheck == Some(Error::ArchiveMemberExists));
            return Err(Error::ArchiveMemberExists);
        }
        assert(gcheck is None);
        // Everything is validated; stage the catalog writes so that a late
        // identifier clash leaves the catalog untouched.
        let mut staged = crate::catalog::copy_catalog(&self.catalog);
        let nf = NewFile {
            collection_id: *collection_id,
            path: canon,
            size: src.bytes.len() as u64,
        };
        proof {
            crate::fs_utils::lemma_canonical_idempotent(dest_path@);
        }
        let file_id = match nf.insert(&mut staged) {
            Ok(id) => id,
            Err(e) => {
                proof {
                    if e == Error::FilePathTaken {
                        lemma_ancestor_paths_collide(c0, *collection_id, nf.path@, nf.path@);
                    }
                    assert(e == Error::IdCollision);
                }
                return Err(Error::IdCollision);
            },
        };
        let ghost s1 = staged@;
        let np = NewFilePlacement { file_id, partition_id: part.id };
        match np.insert(&mut staged) {
            Ok(_) => {},
            Err(e) => {
                proof {
                    assert(s1.partitions == c0.partitions);
                    assert(s1.has_partition(part.id)) by {
                        let w = choose|w: int|
                            0 <= w < c0.partitions.len() && (#[trigger] c0.partitions[w]) == part@;
                        assert(c0.partitions[w].id == part.id);
                    }
                    assert(!s1.has_placement(file_id, part.id)) by {
                        if s1.has_placement(file_id, part.id) {
                            let w = choose|w: int|
                                0 <= w < s1.placements.len() && (#[trigger] s1.placements[
                                w]).file_id == file_id && s1.placements[w].partition_id == part.id;
                            assert(c0.placements[w].file_id == file_id);
                            assert(c0.has_file(file_id));
                        }
                    }
                    assert(false);
                }
                unreached()
            },
        }
        let ghost s2 = staged@;
        let ghost galgos = crate::hash_utils::dedup_algos(self.config.files.hashes@);
        proof {
            assert(computed@.map_values(|h: crate::hash_utils::ComputedHash| h.algorithm)
                == galgos);
            crate::hash_utils::lemma_dedup_same_elems(self.config.files.hashes@);
            assert(s2.hashes == c0.hashes);
            assert(s2.has_file(file_id));
            assert(!c0.has_file(file_id));
            assert forall|k: int| 0 <= k < c0.hashes.len() implies (#[trigger] c0.hashes[
                k]).file_id != file_id by {
                assert(c0.has_file(c0.hashes[k].file_id));
            }
        }
        let mut hi: usize = 0;
        while hi < computed.len()
            invariant
                0 <= hi <= computed.len(),
                staged@.wf(),
                old(self).catalog@.wf(),
                self.catalog@ == c0,
                c0 == old(self).catalog@,
                self.config == old(self).config,
                gmounted == crate::catalog::str_views(mounted@),
                gcheck == add_file_check(
                    c0,
                    *collection_id,
                    opt_uid(partition_id),
                    src.name@,
                    src.is_regular,
                    src.bytes@,
                    dest_path@,
                    gmounted,
                ),
                gcheck is None,
                computed@.map_values(|h: crate::hash_utils::ComputedHash| h.algorithm) == galgos,
                forall|k: int|
                    0 <= k < computed@.len() ==> (#[trigger] computed@[k]).value@
                        == crate::hash_utils::digest_of(computed@[k].algorithm, src.bytes@),
                forall|x: int, y: int| 0 <= x < y < galgos.len() ==> galgos[x] != galgos[y],
                !c0.has_file(file_id),
                staged@.hashes.len() == s2.hashes.len() + hi,
                staged@.hashes.subrange(0, s2.hashes.len() as int) == s2.hashes,
                forall|k: int|
                    0 <= k < hi ==> (#[trigger] staged@.hashes[s2.hashes.len() + k]).file_id
                        == file_id && staged@.hashes[s2.hashes.len() + k].hash_algorithm
                        == galgos[k] && staged@.hashes[s2.hashes.len() + k].hash_value
                        == crate::hash_utils::digest_of(galgos[k], src.bytes@),
                staged@.same_except_hashes(s2),
                s2.hashes == c0.hashes,
                staged@.has_file(file_id),
                forall|k: int|
                    0 <= k < c0.hashes.len() ==> (#[trigger] c0.hashes[k]).file_id != file_id,
            decreases computed.len() - hi,
        {
            let ch = &computed[hi];
            assert(ch.algorithm == galgos[hi as int]) by {
                assert(computed@.map_values(|h: crate::hash_utils::ComputedHash| h.algorithm)[
                    hi as int] == galgos[hi as int]);
            }
            let nh = crate::catalog::NewFileHash {
                file_id,
                hash_algorithm: ch.algorithm,
                hash_value: crate::catalog::copy_bytes(&ch.value),
            };
            let ghost pre = staged@;
            match nh.insert(&mut staged) {
                Ok(_) => {},
                Err(e) => {
                    if e == Error::IdCollision {
                        return Err(Error::IdCollision);
                    }
                    proof {
                        assert(!pre.has_hash(file_id, ch.algorithm)) by {
                            if pre.has_hash(file_id, ch.algorithm) {
                                let w = choose|w: int|
                                    0 <= w < pre.hashes.len() && (#[trigger] pre.hashes[
                                    w]).file_id == file_id && pre.hashes[w].hash_algorithm
                                        == ch.algorithm;
                                if w < s2.hashes.len() {
                                    assert(c0.hashes[w].file_id != file_id);
                                } else {
                                    let k = w - s2.hashes.len();
                                    assert(pre.hashes[s2.hashes.len() + k].hash_algorithm
                                        == galgos[k]);
                                }
                            }
                        }
                        assert(false);
                    }
                    unreached()
                },
            }
            proof {
                assert(staged@.hashes.subrange(0, s2.hashes.len() as int) =~= s2.hashes);
                assert forall|k: int| 0 <= k < hi + 1 implies (#[trigger] staged@.hashes[
                    s2.hashes.len() + k]).file_id == file_id && staged@.hashes[s2.hashes.len()
                    + k].hash_algorithm == galgos[k] && staged@.hashes[s2.hashes.len()
                    + k].hash_value == crate::hash_utils::digest_of(galgos[k], src.bytes@) by {
                    if k < hi {
                        assert(pre.hashes[s2.hashes.len() + k].file_id == file_id);
                    }
                }
            }
            hi = hi + 1;
        }
        let ghost s3 = staged@;
        proof {
            assert(s3.archives == c0.archives);
            assert forall|k: int| 0 <= k < c0.archives.len() implies (#[trigger] c0.archives[
                k]).file_id != file_id by {
                assert(c0.has_file(c0.archives[k].file_id));
            }
        }
        let mut ai: usize = 0;
        while ai < members.len()
            invariant
                0 <= ai <= members.len(),
                staged@.wf(),
                old(self).catalog@.wf(),
                self.catalog@ == c0,
                c0 == old(self).catalog@,
                self.config == old(self).config,
                gmounted == crate::catalog::str_views(mounted@),
                gcheck == add_file_check(
                    c0,
                    *collection_id,
                    opt_uid(partition_id),
                    src.name@,
                    src.is_regular,
                    src.bytes@,
                    dest_path@,
                    gmounted,
                ),
                gcheck is None,
                gmembers == crate::archive_utils::members_view(members@),
                !dup_member_paths(gmembers),
                !c0.has_file(file_id),
                staged@.archives.len() == s3.archives.len() + ai,
                staged@.archives.subrange(0, s3.archives.len() as int) == s3.archives,
                forall|k: int|
                    0 <= k < ai ==> (#[trigger] staged@.archives[s3.archives.len() + k]).file_id
                        == file_id && staged@.archives[s3.archives.len() + k].path == gmembers[k].0
                        && staged@.archives[s3.archives.len() + k].size == gmembers[k].1,
                staged@.same_except_archives(s3),
                s3.archives == c0.archives,
                staged@.has_file(file_id),
                forall|k: int|
                    0 <= k < c0.archives.len() ==> (#[trigger] c0.archives[k]).file_id != file_id,
            decreases members.len() - ai,
        {
            let na = crate::catalog::NewFileArchive {
                file_id,
                path: members[ai].0.clone(),
                size: members[ai].1,
            };
            assert(na.path@ == gmembers[ai as int].0) by {
                assert(gmembers[ai as int] == (members@[ai as int].0@, members@[ai as int].1));
            }
            assert(na.size == gmembers[ai as int].1) by {
                assert(gmembers[ai as int] == (members@[ai as int].0@, members@[ai as int].1));
            }
            let ghost pre = staged@;
            match na.insert(&mut staged) {
                Ok(_) => {},
                Err(e) => {
                    if e == Error::IdCollision {
                        return Err(Error::IdCollision);
                    }
                    proof {
                        assert(!pre.has_archive_member(file_id, na.path@)) by {
                            if pre.has_archive_member(file_id, na.path@) {
                                let w = choose|w: int|
                                    0 <= w < pre.archives.len() && (#[trigger] pre.archives[
                                    w]).file_id == file_id && pre.archives[w].path == na.path@;
                                if w < s3.archives.len() {
                                    assert(c0.archives[w].file_id != file_id);
                                } else {
                                    let k = w - s3.archives.len();
                                    assert(pre.archives[s3.archives.len() + k].path
                                        == gmembers[k].0);
                                    assert(gmembers[k].0 == gmembers[ai as int].0);
                                }
                            }
                        }
                        assert(false);
                    }
                    unreached()
                },
            }
            proof {
                assert(staged@.archives.subrange(0, s3.archives.len() as int) =~= s3.archives);
                assert forall|k: int| 0 <= k < ai + 1 implies (#[trigger] staged@.archives[
                    s3.archives.len() + k]).file_id == file_id && staged@.archives[
                    s3.archives.len() + k].path == gmembers[k].0 && staged@.archives[
                    s3.archives.len() + k].size == gmembers[k].1 by {
                    if k < ai {
                        assert(pre.archives[s3.archives.len() + k].file_id == file_id);
                    }
                }
            }
            ai = ai + 1;
        }
        let ghost s4 = staged@;
        let part_uuid = part.uuid;
        let part_id = part.id;
        self.catalog = staged;
        proof {
            let w = choose|w: int|
                0 <= w < c0.partitions.len() && (#[trigger] c0.partitions[w]) == part@;
            assert(c0.partitions[w].id == part_id);
            assert(c0.partitions[w].uuid == part_uuid@);
            assert(gmounted.contains(c0.partitions[w].uuid));
            // The staged states chain back to the original catalog.
            assert(s4.files == s1.files && s4.placements == s2.placements && s4.hashes
                == s3.hashes);
            assert(s1.files == c0.files.push(s1.files.last()));
            assert(s2.placements == s1.placements.push(
                crate::catalog::FilePlacement { file_id, partition_id: part_id },
            ));
            assert(s1.placements == c0.placements);
            assert(s4.collections == c0.collections && s4.locations == c0.locations && s4.disks
                == c0.disks && s4.partitions == c0.partitions);
            assert(s4.hashes.subrange(0, c0.hashes.len() as int) == c0.hashes);
            assert(s4.archives.subrange(0, c0.archives.len() as int) == c0.archives);
        }
        Ok(
            AddedFile {
                file_id,
                partition_id: part_id,
                partition_uuid: part_uuid,
                physical_path: phys,
            },
        )
    }
}

/// Whether `label` is the label of the disk that owns partition `pid`.
pub open spec fn disk_label_ok(c: CatalogV, pid: Uid, label: Seq<char>) -> bool {
    exists|pj: int, dj: int|
        0 <= pj < c.partitions.len() && (#[trigger] c.partitions[pj]).id == pid && 0 <= dj
            < c.disks.len() && (#[trigger] c.disks[dj]).id == c.partitions[pj].disk_id && label
            == c.disks[dj].label
}

/// One digest of an inspected file, in its textual form.
#[derive(Debug)]
pub struct HashReport {
    pub algorithm: String,
    pub value: String,
}

/// The structured record inspection yields: the file's identity and size,
/// its owning collection, the labels of the disks holding its bytes, and
/// its digests in hexadecimal.
#[derive(Debug)]
pub struct FileReport {
    pub path: String,
    pub size: u64,
    pub file_id: Uid,
    pub collection_id: Uid,
    pub collection_name: String,
    pub placements: Vec<String>,
    pub hashes: Vec<HashReport>,
}

/// The digests recorded for an ingestion and the digests computed
/// independently over the same bytes with the same algorithms are the same
/// values: both are pinned to the one digest each algorithm assigns.
pub proof fn lemma_digest_rows_match(
    algos: Seq<crate::hash_utils::HashAlgorithm>,
    data: Seq<u8>,
    row_values: Seq<Seq<u8>>,
    computed: Seq<Seq<u8>>,
)
    requires
        row_values.len() == algos.len(),
        computed.len() == algos.len(),
        forall|k: int|
            0 <= k < algos.len() ==> row_values[k] == crate::hash_utils::digest_of(
                #[trigger] algos[k],
                data,
            ),
        forall|k: int|
            0 <= k < algos.len() ==> computed[k] == crate::hash_utils::digest_of(
                #[trigger] algos[k],
                data,
            ),
    ensures
        row_values == computed,
{
    assert forall|k: int| 0 <= k < row_values.len() implies row_values[k] == computed[k] by {
        assert(row_values[k] == crate::hash_utils::digest_of(algos[k], data));
        assert(computed[k] == crate::hash_utils::digest_of(algos[k], data));
    }
    assert(row_values =~= computed);
}

impl Manager {
    /// Inspect one file of a collection: its identity, size, the labels of
    /// the disks holding a replica, and every recorded digest.
    #[verifier::loop_isolation(false)]
    pub fn inspect_file(&self, collection_id: &Uid, path: &str) -> (r: Result<FileReport, Error>)
        requires
            self.catalog@.wf(),
        ensures
            r is Ok <==> (self.catalog@.has_collection(*collection_id)
                && self.catalog@.has_file_at(*collection_id, path@)),
            (r == Result::<FileReport, Error>::Err(Error::CollectionNotFound))
                <==> !self.catalog@.has_collection(*collection_id),
            (r == Result::<FileReport, Error>::Err(Error::FileNotFound))
                <==> (self.catalog@.has_collection(*collection_id) && !self.catalog@.has_file_at(
                *collection_id,
                path@,
            )),
            r is Ok ==> ({
                let rep = r->Ok_0;
                let c = self.catalog@;
                &&& rep.collection_id == *collection_id
                &&& rep.path@ == path@
                &&& (exists|ci: int|
                    0 <= ci < c.collections.len() && (#[trigger] c.collections[ci]).id
                        == *collection_id && rep.collection_name@ == c.collections[ci].name)
                &&& (exists|fi: int|
                    0 <= fi < c.files.len() && (#[trigger] c.files[fi]).collection_id
                        == *collection_id && c.files[fi].path == path@ && rep.file_id
                        == c.files[fi].id && rep.size == c.files[fi].size)
                &&& ({
                    let hs = c.hashes.filter(crate::catalog::hash_of_file(rep.file_id));
                    &&& rep.hashes@.len() == hs.len()
                    &&& (forall|k: int|
                        0 <= k < hs.len() ==> (#[trigger] rep.hashes@[k]).algorithm@
                            == hs[k].hash_algorithm.spec_name() && rep.hashes@[k].value@
                            == crate::hash_utils::hex_of(hs[k].hash_value))
                })
                &&& ({
                    let ps = c.placements.filter(crate::catalog::placement_of_file(rep.file_id));
                    &&& rep.placements@.len() == ps.len()
                    &&& (forall|k: int|
                        #![trigger rep.placements@[k]]
                        0 <= k < ps.len() ==> disk_label_ok(
                            c,
                            ps[k].partition_id,
                            rep.placements@[k]@,
                        ))
                })
            }),
    {
        let coll = match Collection::for_id(&self.catalog, collection_id) {
            Some(coll) => coll,
            None => {
                return Err(Error::CollectionNotFound);
            },
        };
        let ghost collv = coll@;
        let coll_name: String = coll.name.clone();
        let file = match File::get_by_collection_and_path(&self.catalog, collection_id, path) {
            Some(f) => f,
            None => {
                return Err(Error::FileNotFound);
            },
        };
        proof {
            let w = choose|w: int|
                0 <= w < self.catalog@.files.len() && (#[trigger] self.catalog@.files[w]) == file@;
        }
        let file_id = file.id;
        let fps = crate::catalog::FilePlacement::get_by_file_id(&self.catalog, &file_id);
        let ghost ps = self.catalog@.placements.filter(
            crate::catalog::placement_of_file(file_id),
        );
        let mut placements: Vec<String> = Vec::new();
        let mut i: usize = 0;
        while i < fps.len()
            invariant
                0 <= i <= fps.len(),
                self.catalog@.wf(),
                fps@ == ps,
                ps == self.catalog@.placements.filter(crate::catalog::placement_of_file(file_id)),
                placements@.len() == i,
                forall|k: int|
                    #![trigger placements@[k]]
                    0 <= k < i ==> disk_label_ok(
                        self.catalog@,
                        ps[k].partition_id,
                        placements@[k]@,
                    ),
            decreases fps.len() - i,
        {
            proof {
                self.catalog@.placements.lemma_filter_contains_rev(
                    crate::catalog::placement_of_file(file_id),
                    ps[i as int],
                );
                assert(ps.contains(ps[i as int])) by {
                    assert(ps[i as int] == fps@[i as int]);
                }
                let pcur = ps[i as int];
                let w = choose|w: int|
                    0 <= w < self.catalog@.placements.len() && self.catalog@.placements[w]
                        == pcur;
                assert(self.catalog@.has_partition(
                    (#[trigger] self.catalog@.placements[w]).partition_id,
                ));
            }
            let pid = fps[i].partition_id;
            assert(pid == ps[i as int].partition_id);
            let disk = match Disk::for_partition_id(&self.catalog, &pid) {
                Some(d) => d,
                None => {
                    proof {
                        assert(false);
                    }
                    unreached()
                },
            };
            let ghost diskv = disk@;
            let label = disk.label.clone();
            let ghost labelval = label;
            let ghost labelv = label@;
            let ghost pre_pl = placements@;
            placements.push(label);
            proof {
                assert(placements@ == pre_pl.push(labelval));
                assert(labelv == diskv.label);
                assert forall|k: int|
                    #![trigger placements@[k]]
                    0 <= k < i + 1 implies disk_label_ok(
                    self.catalog@,
                    ps[k].partition_id,
                    placements@[k]@,
                ) by {
                    if k < i {
                        assert(placements@[k] == pre_pl[k]);
                        assert(disk_label_ok(self.catalog@, ps[k].partition_id, pre_pl[k]@));
                    } else {
                        assert(placements@[k] == labelval);
                        assert(placements@[k]@ == labelv);
                        let dw = choose|dw: int|
                            0 <= dw < self.catalog@.disks.len()
                                && (#[trigger] self.catalog@.disks[dw]) == diskv;
                        let pw = choose|pw: int|
                            0 <= pw < self.catalog@.partitions.len()
                                && (#[trigger] self.catalog@.partitions[pw]).id == pid
                                && self.catalog@.partitions[pw].disk_id == diskv.id;
                        assert(self.catalog@.partitions[pw].id == ps[k].partition_id);
                        assert(self.catalog@.disks[dw].id
                            == self.catalog@.partitions[pw].disk_id);
                        assert(labelv == self.catalog@.disks[dw].label);
                        assert(disk_label_ok(self.catalog@, ps[k].partition_id, labelv));
                    }
                }
            }
            i = i + 1;
        }
        let fhs = crate::catalog::FileHash::get_by_file_id(&self.catalog, &file_id);
        let ghost hs = self.catalog@.hashes.filter(crate::catalog::hash_of_file(file_id));
        let mut hash_reports: Vec<HashReport> = Vec::new();
        let mut k: usize = 0;
        while k < fhs.len()
            invariant
                0 <= k <= fhs.len(),
                fhs@.map_values(|x: crate::catalog::FileHash| x@) == hs,
                hash_reports@.len() == k,
                forall|j: int|
                    0 <= j < k ==> (#[trigger] hash_reports@[j]).algorithm@
                        == hs[j].hash_algorithm.spec_name() && hash_reports@[j].value@
                        == crate::hash_utils::hex_of(hs[j].hash_value),
            decreases fhs.len() - k,
        {
            let fh = &fhs[k];
            assert(fh@ == hs[k as int]);
            let algorithm = fh.hash_algorithm().name();
            let value = fh.hash_value_hex();
            hash_reports.push(HashReport { algorithm, value });
            k = k + 1;
        }
        let ghost filev = file@;
        let rep = FileReport {
            path: file.path,
            size: file.size,
            file_id,
            collection_id: *collection_id,
            collection_name: coll_name,
            placements,
            hashes: hash_reports,
        };
        proof {
            let cw = choose|cw: int|
                0 <= cw < self.catalog@.collections.len()
                    && (#[trigger] self.catalog@.collections[cw]) == collv;
            assert(self.catalog@.collections[cw].id == *collection_id);
            assert(rep.collection_name@ == self.catalog@.collections[cw].name);
            let fw = choose|fw: int|
                0 <= fw < self.catalog@.files.len() && (#[trigger] self.catalog@.files[fw])
                    == filev;
            assert(self.catalog@.files[fw].collection_id == *collection_id);
            assert(rep.file_id == self.catalog@.files[fw].id);
            assert(rep.size == self.catalog@.files[fw].size);
        }
        Ok(rep)
    }
}

fn uuid_is_mounted(mounted: &Vec<String>, uuid: &String) -> (r: bool)
    ensures
        r == crate::catalog::str_views(mounted@).contains(uuid@),
{
    let ghost gm = crate::catalog::str_views(mounted@);
    let mut i: usize = 0;
    while i < mounted.len()
        invariant
            0 <= i <= mounted.len(),
            gm == crate::catalog::str_views(mounted@),
            forall|j: int| 0 <= j < i ==> #[trigger] gm[j] != uuid@,
        decreases mounted.len() - i,
    {
        if mounted[i] == *uuid {
            assert(gm[i as int] == uuid@);
            return true;
        }
        i = i + 1;
    }
    false
}

fn has_dup_member_paths(members: &Vec<(String, u64)>) -> (r: bool)
    ensures
        r == dup_member_paths(crate::archive_utils::members_view(members@)),
{
    let ghost gm = crate::archive_utils::members_view(members@);
    let mut a: usize = 0;
    while a < members.len()
        invariant
            0 <= a <= members.len(),
            gm == crate::archive_utils::members_view(members@),
            forall|x: int, y: int|
                #![trigger gm[x], gm[y]]
                0 <= x < y < gm.len() && x < a ==> gm[x].0 != gm[y].0,
        decreases members.len() - a,
    {
        let mut b: usize = a + 1;
        while b < members.len()
            invariant
                0 <= a < b <= members.len(),
                a < members.len(),
                gm == crate::archive_utils::members_view(members@),
                forall|y: int| a < y < b ==> gm[a as int].0 != (#[trigger] gm[y]).0,
            decreases members.len() - b,
        {
            if members[a].0 == members[b].0 {
                assert(gm[a as int] == (members@[a as int].0@, members@[a as int].1));
                assert(gm[b as int] == (members@[b as int].0@, members@[b as int].1));
                assert(gm[a as int].0 == gm[b as int].0);
                return true;
            }
            proof {
                assert(gm[a as int] == (members@[a as int].0@, members@[a as int].1));
                assert(gm[b as int] == (members@[b as int].0@, members@[b as int].1));
            }
            b = b + 1;
        }
        a = a + 1;
    }
    proof {
        if dup_member_paths(gm) {
            let (x, y) = choose|x: int, y: int|
                0 <= x < y < gm.len() && (#[trigger] gm[x]).0 == (#[trigger] gm[y]).0;
            assert(gm[x].0 != gm[y].0);
        }
    }
    false
}

} // verus!
